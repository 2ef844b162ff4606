pub mod misc;
pub mod noise;
pub mod text;
pub mod disk;
pub mod joystick;
pub mod shared;
pub mod cycle_actions;
pub mod messages;
pub mod memory_constants;
pub mod smartport;
pub mod memory;
pub mod constants;
pub mod ui;
pub mod rolling_times;
pub mod speaker;
pub mod roms;
pub mod config_file;
pub mod memory_laws;
pub mod debug;
pub mod keyboard;
