pub mod bit_stream;
pub mod disk_info;
pub mod disk_controller;
pub mod dsk;
pub mod woz;
pub mod disk;
pub mod drive;
pub mod lss;
pub mod dsk_to_woz;
pub mod woz_roundtrip;
pub mod stepper_laws;
pub mod standard_track;
