# apple2

The machine side of Maple //, an Apple ][ emulator, written in Verus: the
memory with its soft switches and language card, the Disk II controller with
its logic state sequencer, the WOZ and DSK disk images, the SmartPort hard
drive, the hi-res, double hi-res and text screens, and the settings. Each
function states what it does in its `requires` / `ensures`, and Verus proves it.

Layout:

- `src/` the verified library
  - `memory.rs`, `memory_laws.rs`: the 128K of memory, its soft switches, the
    language card, and what reading back a write gives
  - `disk/`: bit streams, DSK (6-and-2, 4-and-4 encodings) and WOZ images
    (reading, writing, and reading back what was written), the disk
    controller, its stepper motor and sequencer; `standard_track.rs` shows
    that a track encoded from a DSK image reads back as a standard track
  - `smartport.rs`: the hard drive interface
  - `ui/`: the screens, the keyboard, the soft switch view, the disks list
  - `config_file.rs`, `rolling_times.rs`, `speaker.rs`, `debug.rs`
- `tests/` tests of the library
- `app/` the program around the library: settings file, disk files, the
  floating-point side of sound and speed
