use vstd::prelude::*;
use crate::disk::disk_controller::{magnets_after, magnet_on, magnet_pull, quarter_magnets, stepper_target, DiskController};

verus! {

/// The magnets after one is turned on with all of them off, and which pull.
proof fn lemma_one_magnet(address: u16, dp: usize)
    by (bit_vector)
    requires
        address & 1 == 1,
        dp < 80,
    ensures
        magnet_on(magnets_after(0, address), (dp + 1) as usize) == ((((dp + 1) as usize) & 3) == ((address
            >> 1u16) & 3) as usize),
        magnet_on(magnets_after(0, address), (dp + 3) as usize) == ((((dp + 3) as usize) & 3) == ((address
            >> 1u16) & 3) as usize),
        !quarter_magnets(magnets_after(0, address)),
        (((dp + 1) as usize) & 3) != (((dp + 3) as usize) & 3),
{
}

/// The head steps in: with all the magnets off, turning on the magnet of the
/// next phase moves the head one half-track in (to the quarter-track twice
/// that), unless it is at the last half-track.
pub proof fn lemma_step_in(c0: DiskController, c1: DiskController, address: u16)
    requires
        c0.magnet_states == 0,
        c0.drive_phase_80 < 79,
        address & 1 == 1,
        ((address >> 1u16) & 3) as usize == ((c0.drive_phase_80 + 1) as usize) & 3,
        c1.stepped_by(c0, address),
    ensures
        c1.drive_phase_80 == c0.drive_phase_80 + 1,
        stepper_target(c1.magnet_states, c0.drive_phase_80).1 == 2 * (c0.drive_phase_80 + 1),
{
    let dp = c0.drive_phase_80;
    lemma_one_magnet(address, dp);
    let ms = magnets_after(0, address);
    assert(magnet_on(ms, (dp + 1) as usize));
    assert(!magnet_on(ms, (dp + 3) as usize));
    assert(magnet_pull(ms, dp) == 1);
    assert(!quarter_magnets(ms));
}

/// The head steps out: with all the magnets off, turning on the magnet of the
/// previous phase moves the head one half-track out, unless it is at the
/// first half-track.
pub proof fn lemma_step_out(c0: DiskController, c1: DiskController, address: u16)
    requires
        c0.magnet_states == 0,
        0 < c0.drive_phase_80 < 80,
        address & 1 == 1,
        ((address >> 1u16) & 3) as usize == ((c0.drive_phase_80 + 3) as usize) & 3,
        c1.stepped_by(c0, address),
    ensures
        c1.drive_phase_80 == c0.drive_phase_80 - 1,
        stepper_target(c1.magnet_states, c0.drive_phase_80).1 == 2 * (c0.drive_phase_80 - 1),
{
    let dp = c0.drive_phase_80;
    lemma_one_magnet(address, dp);
    let ms = magnets_after(0, address);
    assert(!magnet_on(ms, (dp + 1) as usize));
    assert(magnet_on(ms, (dp + 3) as usize));
    assert(magnet_pull(ms, dp) == -1);
    assert(!quarter_magnets(ms));
}

} // verus!
