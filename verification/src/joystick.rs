use vstd::prelude::*;

verus! {

/// Cycles per unit of a paddle's value: a paddle at value `v` times out
/// `v * MULT` cycles after its timers were reset.
pub const MULT: u64 = 12;

/// The paddle timers of the game port.
pub struct Joystick {
    pub reset: bool,
    /// Cycle at which each of the four paddle timers was reset (0: not running).
    pub reset_cycles: [u64; 4],
}

/// What reading a paddle gives, and the new value of its reset cycle.
pub open spec fn paddle_read(reset_cycle: u64, current_cycle: u64, value: u8) -> (u8, u64) {
    if reset_cycle > 0 {
        if current_cycle > reset_cycle + 256 * MULT {
            (0, 0)
        } else if current_cycle > reset_cycle + value * MULT {
            (0, 0)
        } else {
            (0x80, reset_cycle)
        }
    } else {
        (0, reset_cycle)
    }
}

impl Joystick {
    pub fn default() -> (r: Joystick)
        ensures
            !r.reset,
            r.reset_cycles@ == seq![0u64, 0, 0, 0],
    {
        Joystick { reset: false, reset_cycles: [0, 0, 0, 0] }
    }

    /// Start the timers of the four paddles at `cycle`.
    pub fn reset_cycles(&mut self, cycle: u64)
        ensures
            final(self).reset_cycles@ == seq![cycle, cycle, cycle, cycle],
            final(self).reset == old(self).reset,
    {
        self.reset_cycles = [cycle, cycle, cycle, cycle];
    }

    /// Read paddle `paddle_index` at `current_cycle`, the paddle's position
    /// being `values[paddle_index]`: 0x80 while its timer runs, 0 once it has
    /// timed out (which stops it).
    pub fn get_value_for_paddle(&mut self, paddle_index: usize, current_cycle: u64, values: [u8; 4]) -> (r: u8)
        requires
            paddle_index < 4,
            old(self).reset_cycles@[paddle_index as int] + 256 * MULT <= u64::MAX,
        ensures
            ({
                let (v, c) = paddle_read(
                    old(self).reset_cycles@[paddle_index as int],
                    current_cycle,
                    values@[paddle_index as int],
                );
                &&& r == v
                &&& final(self).reset_cycles@ == old(self).reset_cycles@.update(paddle_index as int, c)
            }),
            final(self).reset == old(self).reset,
    {
        let start = self.reset_cycles[paddle_index];
        if start > 0 {
            if current_cycle > start + 256 * MULT {
                self.reset_cycles[paddle_index] = 0;
                0
            } else {
                let v = values[paddle_index];
                if current_cycle > start + v as u64 * MULT {
                    self.reset_cycles[paddle_index] = 0;
                    0
                } else {
                    0x80
                }
            }
        } else {
            0
        }
    }
}

} // verus!
