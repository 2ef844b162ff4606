use vstd::prelude::*;
use crate::disk::bit_stream::byte_bits;
use crate::disk::disk::Disk;
use crate::disk::drive::Drive;
use crate::noise::noise_bit;

verus! {

/// The sequencer's program (the P6 ROM of the Disk II controller), indexed by
/// `state << 4 | Q7 << 3 | Q6 << 2 | QA << 1 | !pulse`.
pub const P6: [u8; 256] = [
    0x18, 0x18, 0x18, 0x18, 0x0A, 0x0A, 0x0A, 0x0A, 0x18, 0x18, 0x18, 0x18, 0x18, 0x18, 0x18, 0x18,
    0x2D, 0x2D, 0x38, 0x38, 0x0A, 0x0A, 0x0A, 0x0A, 0x28, 0x28, 0x28, 0x28, 0x28, 0x28, 0x28, 0x28,
    0xD8, 0x38, 0x08, 0x28, 0x0A, 0x0A, 0x0A, 0x0A, 0x39, 0x39, 0x3b, 0x3b, 0x39, 0x39, 0x3B, 0x3B,
    0xD8, 0x48, 0x48, 0x48, 0x0A, 0x0A, 0x0A, 0x0A, 0x48, 0x48, 0x48, 0x48, 0x48, 0x48, 0x48, 0x48,
    0xD8, 0x58, 0xD8, 0x58, 0x0A, 0x0A, 0x0A, 0x0A, 0x58, 0x58, 0x58, 0x58, 0x58, 0x58, 0x58, 0x58,
    0xD8, 0x68, 0xD8, 0x68, 0x0A, 0x0A, 0x0A, 0x0A, 0x68, 0x68, 0x68, 0x68, 0x68, 0x68, 0x68, 0x68,
    0xD8, 0x78, 0xD8, 0x78, 0x0A, 0x0A, 0x0A, 0x0A, 0x78, 0x78, 0x78, 0x78, 0x78, 0x78, 0x78, 0x78,
    0xD8, 0x88, 0xD8, 0x88, 0x0A, 0x0A, 0x0A, 0x0A, 0x08, 0x88, 0x08, 0x88, 0x08, 0x88, 0x08, 0x88,
    0xD8, 0x98, 0xD8, 0x98, 0x0A, 0x0A, 0x0A, 0x0A, 0x98, 0x98, 0x98, 0x98, 0x98, 0x98, 0x98, 0x98,
    0xD8, 0x29, 0xD8, 0xA8, 0x0A, 0x0A, 0x0A, 0x0A, 0xA8, 0xA8, 0xA8, 0xA8, 0xA8, 0xA8, 0xA8, 0xA8,
    0xCD, 0xBD, 0xD8, 0xB8, 0x0A, 0x0A, 0x0A, 0x0A, 0xB9, 0xB9, 0xBB, 0xBB, 0xB9, 0xB9, 0xBB, 0xBB,
    0xD9, 0x59, 0xD8, 0xC8, 0x0A, 0x0A, 0x0A, 0x0A, 0xC8, 0xC8, 0xC8, 0xC8, 0xC8, 0xC8, 0xC8, 0xC8,
    0xD9, 0xD9, 0xD8, 0xA0, 0x0A, 0x0A, 0x0A, 0x0A, 0xD8, 0xD8, 0xD8, 0xD8, 0xD8, 0xD8, 0xD8, 0xD8,
    0xD8, 0x08, 0xE8, 0xE8, 0x0A, 0x0A, 0x0A, 0x0A, 0xE8, 0xE8, 0xE8, 0xE8, 0xE8, 0xE8, 0xE8, 0xE8,
    0xFD, 0xFD, 0xF8, 0xF8, 0x0A, 0x0A, 0x0A, 0x0A, 0xF8, 0xF8, 0xF8, 0xF8, 0xF8, 0xF8, 0xF8, 0xF8,
    0xDD, 0x4D, 0xE0, 0xE0, 0x0A, 0x0A, 0x0A, 0x0A, 0x88, 0x08, 0x88, 0x08, 0x88, 0x08, 0x88, 0x08
];

/// The Disk II's logic state sequencer.
pub struct Lss {
    pub clock: u128,
    pub state: u8,
    pub zeros: u16,
    pub latch: u8,
}

/// Index in the sequencer's program of the next command.
pub open spec fn lss_index(pulse: u8, latch: u8, q6: bool, q7: bool, state: u8) -> u8 {
    ((if pulse == 0 { 1u8 } else { 0u8 }) | (if latch >= 0x80 { 2u8 } else { 0u8 }) | (if q6 {
        4u8
    } else {
        0u8
    }) | (if q7 { 8u8 } else { 0u8 }) | ((state << 4u8) as u8)) as u8
}

/// The data register after the sequencer runs `command`.
pub open spec fn lss_latch(command: u8, latch: u8) -> u8 {
    let op = command & 0xf;
    if op <= 7 {
        0  // clear
    } else if op == 9 {
        (latch << 1u8) as u8  // shift left, 0 in
    } else if op == 0xa || op == 0xe {
        ((latch >> 1u8) + 0x80) as u8  // shift right, write protect in
    } else if op == 0xd {
        ((latch << 1u8) | 1) as u8  // shift left, 1 in
    } else {
        latch  // no operation, or load
    }
}

impl Lss {
    /// The sequencer after one step on `pulse` with the switches `q6` and `q7`
    /// (`zeros` as given).
    pub open spec fn sequenced(self, pulse: u8, q6: bool, q7: bool, zeros: u16) -> Lss {
        let command = P6@[lss_index(pulse, self.latch, q6, q7, self.state) as int];
        Lss {
            clock: ((self.clock + 1) % 8) as u128,
            state: command >> 4u8,
            zeros,
            latch: lss_latch(command, self.latch),
        }
    }

    /// The sequencer after one step when the disk gave `bit` (if it was read
    /// at all) and the noise source gave `noise`.
    pub open spec fn stepped(self, q6: bool, q7: bool, read: bool, bit: u8, noise: u8) -> Lss {
        if !read {
            self.sequenced(0, q6, q7, self.zeros)
        } else if bit == 0 {
            let zeros = if self.zeros < 10 { (self.zeros + 1) as u16 } else { self.zeros };
            self.sequenced(if zeros > 2 { noise } else { 0 }, q6, q7, zeros)
        } else {
            self.sequenced(bit, q6, q7, 0)
        }
    }

    /// The sequencer's state is one of its 16 and its clock one of its 8 phases.
    pub open spec fn wf(self) -> bool {
        self.state < 16 && self.clock < 8
    }

    /// A bit is read from the disk on this step.
    pub open spec fn reads(self, q6: bool, q7: bool) -> bool {
        self.clock == 4 && !q7 && !q6
    }

    pub fn default() -> (r: Lss)
        ensures
            r.wf(),
            r.clock == 0 && r.state == 0 && r.zeros == 0 && r.latch == 0,
    {
        Lss { clock: 0, state: 0, zeros: 0, latch: 0 }
    }

    /// Clear the high bit of the data register and restart the sequencer.
    pub fn reset(&mut self)
        ensures
            old(self).wf() ==> final(self).wf(),
            final(self).latch == old(self).latch & 0x7f,
            final(self).state == 0,
            final(self).clock == old(self).clock,
            final(self).zeros == old(self).zeros,
    {
        self.latch = self.latch & 0x7F;
        self.state = 0;
    }

    /// Run one command of the sequencer's program on `pulse`.
    pub fn sequence(&mut self, pulse: u8, q6: bool, q7: bool)
        requires
            old(self).wf(),
        ensures
            *final(self) == old(self).sequenced(pulse, q6, q7, old(self).zeros),
            final(self).wf(),
    {
        let latch = self.latch;
        let qa = ((latch & 0x80) >> 7u8) != 0;
        assert((((latch & 0x80) >> 7u8) != 0) == (latch >= 0x80)) by (bit_vector);
        let idx: u8 = (if pulse == 0 { 1u8 } else { 0u8 }) | (if qa { 2u8 } else { 0u8 }) | (if q6 {
            4u8
        } else {
            0u8
        }) | (if q7 { 8u8 } else { 0u8 }) | (self.state << 4u8);
        let command = P6[idx as usize];
        let op = command & 0xf;
        if op <= 7 {
            self.latch = 0;
        } else if op == 9 {
            self.latch = self.latch << 1u8;
        } else if op == 0xa || op == 0xe {
            let l = self.latch;
            assert(l >> 1u8 < 0x80) by (bit_vector);
            self.latch = (l >> 1u8) + 0x80;
        } else if op == 0xd {
            self.latch = (self.latch << 1u8) | 1;
        }
        assert(command >> 4u8 < 16) by (bit_vector);
        self.state = command >> 4u8;
        self.clock = (self.clock + 1) % 8;
    }

    /// One step: every eighth step, with Q6 and Q7 off, a bit is read from the
    /// disk; after more than two 0 bits in a row the head reads noise instead.
    pub fn step(&mut self, q6: bool, q7: bool, phase_160: usize, disk: &mut Disk)
        requires
            old(self).wf(),
            old(self).reads(q6, q7) ==> old(disk).readable(phase_160 as int),
        ensures
            final(self).wf(),
            exists|bit: u8, noise: u8|
                {
                    let s = old(disk).streams().stream_at(phase_160 as int);
                    &&& noise <= 1
                    &&& (old(self).reads(q6, q7) && !s.random ==> bit == s.bits@[old(disk).bit_position as int])
                    &&& (old(self).reads(q6, q7) && s.random ==> bit <= 1)
                    &&& *final(self) == #[trigger] old(self).stepped(q6, q7, old(self).reads(q6, q7), bit, noise)
                },
            final(disk).image == old(disk).image,
            old(self).reads(q6, q7) ==> final(disk).bit_position == (old(disk).bit_position + 1) % (
            old(disk).streams().stream_at(phase_160 as int).bits@.len() as int),
            !old(self).reads(q6, q7) ==> final(disk).bit_position == old(disk).bit_position,
    {
        let ghost reads = self.reads(q6, q7);
        if self.clock == 4 && !q7 && !q6 {
            let bit = disk.next_bit(phase_160);
            if bit == 0 {
                if self.zeros < 10 {
                    self.zeros += 1;
                }
                let mut noise: u8 = 0;
                if self.zeros > 2 {
                    noise = noise_bit();
                }
                let ghost before = *old(self);
                self.sequence(if self.zeros > 2 { noise } else { 0 }, q6, q7);
                assert(*self == before.stepped(q6, q7, reads, bit, noise));
            } else {
                self.zeros = 0;
                self.sequence(bit, q6, q7);
                assert(*self == old(self).stepped(q6, q7, reads, bit, 0));
            }
        } else {
            self.sequence(0, q6, q7);
            assert(*self == old(self).stepped(q6, q7, reads, 0, 0));
        }
    }

    /// Pulse the sequencer: it steps only when a disk is in the drive and the
    /// motor is on.
    pub fn on_pulse(&mut self, q6: bool, q7: bool, motor_on: bool, drive: &mut Drive)
        requires
            old(self).wf(),
            motor_on && old(self).reads(q6, q7) && old(drive).disk is Some ==> old(
                drive,
            ).disk->0.readable(old(drive).phase160 as int),
        ensures
            final(self).wf(),
            old(drive).disk is None || !motor_on ==> *final(self) == *old(self) && *final(drive)
                == *old(drive),
            final(drive).drive_number == old(drive).drive_number,
            final(drive).status == old(drive).status,
            final(drive).phase160 == old(drive).phase160,
            final(drive).disk is Some <==> old(drive).disk is Some,
            old(drive).disk is Some && motor_on ==> ({
                let d0 = old(drive).disk->0;
                let d1 = final(drive).disk->0;
                let s = d0.streams().stream_at(old(drive).phase160 as int);
                &&& d1.image == d0.image
                &&& (old(self).reads(q6, q7) ==> d1.bit_position == (d0.bit_position + 1) % (s.bits@.len() as int))
                &&& (!old(self).reads(q6, q7) ==> d1.bit_position == d0.bit_position)
                &&& exists|bit: u8, noise: u8|
                    {
                        &&& noise <= 1
                        &&& (old(self).reads(q6, q7) && !s.random ==> bit == s.bits@[d0.bit_position as int])
                        &&& (old(self).reads(q6, q7) && s.random ==> bit <= 1)
                        &&& *final(self) == #[trigger] old(self).stepped(q6, q7, old(self).reads(q6, q7), bit, noise)
                    }
            }),
    {
        let phase_160 = drive.get_phase_160();
        match &mut drive.disk {
            Some(d) => {
                if motor_on {
                    self.step(q6, q7, phase_160, d);
                }
            },
            None => {},
        }
    }
}


/// The bit-level facts that the laws of the sequencer rest on.
proof fn lemma_register_bits(l: u8, c: u8, v: u8, k: u8, a: u8, b: u8, e: u8, d: u8, st: u8, i: u8)
    by (bit_vector)
    ensures
        ((l << 1u8) | 1) as u8 / 2 == l % 128,
        ((l << 1u8) | 1) as u8 % 2 == 1,
        (l << 1u8) as u8 / 2 == l % 128,
        (l << 1u8) as u8 % 2 == 0,
        ((l >> 1u8) + 0x80) as u8 % 128 == l / 2,
        ((l >> 1u8) + 0x80) as u8 >= 128,
        c & 0xf == c % 16,
        c >> 4u8 == c / 16,
        k < 8 ==> ((v >> ((k + 1) as u8)) << 1u8) as u8 | ((v >> k) & 1) == v >> k,
        (v >> k) & 1 <= 1,
        (c / 2 == l && l < 0x80) ==> c == (l << 1u8) as u8 | (c % 2),
        k < 8 ==> v >> ((k + 1) as u8) < 0x80,
        v >> 8u8 == 0,
        v >> 0u8 == v,
        (a <= 1 && (b == 0 || b == 2) && (e == 0 || e == 4) && (d == 0 || d == 8) && st < 16 && i == (a | b | e | d
            | ((st << 4u8) as u8)) as u8) ==> (i % 2 == a && (i / 2) % 2 == b / 2 && (i / 4) % 2 == e / 4 && (i
            / 8) % 2 == d / 8 && i / 16 == st),
{
}

/// What each command of the sequencer does to the data register, for any
/// state, register and inputs; the low nibble of the command picks it:
/// - 0-7 clear the register;
/// - 9 (SL0) shifts it left, a 0 entering bit 0: bits 7-1 are the old bits
///   6-0 and bit 0 is 0;
/// - D (SL1) shifts it left, a 1 entering bit 0: bits 7-1 are the old bits
///   6-0 and bit 0 is 1;
/// - A and E (SR) shift it right, the write protect bit (set) entering bit 7;
/// - 8, B, C and F (no operation, load) leave it as it is.
/// The high nibble of the command is the next state.
pub proof fn lemma_sequencer_commands(s: Lss, pulse: u8, q6: bool, q7: bool)
    ensures
        ({
            let c = P6@[lss_index(pulse, s.latch, q6, q7, s.state) as int];
            let n = s.sequenced(pulse, q6, q7, s.zeros);
            &&& c % 16 <= 7 ==> n.latch == 0
            &&& c % 16 == 9 ==> n.latch / 2 == s.latch % 128 && n.latch % 2 == 0
            &&& c % 16 == 0xd ==> n.latch / 2 == s.latch % 128 && n.latch % 2 == 1
            &&& (c % 16 == 0xa || c % 16 == 0xe) ==> n.latch % 128 == s.latch / 2 && n.latch >= 128
            &&& (c % 16 == 8 || c % 16 == 0xb || c % 16 == 0xc || c % 16 == 0xf) ==> n.latch == s.latch
            &&& n.state == c / 16
        }),
{
    let c = P6@[lss_index(pulse, s.latch, q6, q7, s.state) as int];
    lemma_register_bits(s.latch, c, 0, 0, 0, 0, 0, 0, 0, 0);
}

/// Where the sequencer finds its next command in its program: bit 0 of the
/// index is set when the disk gives no pulse, bit 1 is the data register's
/// high bit (QA), bit 2 is Q6, bit 3 is Q7, and the high nibble is the state.
pub proof fn lemma_program_index(pulse: u8, latch: u8, q6: bool, q7: bool, state: u8)
    requires
        state < 16,
    ensures
        lss_index(pulse, latch, q6, q7, state) % 2 == (if pulse == 0 { 1u8 } else { 0u8 }),
        (lss_index(pulse, latch, q6, q7, state) / 2) % 2 == (if latch >= 0x80 { 1u8 } else { 0u8 }),
        (lss_index(pulse, latch, q6, q7, state) / 4) % 2 == (if q6 { 1u8 } else { 0u8 }),
        (lss_index(pulse, latch, q6, q7, state) / 8) % 2 == (if q7 { 1u8 } else { 0u8 }),
        lss_index(pulse, latch, q6, q7, state) / 16 == state,
        lss_index(pulse, latch, q6, q7, state) as int == (if pulse == 0 { 1int } else { 0 }) + (if latch >= 0x80 {
            2int
        } else {
            0
        }) + (if q6 { 4int } else { 0 }) + (if q7 { 8int } else { 0 }) + 16 * state,
{
    let a: u8 = if pulse == 0 { 1u8 } else { 0u8 };
    let b: u8 = if latch >= 0x80 { 2u8 } else { 0u8 };
    let e: u8 = if q6 { 4u8 } else { 0u8 };
    let d: u8 = if q7 { 8u8 } else { 0u8 };
    let i = lss_index(pulse, latch, q6, q7, state);
    lemma_register_bits(0, 0, 0, 0, a, b, e, d, state, i);
}

/// The sequencer after `k` of its steps in read mode (Q6 and Q7 off), the disk
/// giving `bit` at the step where a bit is read (clock 4) and no pulse at the
/// others.
pub open spec fn run_cell(s: Lss, bit: u8, k: nat) -> Lss
    decreases k,
{
    if k == 0 {
        s
    } else {
        let p = run_cell(s, bit, (k - 1) as nat);
        p.sequenced(if p.clock == 4 { bit } else { 0 }, false, false, p.zeros)
    }
}

/// The sequencer after the bit cells (8 steps each) of the first `k` of `bits`.
pub open spec fn run_bits(s: Lss, bits: Seq<u8>, k: nat) -> Lss
    decreases k,
{
    if k == 0 {
        s
    } else {
        run_cell(run_bits(s, bits, (k - 1) as nat), bits[k - 1], 8)
    }
}

proof fn lemma_step_at(p: Lss, pulse: u8)
    requires
        p.state < 16,
    ensures
        p.sequenced(pulse, false, false, p.zeros).clock == (p.clock + 1) % 8,
        p.sequenced(pulse, false, false, p.zeros).zeros == p.zeros,
        ({
            let c = P6@[(if pulse == 0 { 1int } else { 0 }) + (if p.latch >= 0x80 { 2int } else { 0 }) + 16 * p.state];
            let n = p.sequenced(pulse, false, false, p.zeros);
            &&& c % 16 == 8 ==> n.latch == p.latch
            &&& c % 16 == 9 ==> n.latch / 2 == p.latch % 128 && n.latch % 2 == 0
            &&& c % 16 == 0xd ==> n.latch / 2 == p.latch % 128 && n.latch % 2 == 1
            &&& n.state == c / 16
        }),
{
    lemma_program_index(pulse, p.latch, false, false, p.state);
    lemma_sequencer_commands(p, pulse, false, false);
}

/// One bit cell in read mode: from state 2 at the start of a cell (clock 0),
/// with the data register's high bit clear, the cell shifts the bit that the
/// disk gives into the register and ends in state 2 at clock 0.
proof fn lemma_bit_cell(s: Lss, bit: u8)
    requires
        s.state == 2,
        s.clock == 0,
        s.latch < 0x80,
        bit <= 1,
    ensures
        run_cell(s, bit, 8).state == 2,
        run_cell(s, bit, 8).clock == 0,
        run_cell(s, bit, 8).zeros == s.zeros,
        run_cell(s, bit, 8).latch / 2 == s.latch,
        run_cell(s, bit, 8).latch % 2 == bit,
{
    assert(run_cell(s, bit, 0) == s);
    let s1 = run_cell(s, bit, 1);
    assert(s1 == s.sequenced(0, false, false, s.zeros));
    lemma_step_at(s, 0);
    assert(s1.state == 3 && s1.latch == s.latch && s1.clock == 1);
    let s2 = run_cell(s, bit, 2);
    assert(s2 == s1.sequenced(0, false, false, s1.zeros));
    lemma_step_at(s1, 0);
    assert(s2.state == 4 && s2.latch == s.latch && s2.clock == 2);
    let s3 = run_cell(s, bit, 3);
    assert(s3 == s2.sequenced(0, false, false, s2.zeros));
    lemma_step_at(s2, 0);
    assert(s3.state == 5 && s3.latch == s.latch && s3.clock == 3);
    let s4 = run_cell(s, bit, 4);
    assert(s4 == s3.sequenced(0, false, false, s3.zeros));
    lemma_step_at(s3, 0);
    assert(s4.state == 6 && s4.latch == s.latch && s4.clock == 4);
    let s5 = run_cell(s, bit, 5);
    assert(s5 == s4.sequenced(bit, false, false, s4.zeros));
    lemma_step_at(s4, bit);
    let s6 = run_cell(s, bit, 6);
    assert(s6 == s5.sequenced(0, false, false, s5.zeros));
    lemma_step_at(s5, 0);
    let s7 = run_cell(s, bit, 7);
    assert(s7 == s6.sequenced(0, false, false, s6.zeros));
    lemma_step_at(s6, 0);
    let s8 = run_cell(s, bit, 8);
    assert(s8 == s7.sequenced(0, false, false, s7.zeros));
    lemma_step_at(s7, 0);
    if bit == 0 {
        assert(s5.state == 7 && s5.latch == s.latch);
        assert(s6.state == 8 && s6.latch == s.latch);
        assert(s7.state == 9 && s7.latch == s.latch);
        assert(s8.state == 2);
    } else {
        assert(s5.state == 13 && s5.latch == s.latch);
        assert(s6.state == 0 && s6.latch == s.latch);
        assert(s7.state == 1 && s7.latch == s.latch);
        assert(s8.state == 2);
    }
}

/// Reading a nibble: from state 2 at the start of a bit cell with the data
/// register clear, the sequencer in read mode, fed the eight bits of a disk
/// byte (most significant first, the first one set, as on a track), holds
/// that byte in its data register at the end of the eighth cell.
pub proof fn lemma_sequencer_reads_nibble(s: Lss, n: u8)
    requires
        s.state == 2,
        s.clock == 0,
        s.latch == 0,
        n >= 0x80,
    ensures
        run_bits(s, byte_bits(n), 8).latch == n,
        run_bits(s, byte_bits(n), 8).state == 2,
        run_bits(s, byte_bits(n), 8).clock == 0,
{
    lemma_bits_prefix(s, n, 8);
    lemma_register_bits(0, 0, n, 0, 0, 0, 0, 0, 0, 0);
}

proof fn lemma_bits_prefix(s: Lss, n: u8, k: nat)
    requires
        s.state == 2,
        s.clock == 0,
        s.latch == 0,
        k <= 8,
    ensures
        run_bits(s, byte_bits(n), k).state == 2,
        run_bits(s, byte_bits(n), k).clock == 0,
        run_bits(s, byte_bits(n), k).latch == n >> ((8 - k) as u8),
    decreases k,
{
    if k == 0 {
        lemma_register_bits(0, 0, n, 0, 0, 0, 0, 0, 0, 0);
    } else {
        lemma_bits_prefix(s, n, (k - 1) as nat);
        let p = run_bits(s, byte_bits(n), (k - 1) as nat);
        let j = (8 - k) as u8;
        lemma_register_bits(0, 0, n, j, 0, 0, 0, 0, 0, 0);
        assert(((8 - (k - 1)) as u8) == ((j + 1) as u8));
        let bit = byte_bits(n)[k - 1];
        assert(bit == (n >> j) & 1);
        assert(bit <= 1) by {
            lemma_register_bits(0, 0, n, j, 0, 0, 0, 0, 0, 0);
        }
        lemma_bit_cell(p, bit);
        let r = run_bits(s, byte_bits(n), k);
        let hi = n >> ((j + 1) as u8);
        assert(r.latch / 2 == hi && r.latch % 2 == bit);
        assert(r == run_cell(p, bit, 8));
        lemma_register_bits(hi, r.latch, n, j, 0, 0, 0, 0, 0, 0);
    }
}

} // verus!
