use vstd::prelude::*;

verus! {

/// How far apart (in cycles) two clicks of the speaker can be before the
/// sound is taken to start anew.
pub const SILENCE_CYCLES: u64 = 250_000;

/// Turns the cycles at which the speaker was clicked into sound: between two
/// clicks the speaker holds one level, and each click moves it to the other.
pub struct Samples {
    last_cycle: u64,
    speaker_on: bool,
}

/// Where the first interval of a batch is measured from: the last click seen,
/// unless there was none or it is more than `SILENCE_CYCLES` before `first`.
pub open spec fn interval_origin(last_cycle: u64, first: u64) -> u64 {
    if last_cycle == 0 || first - last_cycle > SILENCE_CYCLES {
        first
    } else {
        last_cycle
    }
}

impl Samples {
    pub closed spec fn last_click(&self) -> u64 {
        self.last_cycle
    }

    pub closed spec fn is_on(&self) -> bool {
        self.speaker_on
    }

    /// The cycle of the last click seen (0: none yet).
    pub fn last_cycle(&self) -> (r: u64)
        ensures
            r == self.last_click(),
    {
        self.last_cycle
    }

    pub fn default() -> (r: Samples)
        ensures
            r.last_click() == 0,
            !r.is_on(),
    {
        Samples { last_cycle: 0, speaker_on: false }
    }

    /// The intervals (in cycles) between the clicks at `cycles`, each with
    /// the level the speaker holds during it (`true`: on). The first is
    /// measured from `interval_origin`; the level changes at every interval.
    pub fn cycles_to_intervals(&mut self, cycles: &Vec<u64>) -> (r: Vec<(u64, bool)>)
        requires
            cycles@.len() > 0,
            old(self).last_click() == 0 || cycles@[0] >= old(self).last_click(),
            forall|i: int, j: int| 0 <= i <= j < cycles@.len() ==> cycles@[i] <= cycles@[j],
        ensures
            r@.len() == cycles@.len(),
            r@[0].0 == cycles@[0] - interval_origin(old(self).last_click(), cycles@[0]),
            forall|k: int| 0 < k < r@.len() ==> #[trigger] r@[k].0 == cycles@[k] - cycles@[k - 1],
            forall|k: int| 0 <= k < r@.len() ==> #[trigger] r@[k].1 == (old(self).is_on() != (k % 2 == 1)),
            final(self).last_click() == cycles@.last(),
            final(self).is_on() == (old(self).is_on() != (cycles@.len() % 2 == 1)),
    {
        if self.last_cycle == 0 || cycles[0] - self.last_cycle > SILENCE_CYCLES {
            self.last_cycle = cycles[0];
        }
        let mut result: Vec<(u64, bool)> = Vec::new();
        result.push((cycles[0] - self.last_cycle, self.speaker_on));
        let ghost on0 = old(self).speaker_on;
        self.speaker_on = !self.speaker_on;
        let mut i: usize = 1;
        while i < cycles.len()
            invariant
                1 <= i <= cycles@.len(),
                forall|a: int, b: int| 0 <= a <= b < cycles@.len() ==> cycles@[a] <= cycles@[b],
                result@.len() == i,
                result@[0].0 == cycles@[0] - interval_origin(old(self).last_click(), cycles@[0]),
                forall|k: int| 0 < k < i ==> #[trigger] result@[k].0 == cycles@[k] - cycles@[k - 1],
                forall|k: int| 0 <= k < i ==> #[trigger] result@[k].1 == (on0 != (k % 2 == 1)),
                self.speaker_on == (on0 != (i % 2 == 1)),
            decreases cycles@.len() - i,
        {
            result.push((cycles[i] - cycles[i - 1], self.speaker_on));
            self.speaker_on = !self.speaker_on;
            i += 1;
        }
        self.last_cycle = cycles[cycles.len() - 1];
        result
    }
}

/// The speaker: what it plays comes from the sound samples that the
/// emulator queues.
pub struct Speaker {}

impl Speaker {
    pub fn new() -> (r: Speaker) {
        Speaker {}
    }
}

} // verus!
