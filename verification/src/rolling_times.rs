use vstd::prelude::*;

verus! {

/// One run of the CPU: when it started and ended (in ms) and how many cycles
/// it executed.
#[derive(Clone, Copy)]
pub struct CpuRun {
    pub start: u128,
    pub end: u128,
    pub cycles: u128,
}

/// The most recent runs of the CPU (at most `MAX_RUNS`), oldest first, from
/// which the emulated speed is computed.
pub struct RollingTimes {
    times: Vec<CpuRun>,
}

/// How many runs are kept.
pub const MAX_RUNS: usize = 10;

/// The runs kept after `run` is added to `runs`: the oldest one leaves when
/// there are more than `MAX_RUNS`.
pub open spec fn runs_after_add(runs: Seq<CpuRun>, run: CpuRun) -> Seq<CpuRun> {
    let pushed = runs.push(run);
    if pushed.len() > MAX_RUNS {
        pushed.drop_first()
    } else {
        pushed
    }
}

/// The sum of the cycles of `runs`.
pub open spec fn total_cycles(runs: Seq<CpuRun>) -> int
    decreases runs.len(),
{
    if runs.len() == 0 {
        0
    } else {
        total_cycles(runs.drop_last()) + runs.last().cycles
    }
}

/// The earliest start of `runs` (0 when there is none).
pub open spec fn first_start(runs: Seq<CpuRun>) -> u128
    decreases runs.len(),
{
    if runs.len() == 0 {
        0
    } else if runs.len() == 1 || runs.last().start < first_start(runs.drop_last()) {
        runs.last().start
    } else {
        first_start(runs.drop_last())
    }
}

/// The latest end of `runs` (0 when there is none).
pub open spec fn last_end(runs: Seq<CpuRun>) -> u128
    decreases runs.len(),
{
    if runs.len() == 0 {
        0
    } else if runs.len() == 1 || runs.last().end > last_end(runs.drop_last()) {
        runs.last().end
    } else {
        last_end(runs.drop_last())
    }
}

impl RollingTimes {
    pub closed spec fn runs(&self) -> Seq<CpuRun> {
        self.times@
    }

    pub fn new() -> (r: RollingTimes)
        ensures
            r.runs() == Seq::<CpuRun>::empty(),
    {
        RollingTimes { times: Vec::new() }
    }

    /// Record a run; only the last `MAX_RUNS` are kept.
    pub fn add(&mut self, start: u128, end: u128, cycles: u128)
        ensures
            final(self).runs() == runs_after_add(old(self).runs(), CpuRun { start, end, cycles }),
            old(self).runs().len() <= MAX_RUNS ==> final(self).runs().len() <= MAX_RUNS,
            final(self).runs().last() == (CpuRun { start, end, cycles }),
    {
        self.times.push(CpuRun { start, end, cycles });
        if self.times.len() > MAX_RUNS {
            self.times.remove(0);
        }
    }

    /// The total of the cycles of the runs kept, with the earliest start and
    /// the latest end among them: the speed is the cycles over that span.
    /// `None` when the total does not fit in a `u128`.
    pub fn span(&self) -> (r: Option<(u128, u128, u128)>)
        ensures
            r is None <==> total_cycles(self.runs()) > u128::MAX,
            r matches Some((total, s, e)) ==> total == total_cycles(self.runs()) && s == first_start(
                self.runs(),
            ) && e == last_end(self.runs()),
    {
        let mut total: u128 = 0;
        let mut s: u128 = 0;
        let mut e: u128 = 0;
        let mut i: usize = 0;
        let mut overflow = false;
        let ghost runs = self.times@;
        while i < self.times.len()
            invariant
                runs == self.times@,
                i <= runs.len(),
                overflow ==> total_cycles(runs.take(i as int)) > u128::MAX,
                !overflow ==> total == total_cycles(runs.take(i as int)),
                s == first_start(runs.take(i as int)),
                e == last_end(runs.take(i as int)),
            decreases runs.len() - i,
        {
            let run = self.times[i];
            proof {
                assert(runs.take(i + 1).drop_last() =~= runs.take(i as int));
                lemma_total_cycles_monotone(runs.take(i as int), runs.take(i + 1));
            }
            if i == 0 || run.start < s {
                s = run.start;
            }
            if i == 0 || run.end > e {
                e = run.end;
            }
            if !overflow {
                match total.checked_add(run.cycles) {
                    Some(t) => total = t,
                    None => overflow = true,
                }
            }
            i += 1;
        }
        assert(runs.take(runs.len() as int) =~= runs);
        if overflow {
            None
        } else {
            Some((total, s, e))
        }
    }
}

proof fn lemma_total_cycles_monotone(a: Seq<CpuRun>, b: Seq<CpuRun>)
    requires
        a.len() <= b.len(),
        a == b.take(a.len() as int),
    ensures
        total_cycles(a) <= total_cycles(b),
    decreases b.len(),
{
    if a.len() < b.len() {
        assert(b.drop_last().take(a.len() as int) =~= a);
        lemma_total_cycles_monotone(a, b.drop_last());
    } else {
        assert(a =~= b);
    }
}

/// The runs kept after each of `added` is added, in order, to `runs`.
pub open spec fn runs_after_adds(runs: Seq<CpuRun>, added: Seq<CpuRun>) -> Seq<CpuRun>
    decreases added.len(),
{
    if added.len() == 0 {
        runs
    } else {
        runs_after_add(runs_after_adds(runs, added.drop_last()), added.last())
    }
}

/// The last `MAX_RUNS` runs of `runs` (all of them when there are fewer).
pub open spec fn last_runs(runs: Seq<CpuRun>) -> Seq<CpuRun> {
    if runs.len() > MAX_RUNS {
        runs.skip(runs.len() - MAX_RUNS)
    } else {
        runs
    }
}

/// Only the most recent runs count: after runs are added one by one, the runs
/// kept are the last `MAX_RUNS` of all those recorded, whatever came before
/// when at least `MAX_RUNS` were added.
pub proof fn lemma_only_last_runs_kept(runs: Seq<CpuRun>, added: Seq<CpuRun>)
    requires
        runs.len() <= MAX_RUNS,
    ensures
        runs_after_adds(runs, added) == last_runs(runs + added),
        added.len() >= MAX_RUNS ==> runs_after_adds(runs, added) == added.skip(added.len() - MAX_RUNS),
    decreases added.len(),
{
    if added.len() > 0 {
        let before = added.drop_last();
        lemma_only_last_runs_kept(runs, before);
        let all = runs + before;
        assert(runs + added =~= all.push(added.last()));
        let kept = last_runs(all);
        if all.len() >= MAX_RUNS {
            assert(kept.push(added.last()).drop_first() =~= all.push(added.last()).skip(
                all.push(added.last()).len() - MAX_RUNS,
            ));
        } else {
            assert(kept.push(added.last()) =~= all.push(added.last()));
        }
    }
    if added.len() >= MAX_RUNS {
        assert((runs + added).skip((runs + added).len() - MAX_RUNS) =~= added.skip(added.len() - MAX_RUNS));
    }
}

} // verus!
