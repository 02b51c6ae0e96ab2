//! The counters that a simulation keeps from one time step to the next.

use vstd::prelude::*;

verus! {

/// Steps taken, data dumps written and wall time spent so far.
#[derive(Clone, Copy, Debug, PartialEq, Eq, Structural)]
pub struct StepCounters {
    /// Number of data dumps written (the index of the latest dump).
    pub current_dumps: u32,
    /// Number of time steps taken.
    pub n_steps: u64,
    /// Wall time spent in time steps, in milliseconds.
    pub sim_wall_time: u128,
}

impl StepCounters {
    /// The counters of a simulation that has not taken a step.
    pub fn new() -> (c: StepCounters)
        ensures
            c.current_dumps == 0,
            c.n_steps == 0,
            c.sim_wall_time == 0,
    {
        StepCounters { current_dumps: 0, n_steps: 0, sim_wall_time: 0 }
    }

    /// Whether no step has been taken yet, so that the Fourier-space field
    /// still has to be computed from the spatial one.
    pub fn is_first_step(&self) -> (b: bool)
        ensures
            b == (self.n_steps == 0),
    {
        self.n_steps == 0
    }

    /// The index of the next data dump.
    pub fn next_dump_index(&self) -> (i: u32)
        requires
            self.current_dumps < u32::MAX,
        ensures
            i == self.current_dumps + 1,
    {
        self.current_dumps + 1
    }

    /// Records a completed time step that took `elapsed_millis` of wall time
    /// and, where `dump` holds, ended at a data dump. Returns the index of the
    /// dump to write, if any.
    pub fn complete_step(&mut self, dump: bool, elapsed_millis: u128) -> (index: Option<u32>)
        requires
            old(self).n_steps < u64::MAX,
            dump ==> old(self).current_dumps < u32::MAX,
            old(self).sim_wall_time + elapsed_millis <= u128::MAX,
        ensures
            final(self).n_steps == old(self).n_steps + 1,
            final(self).current_dumps == old(self).current_dumps + (if dump { 1int } else { 0int }),
            final(self).sim_wall_time == old(self).sim_wall_time + elapsed_millis,
            index == (if dump { Some(final(self).current_dumps) } else { None::<u32> }),
            old(self).current_dumps <= old(self).n_steps ==> final(self).current_dumps
                <= final(self).n_steps,
            counters_after(old(self).current_dumps as int, old(self).n_steps as int, seq![dump])
                == (final(self).current_dumps as int, final(self).n_steps as int),
    {
        proof {
            assert(seq![dump].drop_last() =~= Seq::<bool>::empty());
            assert(seq![dump].last() == dump);
            assert(counters_after(self.current_dumps as int, self.n_steps as int, Seq::<bool>::empty())
                == (self.current_dumps as int, self.n_steps as int));
        }
        let mut index: Option<u32> = None;
        if dump {
            self.current_dumps = self.current_dumps + 1;
            index = Some(self.current_dumps);
        }
        self.sim_wall_time = self.sim_wall_time + elapsed_millis;
        self.n_steps = self.n_steps + 1;
        index
    }
}

/// The number of steps among `dumps` that end at a data dump.
pub open spec fn dump_count(dumps: Seq<bool>) -> int
    decreases dumps.len(),
{
    if dumps.len() == 0 {
        0
    } else {
        dump_count(dumps.drop_last()) + (if dumps.last() { 1int } else { 0int })
    }
}

/// The dump and step counters after steps whose dump flags are `dumps`, as
/// `complete_step` leaves them.
pub open spec fn counters_after(dumps_before: int, steps_before: int, dumps: Seq<bool>) -> (int, int)
    decreases dumps.len(),
{
    if dumps.len() == 0 {
        (dumps_before, steps_before)
    } else {
        let (d, s) = counters_after(dumps_before, steps_before, dumps.drop_last());
        (d + (if dumps.last() { 1int } else { 0int }), s + 1)
    }
}

/// Over any run of steps, the dump counter grows by the number of dumping
/// steps and the step counter by the number of steps; so, starting from
/// fresh counters, there are never more dumps than steps.
pub proof fn lemma_dumps_counted(dumps_before: int, steps_before: int, dumps: Seq<bool>)
    ensures
        counters_after(dumps_before, steps_before, dumps).0 == dumps_before + dump_count(dumps),
        counters_after(dumps_before, steps_before, dumps).1 == steps_before + dumps.len(),
        0 <= dump_count(dumps) <= dumps.len(),
    decreases dumps.len(),
{
    if dumps.len() > 0 {
        lemma_dumps_counted(dumps_before, steps_before, dumps.drop_last());
    }
}

} // verus!
