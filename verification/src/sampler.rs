//! The sampler state machine: one warm-up measurement is discarded, then a
//! configured number of measurements are reported, and the sampler stops; a
//! transport failure stops it at once.

use vstd::prelude::*;

verus! {

/// The phase of a sampler. `Done` and `Failed` are terminal.
#[derive(Clone, Copy, Debug, PartialEq, Eq, Structural)]
pub enum Phase {
    Warming,
    Measuring,
    Done,
    Failed,
}

/// What one probe produced: an elapsed time in whole milliseconds, or a
/// transport-level failure (the probe never completed).
#[derive(Clone, Copy, Debug, PartialEq, Eq, Structural)]
pub enum MeasureOutcome {
    Elapsed(u64),
    TransportFailure,
}

/// What the driver must do after handing one outcome to the sampler.
#[derive(Clone, Copy, Debug, PartialEq, Eq, Structural)]
pub enum TickAction {
    Discard,
    Report(u64),
    Abort,
}

/// The sampler's whole state: how many measurements to report, the phase,
/// and how many have been reported so far.
#[derive(Clone, Copy, Debug, PartialEq, Eq, Structural)]
pub struct Sampler {
    pub interval_count: u32,
    pub phase: Phase,
    pub completed: u32,
}

/// The sampler a run starts from.
pub open spec fn initial(interval_count: u32) -> Sampler {
    Sampler { interval_count, phase: Phase::Warming, completed: 0 }
}

impl Sampler {
    /// Well-formedness: the count is positive, progress never passes it, and
    /// each phase pins the progress it is compatible with.
    pub open spec fn wf(self) -> bool {
        &&& 1 <= self.interval_count
        &&& self.completed <= self.interval_count
        &&& (self.phase is Warming ==> self.completed == 0)
        &&& (self.phase is Measuring ==> self.completed < self.interval_count)
        &&& (self.phase is Done ==> self.completed == self.interval_count)
    }

    /// A live sampler still consumes ticks.
    pub open spec fn live(self) -> bool {
        self.phase is Warming || self.phase is Measuring
    }

    pub fn new(interval_count: u32) -> (s: Sampler)
        requires
            1 <= interval_count,
        ensures
            s == initial(interval_count),
            s.wf(),
    {
        Sampler { interval_count, phase: Phase::Warming, completed: 0 }
    }

    pub fn is_live(&self) -> (r: bool)
        ensures
            r == self.live(),
    {
        match self.phase {
            Phase::Warming => true,
            Phase::Measuring => true,
            Phase::Done => false,
            Phase::Failed => false,
        }
    }

    /// Consume one tick's outcome and say what the driver must do with it.
    pub fn on_tick(&mut self, outcome: MeasureOutcome) -> (action: TickAction)
        requires
            old(self).wf(),
            old(self).live(),
        ensures
            final(self).wf(),
            ((*final(self), action) == spec_step(*old(self), outcome)),
    {
        match outcome {
            MeasureOutcome::TransportFailure => {
                self.phase = Phase::Failed;
                TickAction::Abort
            },
            MeasureOutcome::Elapsed(ms) => {
                match self.phase {
                    Phase::Warming => {
                        self.phase = Phase::Measuring;
                        TickAction::Discard
                    },
                    _ => {
                        self.completed = self.completed + 1;
                        if self.completed == self.interval_count {
                            self.phase = Phase::Done;
                        }
                        TickAction::Report(ms)
                    },
                }
            },
        }
    }
}

/// One transition of the sampler: the state after the tick and the action the
/// driver is told to take.
pub open spec fn spec_step(s: Sampler, outcome: MeasureOutcome) -> (Sampler, TickAction) {
    match outcome {
        MeasureOutcome::TransportFailure => (
            Sampler { phase: Phase::Failed, ..s },
            TickAction::Abort,
        ),
        MeasureOutcome::Elapsed(ms) => match s.phase {
            Phase::Warming => (Sampler { phase: Phase::Measuring, ..s }, TickAction::Discard),
            _ => (
                Sampler {
                    completed: (s.completed + 1) as u32,
                    phase: if s.completed + 1 == s.interval_count {
                        Phase::Done
                    } else {
                        Phase::Measuring
                    },
                    ..s
                },
                TickAction::Report(ms),
            ),
        },
    }
}

/// A whole run over a sequence of tick outcomes, starting from `s`: the
/// final sampler, the reported values in order, and how many ticks were
/// consumed. A tick is consumed only while the sampler is live.
pub open spec fn spec_run(s: Sampler, outcomes: Seq<MeasureOutcome>) -> (Sampler, Seq<u64>, nat)
    decreases outcomes.len(),
{
    if !s.live() || outcomes.len() == 0 {
        (s, Seq::<u64>::empty(), 0)
    } else {
        let (s1, action) = spec_step(s, outcomes[0]);
        let (sf, reports, consumed) = spec_run(s1, outcomes.skip(1));
        let mine = (match action {
            TickAction::Report(ms) => seq![ms],
            _ => Seq::<u64>::empty(),
        });
        (sf, mine + reports, consumed + 1)
    }
}

proof fn lemma_run_measuring_success(s: Sampler, outcomes: Seq<MeasureOutcome>)
    requires
        s.wf(),
        s.phase is Measuring,
        outcomes.len() >= s.interval_count - s.completed,
        forall|i: int| 0 <= i < s.interval_count - s.completed ==> outcomes[i] is Elapsed,
    ensures
        ({
            let m = s.interval_count - s.completed;
            let (sf, reports, consumed) = spec_run(s, outcomes);
            &&& sf.phase is Done
            &&& sf.interval_count == s.interval_count
            &&& sf.completed == s.interval_count
            &&& consumed == m
            &&& reports.len() == m
            &&& forall|j: int| 0 <= j < m ==> reports[j] == outcomes[j]->Elapsed_0
        }),
    decreases s.interval_count - s.completed,
{
    let m = s.interval_count - s.completed;
    let o0 = outcomes[0];
    assert(o0 is Elapsed);
    let (s1, action) = spec_step(s, o0);
    let (sf, reports, consumed) = spec_run(s, outcomes);
    let (sf1, reports1, consumed1) = spec_run(s1, outcomes.skip(1));
    assert(reports == seq![o0->Elapsed_0] + reports1);
    if s.completed + 1 == s.interval_count {
        assert(s1.phase is Done);
        assert(reports =~= seq![o0->Elapsed_0]);
    } else {
        assert(s1.wf());
        assert(s1.phase is Measuring);
        assert forall|i: int| 0 <= i < s1.interval_count - s1.completed implies outcomes.skip(
            1,
        )[i] is Elapsed by {
            assert(outcomes.skip(1)[i] == outcomes[i + 1]);
        }
        lemma_run_measuring_success(s1, outcomes.skip(1));
        assert forall|j: int| 0 <= j < m implies reports[j] == outcomes[j]->Elapsed_0 by {
            if j >= 1 {
                assert(reports[j] == reports1[j - 1]);
                assert(outcomes.skip(1)[j - 1] == outcomes[j]);
            }
        }
    }
}

/// Law: starting fresh with a positive `interval_count` and fed
/// `interval_count + 1` successful measurements, the sampler discards the
/// first one, reports every later one in order, and stops in `Done` after
/// consuming exactly `interval_count + 1` ticks — no fewer, no more.
pub proof fn lemma_warmup_then_exact_count(interval_count: u32, outcomes: Seq<MeasureOutcome>)
    requires
        1 <= interval_count,
        outcomes.len() >= interval_count + 1,
        forall|i: int| 0 <= i <= interval_count ==> outcomes[i] is Elapsed,
    ensures
        ({
            let (sf, reports, consumed) = spec_run(initial(interval_count), outcomes);
            &&& sf.phase is Done
            &&& sf.completed == interval_count
            &&& consumed == interval_count + 1
            &&& reports.len() == interval_count
            &&& forall|j: int| 0 <= j < interval_count ==> reports[j] == outcomes[j + 1]->Elapsed_0
        }),
{
    let s0 = initial(interval_count);
    let (s1, action0) = spec_step(s0, outcomes[0]);
    assert(action0 is Discard);
    assert(s1.phase is Measuring && s1.completed == 0);
    assert forall|i: int| 0 <= i < s1.interval_count - s1.completed implies outcomes.skip(
        1,
    )[i] is Elapsed by {
        assert(outcomes.skip(1)[i] == outcomes[i + 1]);
    }
    lemma_run_measuring_success(s1, outcomes.skip(1));
    let (sf, reports, consumed) = spec_run(s0, outcomes);
    let (sf1, reports1, consumed1) = spec_run(s1, outcomes.skip(1));
    assert(reports =~= reports1);
    assert forall|j: int| 0 <= j < interval_count implies reports[j] == outcomes[j
        + 1]->Elapsed_0 by {
        assert(outcomes.skip(1)[j] == outcomes[j + 1]);
    }
}

proof fn lemma_run_measuring_failure(s: Sampler, outcomes: Seq<MeasureOutcome>, f: int)
    requires
        s.wf(),
        s.phase is Measuring,
        0 <= f < outcomes.len(),
        f < s.interval_count - s.completed,
        outcomes[f] is TransportFailure,
        forall|i: int| 0 <= i < f ==> outcomes[i] is Elapsed,
    ensures
        ({
            let (sf, reports, consumed) = spec_run(s, outcomes);
            &&& sf.phase is Failed
            &&& consumed == f + 1
            &&& reports.len() == f
            &&& forall|j: int| 0 <= j < f ==> reports[j] == outcomes[j]->Elapsed_0
        }),
    decreases f,
{
    let o0 = outcomes[0];
    let (s1, action) = spec_step(s, o0);
    let (sf, reports, consumed) = spec_run(s, outcomes);
    let (sf1, reports1, consumed1) = spec_run(s1, outcomes.skip(1));
    if f == 0 {
        assert(s1.phase is Failed);
        assert(reports =~= Seq::<u64>::empty());
    } else {
        assert(o0 is Elapsed);
        assert(reports == seq![o0->Elapsed_0] + reports1);
        assert(s1.wf());
        assert(s1.phase is Measuring);
        assert(outcomes.skip(1)[f - 1] == outcomes[f]);
        assert forall|i: int| 0 <= i < f - 1 implies outcomes.skip(1)[i] is Elapsed by {
            assert(outcomes.skip(1)[i] == outcomes[i + 1]);
        }
        lemma_run_measuring_failure(s1, outcomes.skip(1), f - 1);
        assert forall|j: int| 0 <= j < f implies reports[j] == outcomes[j]->Elapsed_0 by {
            if j >= 1 {
                assert(reports[j] == reports1[j - 1]);
                assert(outcomes.skip(1)[j - 1] == outcomes[j]);
            }
        }
    }
}

/// Law: if the first transport failure comes on tick `f` (counting from the
/// warm-up tick as tick zero) and the run was not already complete, the run
/// stops there in `Failed`: it consumes exactly `f + 1` ticks and reports
/// exactly the measurements that preceded the failure — none after it, and
/// none at all when the warm-up itself fails.
pub proof fn lemma_transport_failure_is_fatal(
    interval_count: u32,
    outcomes: Seq<MeasureOutcome>,
    f: int,
)
    requires
        1 <= interval_count,
        0 <= f < outcomes.len(),
        f <= interval_count,
        outcomes[f] is TransportFailure,
        forall|i: int| 0 <= i < f ==> outcomes[i] is Elapsed,
    ensures
        ({
            let (sf, reports, consumed) = spec_run(initial(interval_count), outcomes);
            &&& sf.phase is Failed
            &&& consumed == f + 1
            &&& reports.len() == (if f == 0 {
                0int
            } else {
                f - 1
            })
            &&& forall|j: int| 0 <= j < f - 1 ==> reports[j] == outcomes[j + 1]->Elapsed_0
        }),
{
    let s0 = initial(interval_count);
    let (s1, action0) = spec_step(s0, outcomes[0]);
    let (sf, reports, consumed) = spec_run(s0, outcomes);
    let (sf1, reports1, consumed1) = spec_run(s1, outcomes.skip(1));
    if f == 0 {
        assert(s1.phase is Failed);
        assert(reports =~= Seq::<u64>::empty());
    } else {
        assert(outcomes[0] is Elapsed);
        assert(action0 is Discard);
        assert(s1.phase is Measuring && s1.completed == 0);
        assert(outcomes.skip(1)[f - 1] == outcomes[f]);
        assert forall|i: int| 0 <= i < f - 1 implies outcomes.skip(1)[i] is Elapsed by {
            assert(outcomes.skip(1)[i] == outcomes[i + 1]);
        }
        lemma_run_measuring_failure(s1, outcomes.skip(1), f - 1);
        assert(reports =~= reports1);
        assert forall|j: int| 0 <= j < f - 1 implies reports[j] == outcomes[j + 1]->Elapsed_0 by {
            assert(outcomes.skip(1)[j] == outcomes[j + 1]);
        }
    }
}

/// Drive a fresh sampler over the given outcomes, as the process's tick loop
/// would, and hand back the final sampler, the reported values in order, and
/// how many outcomes were consumed.
pub fn simulate(interval_count: u32, outcomes: &Vec<MeasureOutcome>) -> (r: (
    Sampler,
    Vec<u64>,
    usize,
))
    requires
        1 <= interval_count,
    ensures
        ({
            let (sf, reports, consumed) = spec_run(initial(interval_count), outcomes@);
            r.0 == sf && r.1@ == reports && r.2 == consumed
        }),
{
    let mut s = Sampler::new(interval_count);
    let mut reports: Vec<u64> = Vec::new();
    let mut i: usize = 0;
    proof {
        assert(outcomes@.skip(0) =~= outcomes@);
        assert(reports@ + spec_run(s, outcomes@).1 =~= spec_run(s, outcomes@).1);
    }
    while i < outcomes.len() && s.is_live()
        invariant
            0 <= i <= outcomes@.len(),
            s.wf(),
            spec_run(initial(interval_count), outcomes@).0 == spec_run(
                s,
                outcomes@.skip(i as int),
            ).0,
            spec_run(initial(interval_count), outcomes@).1 == reports@ + spec_run(
                s,
                outcomes@.skip(i as int),
            ).1,
            spec_run(initial(interval_count), outcomes@).2 == i + spec_run(
                s,
                outcomes@.skip(i as int),
            ).2,
        decreases outcomes@.len() - i,
    {
        let ghost s_before = s;
        let ghost rest = outcomes@.skip(i as int);
        let ghost reports_before = reports@;
        let action = s.on_tick(outcomes[i]);
        match action {
            TickAction::Report(ms) => reports.push(ms),
            _ => {},
        }
        proof {
            assert(rest[0] == outcomes@[i as int]);
            assert(rest.skip(1) =~= outcomes@.skip(i as int + 1));
            let (sf, reps, consumed) = spec_run(s, rest.skip(1));
            let mine = (match action {
                TickAction::Report(ms) => seq![ms],
                _ => Seq::<u64>::empty(),
            });
            assert(spec_run(s_before, rest) == (sf, mine + reps, consumed + 1));
            assert(reports@ =~= reports_before + mine);
            assert(reports_before + (mine + reps) =~= reports@ + reps);
        }
        i = i + 1;
    }
    proof {
        if i == outcomes@.len() {
            assert(outcomes@.skip(i as int) =~= Seq::<MeasureOutcome>::empty());
        }
        assert(spec_run(s, outcomes@.skip(i as int)) == (s, Seq::<u64>::empty(), 0nat));
    }
    (s, reports, i)
}

/// The elapsed whole milliseconds between two clock readings, never
/// negative: a reading pair out of order reads as zero elapsed time.
pub fn elapsed_millis(start_ms: i64, end_ms: i64) -> (r: u64)
    ensures
        end_ms >= start_ms ==> r == end_ms - start_ms,
        end_ms < start_ms ==> r == 0,
{
    if end_ms >= start_ms {
        let wide: i128 = end_ms as i128 - start_ms as i128;
        wide as u64
    } else {
        0
    }
}

} // verus!
