//! Multi-tier debounce schedule.
//!
//! Each watched repository has one worker draining its event channel.
//! The worker turns bursts of filesystem events into save invocations:
//! it waits for quiet, then fires the configuration tiers in order of
//! their delays. The worker's decisions are a pure step machine here;
//! the thread around it only blocks on the channel with the timeout
//! this module computes and performs the saves this module orders.

use vstd::prelude::*;
use crate::config::Config;

verus! {

/// Where the worker stands in the schedule.
pub enum WorkerState {
    /// No event has arrived since the schedule last ran out.
    Idle,
    /// Waiting out tier `i`'s quiet time.
    Armed(usize),
}

/// What the worker just observed on its channel.
pub enum WorkerInput {
    /// A filesystem event arrived.
    Changed,
    /// The wait elapsed with no event.
    TimedOut,
    /// The sending side is gone.
    Closed,
}

/// What the worker must do next.
pub enum WorkerStep {
    /// Keep waiting.
    Wait,
    /// Run a save with the configuration of the given tier, then keep
    /// waiting.
    Fire(usize),
    /// Terminate.
    Stop,
}

/// The worker's transition function. An event arms tier 0 from idle and
/// restarts the wait of an armed tier; a timeout fires the armed tier
/// and advances to the next one, back to idle after the last; a closed
/// channel stops the worker.
pub open spec fn spec_step(s: WorkerState, inp: WorkerInput, tiers: nat) -> (WorkerState, WorkerStep) {
    match inp {
        WorkerInput::Closed => (s, WorkerStep::Stop),
        WorkerInput::Changed => match s {
            WorkerState::Idle => (WorkerState::Armed(0), WorkerStep::Wait),
            WorkerState::Armed(i) => (WorkerState::Armed(i), WorkerStep::Wait),
        },
        WorkerInput::TimedOut => match s {
            WorkerState::Idle => (WorkerState::Idle, WorkerStep::Wait),
            WorkerState::Armed(i) => if i + 1 < tiers {
                (WorkerState::Armed((i + 1) as usize), WorkerStep::Fire(i))
            } else {
                (WorkerState::Idle, WorkerStep::Fire(i))
            },
        },
    }
}

/// Take one worker step. `tiers` is the number of configurations
/// attached to the watched path.
pub fn debounce_step(s: &WorkerState, inp: &WorkerInput, tiers: usize) -> (r: (
    WorkerState,
    WorkerStep,
))
    requires
        tiers >= 1,
        s matches WorkerState::Armed(i) ==> i < tiers,
    ensures
        r == spec_step(*s, *inp, tiers as nat),
        r.0 matches WorkerState::Armed(i) ==> i < tiers,
{
    match inp {
        WorkerInput::Closed => (
            match s {
                WorkerState::Idle => WorkerState::Idle,
                WorkerState::Armed(i) => WorkerState::Armed(*i),
            },
            WorkerStep::Stop,
        ),
        WorkerInput::Changed => match s {
            WorkerState::Idle => (WorkerState::Armed(0), WorkerStep::Wait),
            WorkerState::Armed(i) => (WorkerState::Armed(*i), WorkerStep::Wait),
        },
        WorkerInput::TimedOut => match s {
            WorkerState::Idle => (WorkerState::Idle, WorkerStep::Wait),
            WorkerState::Armed(i) => if *i + 1 < tiers {
                (WorkerState::Armed(*i + 1), WorkerStep::Fire(*i))
            } else {
                (WorkerState::Idle, WorkerStep::Fire(*i))
            },
        },
    }
}

/// The delays of the configurations are strictly increasing, so each
/// tier fires later than the one before it.
pub open spec fn delays_ascending(cfgs: Seq<Config>) -> bool {
    forall|k: int| 0 < k < cfgs.len() ==> #[trigger] cfgs[k].delay > cfgs[k - 1].delay
}

/// How long tier `i` waits after the tier before it fired: the
/// difference between consecutive configured delays.
pub open spec fn spec_relative_delay(cfgs: Seq<Config>, i: int) -> int {
    if i == 0 {
        cfgs[0].delay as int
    } else {
        cfgs[i].delay - cfgs[i - 1].delay
    }
}

/// The cumulative wait from the last event through tier `i`'s timeout.
pub open spec fn relative_delay_sum(cfgs: Seq<Config>, i: int) -> int
    decreases i + 1,
{
    if i < 0 {
        0
    } else {
        relative_delay_sum(cfgs, i - 1) + spec_relative_delay(cfgs, i)
    }
}

/// The wait before tier `i` fires, counted from the firing of the tier
/// before it (from the last event, for tier 0).
pub fn relative_delay(cfgs: &Vec<Config>, i: usize) -> (r: u64)
    requires
        i < cfgs@.len(),
        delays_ascending(cfgs@),
    ensures
        r == spec_relative_delay(cfgs@, i as int),
{
    if i == 0 {
        cfgs[0].delay
    } else {
        cfgs[i].delay - cfgs[i - 1].delay
    }
}

/// Tier `i` fires exactly at cumulative time `cfgs[i].delay` after the
/// last event: the relative waits telescope to the configured delay.
pub proof fn lemma_tier_fires_at_configured_delay(cfgs: Seq<Config>, i: int)
    requires
        0 <= i < cfgs.len(),
        delays_ascending(cfgs),
    ensures
        relative_delay_sum(cfgs, i) == cfgs[i].delay,
    decreases i,
{
    if i > 0 {
        lemma_tier_fires_at_configured_delay(cfgs, i - 1);
    } else {
        assert(relative_delay_sum(cfgs, -1) == 0);
    }
}

/// The state after the worker has consumed `inputs` from `s0`.
pub open spec fn state_after(s0: WorkerState, inputs: Seq<WorkerInput>, tiers: nat) -> WorkerState
    decreases inputs.len(),
{
    if inputs.len() == 0 {
        s0
    } else {
        spec_step(state_after(s0, inputs.drop_last(), tiers), inputs.last(), tiers).0
    }
}

/// The tiers fired, in order, while the worker consumed `inputs` from
/// `s0`.
pub open spec fn fires(s0: WorkerState, inputs: Seq<WorkerInput>, tiers: nat) -> Seq<usize>
    decreases inputs.len(),
{
    if inputs.len() == 0 {
        Seq::empty()
    } else {
        fires(s0, inputs.drop_last(), tiers) + (match spec_step(
            state_after(s0, inputs.drop_last(), tiers),
            inputs.last(),
            tiers,
        ).1 {
            WorkerStep::Fire(i) => seq![i],
            _ => Seq::<usize>::empty(),
        })
    }
}

/// An empty run changes nothing and fires nothing.
pub proof fn lemma_run_empty(s0: WorkerState, tiers: nat)
    ensures
        state_after(s0, Seq::<WorkerInput>::empty(), tiers) == s0,
        fires(s0, Seq::<WorkerInput>::empty(), tiers) == Seq::<usize>::empty(),
{
}

/// One more input extends the run by one step.
pub proof fn lemma_run_snoc(s0: WorkerState, inputs: Seq<WorkerInput>, x: WorkerInput, tiers: nat)
    ensures
        state_after(s0, inputs.push(x), tiers) == spec_step(
            state_after(s0, inputs, tiers),
            x,
            tiers,
        ).0,
        fires(s0, inputs.push(x), tiers) == fires(s0, inputs, tiers) + (match spec_step(
            state_after(s0, inputs, tiers),
            x,
            tiers,
        ).1 {
            WorkerStep::Fire(i) => seq![i],
            _ => Seq::<usize>::empty(),
        }),
{
    assert(inputs.push(x).drop_last() =~= inputs);
    assert(inputs.push(x).last() == x);
}

/// Runs compose: consuming `a + b` is consuming `a`, then `b` from
/// where `a` left off.
pub proof fn lemma_run_append(s0: WorkerState, a: Seq<WorkerInput>, b: Seq<WorkerInput>, tiers: nat)
    ensures
        state_after(s0, a + b, tiers) == state_after(state_after(s0, a, tiers), b, tiers),
        fires(s0, a + b, tiers) == fires(s0, a, tiers) + fires(state_after(s0, a, tiers), b, tiers),
    decreases b.len(),
{
    if b.len() == 0 {
        assert(a + b =~= a);
        assert(fires(s0, a, tiers) + fires(state_after(s0, a, tiers), b, tiers) =~= fires(
            s0,
            a,
            tiers,
        ));
    } else {
        lemma_run_append(s0, a, b.drop_last(), tiers);
        assert((a + b).drop_last() =~= a + b.drop_last());
        assert((a + b).last() == b.last());
        assert(fires(s0, a, tiers) + fires(state_after(s0, a, tiers), b, tiers) =~= fires(
            s0,
            a + b,
            tiers,
        ));
    }
}

/// A burst of events only arms tier 0 and fires nothing.
pub proof fn lemma_burst_arms(n: nat, tiers: nat)
    requires
        n >= 1,
    ensures
        state_after(WorkerState::Idle, Seq::new(n, |k: int| WorkerInput::Changed), tiers)
            == WorkerState::Armed(0),
        fires(WorkerState::Idle, Seq::new(n, |k: int| WorkerInput::Changed), tiers)
            == Seq::<usize>::empty(),
    decreases n,
{
    let inputs = Seq::new(n, |k: int| WorkerInput::Changed);
    if n == 1 {
        lemma_run_empty(WorkerState::Idle, tiers);
        lemma_run_snoc(WorkerState::Idle, Seq::empty(), WorkerInput::Changed, tiers);
        assert(inputs =~= Seq::<WorkerInput>::empty().push(WorkerInput::Changed));
        assert(fires(WorkerState::Idle, inputs, tiers) =~= Seq::<usize>::empty());
    } else {
        lemma_burst_arms((n - 1) as nat, tiers);
        let prev = Seq::new((n - 1) as nat, |k: int| WorkerInput::Changed);
        lemma_run_snoc(WorkerState::Idle, prev, WorkerInput::Changed, tiers);
        assert(inputs =~= prev.push(WorkerInput::Changed));
        assert(fires(WorkerState::Idle, inputs, tiers) =~= Seq::<usize>::empty());
    }
}

/// Debounce: however many events arrive in one burst, the first timeout
/// after the burst fires exactly one save, with tier 0's configuration;
/// the worker then stands at tier 1, or idle when there is no tier 1.
pub proof fn lemma_burst_then_quiet_fires_once(n: nat, tiers: nat)
    requires
        n >= 1,
        tiers >= 1,
    ensures
        fires(
            WorkerState::Idle,
            Seq::new(n, |k: int| WorkerInput::Changed).push(WorkerInput::TimedOut),
            tiers,
        ) == seq![0usize],
        state_after(
            WorkerState::Idle,
            Seq::new(n, |k: int| WorkerInput::Changed).push(WorkerInput::TimedOut),
            tiers,
        ) == if tiers > 1 {
            WorkerState::Armed(1)
        } else {
            WorkerState::Idle
        },
{
    let burst = Seq::new(n, |k: int| WorkerInput::Changed);
    lemma_burst_arms(n, tiers);
    lemma_run_snoc(WorkerState::Idle, burst, WorkerInput::TimedOut, tiers);
    assert(fires(WorkerState::Idle, burst.push(WorkerInput::TimedOut), tiers) =~= seq![0usize]);
}

/// The tiers from `j` on fire in order, one per quiet interval, and the
/// worker then goes idle; further timeouts in the idle state fire
/// nothing.
pub proof fn lemma_tiers_fire_in_order(j: usize, tiers: usize)
    requires
        j < tiers,
    ensures
        state_after(
            WorkerState::Armed(j),
            Seq::new((tiers - j) as nat, |k: int| WorkerInput::TimedOut),
            tiers as nat,
        ) == WorkerState::Idle,
        fires(
            WorkerState::Armed(j),
            Seq::new((tiers - j) as nat, |k: int| WorkerInput::TimedOut),
            tiers as nat,
        ) == Seq::new((tiers - j) as nat, |k: int| (j + k) as usize),
    decreases tiers - j,
{
    let m = (tiers - j) as nat;
    let inputs = Seq::new(m, |k: int| WorkerInput::TimedOut);
    let first = seq![WorkerInput::TimedOut];
    lemma_run_empty(WorkerState::Armed(j), tiers as nat);
    lemma_run_snoc(WorkerState::Armed(j), Seq::empty(), WorkerInput::TimedOut, tiers as nat);
    assert(first =~= Seq::<WorkerInput>::empty().push(WorkerInput::TimedOut));
    if j + 1 == tiers {
        assert(inputs =~= first);
        assert(fires(WorkerState::Armed(j), inputs, tiers as nat) =~= Seq::new(
            m,
            |k: int| (j + k) as usize,
        ));
    } else {
        lemma_tiers_fire_in_order((j + 1) as usize, tiers);
        let rest = Seq::new((tiers - j - 1) as nat, |k: int| WorkerInput::TimedOut);
        assert(inputs =~= first + rest);
        lemma_run_append(WorkerState::Armed(j), first, rest, tiers as nat);
        assert(state_after(WorkerState::Armed(j), first, tiers as nat) == WorkerState::Armed(
            (j + 1) as usize,
        ));
        assert(fires(WorkerState::Armed(j), first, tiers as nat) =~= seq![j]);
        assert(Seq::new((tiers - j - 1) as nat, |k: int| ((j + 1) + k) as usize) =~= Seq::new(
            m,
            |k: int| (j + k) as usize,
        ).drop_first());
        assert(fires(WorkerState::Armed(j), inputs, tiers as nat) =~= Seq::new(
            m,
            |k: int| (j + k) as usize,
        ));
    }
}

/// One edit followed by unbroken quiet runs the whole schedule: every
/// tier fires exactly once, in delay order, and the worker ends idle.
pub proof fn lemma_edit_then_full_quiet(tiers: usize)
    requires
        tiers >= 1,
    ensures
        fires(
            WorkerState::Idle,
            seq![WorkerInput::Changed] + Seq::new(tiers as nat, |k: int| WorkerInput::TimedOut),
            tiers as nat,
        ) == Seq::new(tiers as nat, |k: int| k as usize),
        state_after(
            WorkerState::Idle,
            seq![WorkerInput::Changed] + Seq::new(tiers as nat, |k: int| WorkerInput::TimedOut),
            tiers as nat,
        ) == WorkerState::Idle,
{
    let a = seq![WorkerInput::Changed];
    let b = Seq::new(tiers as nat, |k: int| WorkerInput::TimedOut);
    lemma_burst_arms(1, tiers as nat);
    assert(a =~= Seq::new(1nat, |k: int| WorkerInput::Changed));
    lemma_tiers_fire_in_order(0, tiers);
    lemma_run_append(WorkerState::Idle, a, b, tiers as nat);
    assert(Seq::new((tiers - 0) as nat, |k: int| (0 + k) as usize) =~= Seq::new(
        tiers as nat,
        |k: int| k as usize,
    ));
    assert(fires(WorkerState::Idle, a + b, tiers as nat) =~= Seq::new(
        tiers as nat,
        |k: int| k as usize,
    ));
}

/// Once idle, timeouts alone never fire a save: a new event is needed.
pub proof fn lemma_idle_timeouts_fire_nothing(m: nat, tiers: nat)
    ensures
        state_after(WorkerState::Idle, Seq::new(m, |k: int| WorkerInput::TimedOut), tiers)
            == WorkerState::Idle,
        fires(WorkerState::Idle, Seq::new(m, |k: int| WorkerInput::TimedOut), tiers)
            == Seq::<usize>::empty(),
    decreases m,
{
    let inputs = Seq::new(m, |k: int| WorkerInput::TimedOut);
    if m == 0 {
        assert(inputs =~= Seq::<WorkerInput>::empty());
    } else {
        lemma_idle_timeouts_fire_nothing((m - 1) as nat, tiers);
        let prev = Seq::new((m - 1) as nat, |k: int| WorkerInput::TimedOut);
        lemma_run_snoc(WorkerState::Idle, prev, WorkerInput::TimedOut, tiers);
        assert(inputs =~= prev.push(WorkerInput::TimedOut));
        assert(fires(WorkerState::Idle, inputs, tiers) =~= Seq::<usize>::empty());
    }
}

} // verus!
