//! The decisions of one compiler run that extracts the functions of a
//! crate: when the run stops, where its input comes from, and when it fails.
//! Whoever drives the compiler performs each step and reports how it went.

use crate::args::InputRequest;
use vstd::prelude::*;

verus! {

/// What a callback of the driver answers: stop the run here, or go on.
pub enum Compilation {
    Stop,
    Continue,
}

/// The step a run has reached.
pub enum DriverStep {
    /// Parse the command line into options.
    ParseOptions,
    /// Ask the callbacks whether to go on once the options are known.
    EarlyCallback,
    /// Find the input from the free arguments.
    ResolveInput,
    /// Read the input from standard input.
    ReadStdin,
    /// No input was named: ask the callbacks for one.
    AskForInput,
    /// Build the compiler session; `input_failed` where reading the input
    /// failed.
    BuildSession { input_failed: bool },
    /// Ask the callbacks whether to go on once the session stands.
    LateCallback,
    /// Parse, expand and analyse the crate and extract its functions.
    Extract,
    /// The run stopped with no result.
    Stopped,
    /// The input could not be read: the error is reported and the run
    /// panics.
    InputFailed,
    /// Neither the arguments nor the callbacks named an input, which the run
    /// does not expect to happen: it panics.
    NoInput,
    /// The functions were extracted.
    Done,
}

/// How the step that was performed went.
pub enum DriverEvent {
    /// The command line was parsed (`true`) or was not (`false`).
    OptionsParsed(bool),
    /// A callback answered.
    Answered(Compilation),
    /// The free arguments named this input, or none.
    InputFound(Option<InputRequest>),
    /// Standard input was read (`true`) or could not be read (`false`).
    StdinRead(bool),
    /// The callbacks supplied an input (`true`) or did not (`false`).
    CallbacksInput(bool),
    /// The session was built.
    SessionBuilt,
    /// The functions were extracted.
    Extracted,
}

/// The run has come to an end and takes no further step.
pub open spec fn is_final(step: DriverStep) -> bool {
    ||| step is Stopped
    ||| step is InputFailed
    ||| step is NoInput
    ||| step is Done
}

/// The step that follows `step` when it went as `event` says. An event that
/// does not belong to the step leaves the step as it is.
pub open spec fn step_after(step: DriverStep, event: DriverEvent) -> DriverStep {
    match (step, event) {
        (DriverStep::ParseOptions, DriverEvent::OptionsParsed(parsed)) => {
            if parsed {
                DriverStep::EarlyCallback
            } else {
                DriverStep::Stopped
            }
        },
        (DriverStep::EarlyCallback, DriverEvent::Answered(c)) => match c {
            Compilation::Stop => DriverStep::Stopped,
            Compilation::Continue => DriverStep::ResolveInput,
        },
        (DriverStep::ResolveInput, DriverEvent::InputFound(found)) => match found {
            Some(InputRequest::ReadStdin) => DriverStep::ReadStdin,
            Some(InputRequest::Ready(_, _)) => DriverStep::BuildSession { input_failed: false },
            None => DriverStep::AskForInput,
        },
        (DriverStep::ReadStdin, DriverEvent::StdinRead(ok)) => DriverStep::BuildSession {
            input_failed: !ok,
        },
        (DriverStep::AskForInput, DriverEvent::CallbacksInput(supplied)) => {
            if supplied {
                DriverStep::BuildSession { input_failed: false }
            } else {
                DriverStep::NoInput
            }
        },
        (DriverStep::BuildSession { input_failed }, DriverEvent::SessionBuilt) => {
            if input_failed {
                DriverStep::InputFailed
            } else {
                DriverStep::LateCallback
            }
        },
        (DriverStep::LateCallback, DriverEvent::Answered(c)) => match c {
            Compilation::Stop => DriverStep::Stopped,
            Compilation::Continue => DriverStep::Extract,
        },
        (DriverStep::Extract, DriverEvent::Extracted) => DriverStep::Done,
        (step, _) => step,
    }
}

/// The step that follows `step` when it went as `event` says.
pub fn next_step(step: DriverStep, event: DriverEvent) -> (res: DriverStep)
    ensures
        res == step_after(step, event),
{
    match (step, event) {
        (DriverStep::ParseOptions, DriverEvent::OptionsParsed(parsed)) => {
            if parsed {
                DriverStep::EarlyCallback
            } else {
                DriverStep::Stopped
            }
        },
        (DriverStep::EarlyCallback, DriverEvent::Answered(c)) => match c {
            Compilation::Stop => DriverStep::Stopped,
            Compilation::Continue => DriverStep::ResolveInput,
        },
        (DriverStep::ResolveInput, DriverEvent::InputFound(found)) => match found {
            Some(InputRequest::ReadStdin) => DriverStep::ReadStdin,
            Some(InputRequest::Ready(_, _)) => DriverStep::BuildSession { input_failed: false },
            None => DriverStep::AskForInput,
        },
        (DriverStep::ReadStdin, DriverEvent::StdinRead(ok)) => DriverStep::BuildSession {
            input_failed: !ok,
        },
        (DriverStep::AskForInput, DriverEvent::CallbacksInput(supplied)) => {
            if supplied {
                DriverStep::BuildSession { input_failed: false }
            } else {
                DriverStep::NoInput
            }
        },
        (DriverStep::BuildSession { input_failed }, DriverEvent::SessionBuilt) => {
            if input_failed {
                DriverStep::InputFailed
            } else {
                DriverStep::LateCallback
            }
        },
        (DriverStep::LateCallback, DriverEvent::Answered(c)) => match c {
            Compilation::Stop => DriverStep::Stopped,
            Compilation::Continue => DriverStep::Extract,
        },
        (DriverStep::Extract, DriverEvent::Extracted) => DriverStep::Done,
        (step, _) => step,
    }
}

/// A run that has come to an end stays there, whatever is reported.
pub proof fn lemma_final_steps_stay(step: DriverStep, event: DriverEvent)
    requires
        is_final(step),
    ensures
        step_after(step, event) == step,
{
}

/// The step a run reaches from the start through the given events.
pub open spec fn run_to(events: Seq<DriverEvent>) -> DriverStep
    decreases events.len(),
{
    if events.len() == 0 {
        DriverStep::ParseOptions
    } else {
        step_after(run_to(events.drop_last()), events.last())
    }
}

/// After some of the events, counted from the first, the run stood at
/// `step`.
pub open spec fn reached(events: Seq<DriverEvent>, step: DriverStep) -> bool {
    exists|k: int| 0 <= k <= events.len() && #[trigger] run_to(events.take(k)) == step
}

/// A run extracts functions only after it passed the late callback, and it
/// passes the late callback only after the early one: no callback that
/// answered `Stop` is ever overruled.
pub proof fn lemma_extract_after_callbacks(events: Seq<DriverEvent>)
    requires
        run_to(events) is Extract || run_to(events) is Done,
    ensures
        reached(events, DriverStep::LateCallback),
        reached(events, DriverStep::EarlyCallback),
    decreases events.len(),
{
    assert(events.take(events.len() as int) == events);
    if events.len() > 0 {
        let prev = run_to(events.drop_last());
        if prev is Extract || prev is Done {
            lemma_extract_after_callbacks(events.drop_last());
            lemma_reached_prefix(events, DriverStep::LateCallback);
            lemma_reached_prefix(events, DriverStep::EarlyCallback);
        } else {
            assert(prev is LateCallback);
            assert(events.take(events.len() - 1) == events.drop_last());
            lemma_late_after_early(events.drop_last());
            lemma_reached_prefix(events, DriverStep::EarlyCallback);
        }
    }
}

/// What a prefix of the events reached, the events reached.
proof fn lemma_reached_prefix(events: Seq<DriverEvent>, step: DriverStep)
    requires
        events.len() > 0,
        reached(events.drop_last(), step),
    ensures
        reached(events, step),
{
    let k = choose|k: int| 0 <= k <= events.drop_last().len() && #[trigger] run_to(
        events.drop_last().take(k),
    ) == step;
    assert(events.drop_last().take(k) == events.take(k));
}

/// Every step past the early callback, other than stopping, comes after
/// the early callback was called.
pub proof fn lemma_late_after_early(events: Seq<DriverEvent>)
    requires
        !(run_to(events) is ParseOptions),
        !(run_to(events) is EarlyCallback),
        !(run_to(events) is Stopped),
    ensures
        reached(events, DriverStep::EarlyCallback),
    decreases events.len(),
{
    assert(events.take(events.len() as int) == events);
    if events.len() > 0 {
        let prev = run_to(events.drop_last());
        if prev is EarlyCallback {
            assert(events.take(events.len() - 1) == events.drop_last());
        } else {
            assert(!(prev is ParseOptions));
            assert(!(prev is Stopped));
            lemma_late_after_early(events.drop_last());
            lemma_reached_prefix(events, DriverStep::EarlyCallback);
        }
    }
}

/// How far a run has come: every step a run takes leads further.
pub open spec fn progress(step: DriverStep) -> nat {
    match step {
        DriverStep::ParseOptions => 0,
        DriverStep::EarlyCallback => 1,
        DriverStep::ResolveInput => 2,
        DriverStep::ReadStdin => 3,
        DriverStep::AskForInput => 3,
        DriverStep::BuildSession { .. } => 4,
        DriverStep::LateCallback => 5,
        DriverStep::Extract => 6,
        DriverStep::Stopped => 7,
        DriverStep::InputFailed => 7,
        DriverStep::NoInput => 7,
        DriverStep::Done => 7,
    }
}

/// A step either stays where it is or leads further.
proof fn lemma_step_progresses(step: DriverStep, event: DriverEvent)
    ensures
        progress(step_after(step, event)) >= progress(step),
        step_after(step, event) != step ==> progress(step_after(step, event)) > progress(step),
{
}

/// The run after `k + 1` events is one step on from the run after `k`.
proof fn lemma_run_step(events: Seq<DriverEvent>, k: int)
    requires
        0 <= k < events.len(),
    ensures
        run_to(events.take(k + 1)) == step_after(run_to(events.take(k)), events[k]),
{
    assert(events.take(k + 1).drop_last() == events.take(k));
    assert(events.take(k + 1).last() == events[k]);
}

/// A run never goes back; where it moved on between two points it is
/// further at the later one.
proof fn lemma_progress_grows(events: Seq<DriverEvent>, i: int, j: int)
    requires
        0 <= i <= j <= events.len(),
    ensures
        progress(run_to(events.take(j))) >= progress(run_to(events.take(i))),
        run_to(events.take(j)) != run_to(events.take(i)) ==> progress(run_to(events.take(j)))
            > progress(run_to(events.take(i))),
    decreases j - i,
{
    if i < j {
        lemma_progress_grows(events, i, j - 1);
        lemma_run_step(events, j - 1);
        lemma_step_progresses(run_to(events.take(j - 1)), events[j - 1]);
    }
}

/// A run that has left a step never comes back to it: each callback is
/// answered at most once, and each step is taken at most once, over a whole
/// run.
pub proof fn lemma_no_step_twice(events: Seq<DriverEvent>, i: int, j: int, k: int)
    requires
        0 <= i <= j <= k <= events.len(),
        run_to(events.take(j)) != run_to(events.take(i)),
    ensures
        run_to(events.take(k)) != run_to(events.take(i)),
{
    lemma_progress_grows(events, i, j);
    lemma_progress_grows(events, j, k);
}

/// No run both reads standard input and asks the callbacks for an input.
pub proof fn lemma_stdin_or_callbacks(events: Seq<DriverEvent>, i: int, j: int)
    requires
        0 <= i <= events.len(),
        0 <= j <= events.len(),
        run_to(events.take(i)) is ReadStdin,
    ensures
        !(run_to(events.take(j)) is AskForInput),
{
    if i <= j {
        lemma_progress_grows(events, i, j);
    } else {
        lemma_progress_grows(events, j, i);
    }
}

/// Steps are taken in the order of the run: a step further on was reached
/// later.
pub proof fn lemma_steps_in_order(events: Seq<DriverEvent>, i: int, j: int)
    requires
        0 <= i <= events.len(),
        0 <= j <= events.len(),
        progress(run_to(events.take(i))) < progress(run_to(events.take(j))),
    ensures
        i < j,
{
    if j <= i {
        lemma_progress_grows(events, j, i);
    }
}

/// The step is one that a run reaches only once it has its input.
pub open spec fn has_input(step: DriverStep) -> bool {
    ||| step is BuildSession
    ||| step is LateCallback
    ||| step is Extract
    ||| step is Done
    ||| step is InputFailed
}

/// After `m` events the run read its input from standard input.
pub open spec fn stdin_at(events: Seq<DriverEvent>, m: int) -> bool {
    0 <= m <= events.len() && run_to(events.take(m)) is ReadStdin
}

/// After `m` events the run asked the callbacks for its input.
pub open spec fn callbacks_at(events: Seq<DriverEvent>, m: int) -> bool {
    0 <= m <= events.len() && run_to(events.take(m)) is AskForInput
}

/// The `m`-th event gave the run an input named by the arguments.
pub open spec fn named_at(events: Seq<DriverEvent>, m: int) -> bool {
    &&& 0 <= m < events.len()
    &&& run_to(events.take(m)) is ResolveInput
    &&& events[m] matches DriverEvent::InputFound(Some(InputRequest::Ready(_, _)))
}

/// A run that has its input got it from one of the three sources.
proof fn lemma_input_origin(events: Seq<DriverEvent>, k: int)
    requires
        0 <= k <= events.len(),
        has_input(run_to(events.take(k))),
    ensures
        (exists|m: int| #[trigger] stdin_at(events, m)) || (exists|m: int|
            #[trigger] callbacks_at(events, m)) || (exists|m: int| #[trigger] named_at(events, m)),
    decreases k,
{
    if k == 0 {
        assert(events.take(0) == Seq::<DriverEvent>::empty());
    } else {
        lemma_run_step(events, k - 1);
        let prev = run_to(events.take(k - 1));
        if has_input(prev) {
            lemma_input_origin(events, k - 1);
        } else if prev is ReadStdin {
            assert(stdin_at(events, k - 1));
        } else if prev is AskForInput {
            assert(callbacks_at(events, k - 1));
        } else {
            assert(named_at(events, k - 1));
        }
    }
}

/// A run that has its input got it from exactly one source: the file the
/// arguments named, standard input, or the callbacks.
pub proof fn lemma_one_input_source(events: Seq<DriverEvent>, k: int)
    requires
        0 <= k <= events.len(),
        has_input(run_to(events.take(k))),
    ensures
        (exists|m: int| #[trigger] stdin_at(events, m)) || (exists|m: int|
            #[trigger] callbacks_at(events, m)) || (exists|m: int| #[trigger] named_at(events, m)),
        !((exists|m: int| #[trigger] stdin_at(events, m)) && (exists|m: int|
            #[trigger] callbacks_at(events, m))),
        !((exists|m: int| #[trigger] stdin_at(events, m)) && (exists|m: int|
            #[trigger] named_at(events, m))),
        !((exists|m: int| #[trigger] callbacks_at(events, m)) && (exists|m: int|
            #[trigger] named_at(events, m))),
{
    lemma_input_origin(events, k);
    if exists|m: int| #[trigger] stdin_at(events, m) {
        let a = choose|m: int| #[trigger] stdin_at(events, m);
        assert forall|b: int| !#[trigger] callbacks_at(events, b) by {
            if 0 <= b <= events.len() {
                lemma_stdin_or_callbacks(events, a, b);
            }
        }
        assert forall|b: int| !#[trigger] named_at(events, b) by {
            if named_at(events, b) {
                lemma_named_excludes(events, b, a);
            }
        }
    }
    if exists|m: int| #[trigger] callbacks_at(events, m) {
        let a = choose|m: int| #[trigger] callbacks_at(events, m);
        assert forall|b: int| !#[trigger] named_at(events, b) by {
            if named_at(events, b) {
                lemma_named_excludes(events, b, a);
            }
        }
    }
}

/// A run whose input the arguments named never reads standard input nor
/// asks the callbacks.
proof fn lemma_named_excludes(events: Seq<DriverEvent>, b: int, a: int)
    requires
        named_at(events, b),
        0 <= a <= events.len(),
    ensures
        !(run_to(events.take(a)) is ReadStdin),
        !(run_to(events.take(a)) is AskForInput),
{
    lemma_run_step(events, b);
    assert(run_to(events.take(b + 1)) is BuildSession);
    if a <= b {
        lemma_progress_grows(events, a, b);
    } else {
        lemma_progress_grows(events, b + 1, a);
    }
}

/// A run is done only after it extracted the functions.
pub proof fn lemma_done_after_extract(events: Seq<DriverEvent>, k: int)
    requires
        0 <= k <= events.len(),
        run_to(events.take(k)) is Done,
    ensures
        exists|m: int| 0 <= m < k && #[trigger] run_to(events.take(m)) is Extract,
    decreases k,
{
    if k == 0 {
        assert(events.take(0) == Seq::<DriverEvent>::empty());
    } else {
        lemma_run_step(events, k - 1);
        let prev = run_to(events.take(k - 1));
        if prev is Done {
            lemma_done_after_extract(events, k - 1);
            let m = choose|m: int| 0 <= m < k - 1 && #[trigger] run_to(events.take(m)) is Extract;
            assert(run_to(events.take(m)) is Extract);
        } else {
            assert(prev is Extract);
        }
    }
}

/// A run that has moved on from extracting is done: extraction ends the run
/// with its result.
pub proof fn lemma_extract_then_done(events: Seq<DriverEvent>, i: int, j: int)
    requires
        0 <= i <= j <= events.len(),
        run_to(events.take(i)) is Extract,
        !(run_to(events.take(j)) is Extract),
    ensures
        run_to(events.take(j)) is Done,
    decreases j - i,
{
    lemma_run_step(events, j - 1);
    let prev = run_to(events.take(j - 1));
    if j - 1 > i && !(prev is Extract) {
        lemma_extract_then_done(events, i, j - 1);
    } else if j - 1 > i {
        assert(prev is Extract);
    }
}

/// Reading standard input decides whether the session fails on its input:
/// once the session is built, a run whose read succeeded goes on to the late
/// callback, and one whose read failed fails.
pub proof fn lemma_stdin_read_decides(ok: bool)
    ensures
        step_after(DriverStep::ReadStdin, DriverEvent::StdinRead(ok)) == (DriverStep::BuildSession {
            input_failed: !ok,
        }),
        step_after(step_after(DriverStep::ReadStdin, DriverEvent::StdinRead(ok)), DriverEvent::SessionBuilt)
            == (if ok {
            DriverStep::LateCallback
        } else {
            DriverStep::InputFailed
        }),
{
}

/// The step is on the way to failing on the input.
pub open spec fn failing_input(step: DriverStep) -> bool {
    step == (DriverStep::BuildSession { input_failed: true }) || step is InputFailed
}

/// The `m`-th event reported that standard input could not be read.
pub open spec fn failed_read_at(events: Seq<DriverEvent>, m: int) -> bool {
    &&& 0 <= m < events.len()
    &&& run_to(events.take(m)) is ReadStdin
    &&& events[m] == DriverEvent::StdinRead(false)
}

/// A run fails on its input only where a read of standard input failed.
pub proof fn lemma_input_fails_only_on_failed_read(events: Seq<DriverEvent>, k: int)
    requires
        0 <= k <= events.len(),
        failing_input(run_to(events.take(k))),
    ensures
        exists|m: int| 0 <= m < k && #[trigger] failed_read_at(events, m),
    decreases k,
{
    if k == 0 {
        assert(events.take(0) == Seq::<DriverEvent>::empty());
    } else {
        lemma_run_step(events, k - 1);
        let prev = run_to(events.take(k - 1));
        if failing_input(prev) {
            lemma_input_fails_only_on_failed_read(events, k - 1);
            let m = choose|m: int| 0 <= m < k - 1 && #[trigger] failed_read_at(events, m);
            assert(failed_read_at(events, m));
        } else {
            assert(prev is ReadStdin);
            assert(failed_read_at(events, k - 1));
        }
    }
}

/// After a failed read of standard input the run fails on its input: it
/// never reaches the late callback or extraction.
pub proof fn lemma_failed_read_fails(events: Seq<DriverEvent>, m: int, j: int)
    requires
        failed_read_at(events, m),
        m < j <= events.len(),
    ensures
        failing_input(run_to(events.take(j))),
        !(run_to(events.take(j)) is LateCallback),
        !(run_to(events.take(j)) is Extract),
        !(run_to(events.take(j)) is Done),
    decreases j - m,
{
    lemma_run_step(events, j - 1);
    if j - 1 > m {
        lemma_failed_read_fails(events, m, j - 1);
    }
}

} // verus!
