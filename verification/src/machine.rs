//! The helper process protocol as a state machine.
//!
//! The helper creates an isolation context, launches the target inside it,
//! waits until the target exits or cancellation is requested, determines the
//! definitive exit code, and releases every acquired resource on every path.
//! The machine here holds that control logic as pure decisions: the driver
//! performs the [`HelperAction`] the machine asks for, reports back what the
//! platform said as a [`HelperEvent`], and the machine decides what comes
//! next. Verification covers the ordering and cleanup discipline; the laws at
//! the end state exit-code faithfulness, the cancellation outcome, and the
//! release of every acquired resource.

use vstd::prelude::*;

verus! {

/// Exit code the platform reports for a process that has not exited yet.
pub const STILL_ACTIVE_EXIT_CODE: u32 = 259;

/// Which of the two awaited objects ended the blocking wait.
#[derive(Clone, Copy, Debug, PartialEq, Eq)]
pub enum WaitOutcome {
    /// The target process became signaled: it has exited.
    TargetExited,
    /// The cancellation signal became signaled.
    CancellationRequested,
}

/// The unrecoverable failures of a helper run, for diagnostics.
#[derive(Clone, Copy, Debug, PartialEq, Eq)]
pub enum HelperError {
    /// The platform refused to create the isolation context.
    IsolationContext,
    /// Pipe creation or stdio handle configuration failed.
    Pipe,
    /// The platform refused to create the target process.
    Launch,
    /// The blocking multi-object wait failed.
    Wait,
    /// The target's exit status could not be retrieved.
    ExitCodeQuery,
    /// Forced termination of a still-running target failed.
    Termination,
}

/// What the platform reported after the driver performed the pending action.
#[derive(Clone, Copy, Debug, PartialEq, Eq)]
pub enum HelperEvent {
    /// The isolation context exists.
    ContextCreated,
    /// The isolation context could not be created.
    ContextFailed,
    /// Stdio wiring could not be configured before the launch.
    PipeSetupFailed,
    /// The target process was created inside the context; a process handle
    /// and an initial-thread handle are now held.
    TargetLaunched,
    /// The target process could not be created.
    LaunchFailed,
    /// The unneeded initial-thread handle was closed.
    ThreadHandleClosed,
    /// The blocking wait resolved, to one of its two objects.
    WaitFinished(WaitOutcome),
    /// The blocking wait failed at the OS level.
    WaitFailed,
    /// The exit-code query returned this raw code.
    ExitCodeQueried(u32),
    /// The exit-code query failed.
    ExitCodeQueryFailed,
    /// The still-running target was forcibly terminated.
    TargetTerminated,
    /// Forced termination failed.
    TerminationFailed,
    /// The target process handle was closed.
    ProcessHandleClosed,
    /// The isolation context was released.
    ContextReleased,
}

/// What the driver must do next.
#[derive(Clone, Copy, Debug, PartialEq, Eq)]
pub enum HelperAction {
    /// Create the isolation context under a fresh name.
    CreateContext,
    /// Wire stdio and launch the target bound to the context.
    LaunchTarget,
    /// Close the target's initial-thread handle: it is not needed.
    CloseThreadHandle,
    /// Block until the target exits or cancellation is requested.
    WaitForTargetOrCancel,
    /// Ask the platform for the target's exit code.
    QueryExitCode,
    /// Forcibly terminate the still-running target.
    TerminateTarget,
    /// Close the target's process handle.
    CloseProcessHandle,
    /// Release the isolation context.
    ReleaseContext,
    /// Exit the helper process with this code, the run's result.
    ExitProcess(u32),
    /// Abort the helper with a fatal diagnostic; everything is released.
    AbortProcess(HelperError),
}

/// Where a helper run stands. Each phase determines the pending action and
/// which resources are currently held.
#[derive(Clone, Copy, Debug, PartialEq, Eq)]
pub enum HelperPhase {
    /// Nothing has happened yet.
    Init,
    /// The isolation context exists.
    ContextReady,
    /// The target runs inside the context; process and initial-thread
    /// handles are held.
    Launched,
    /// Only the process handle is still held; the wait may begin.
    Waiting,
    /// The wait resolved; `true` means cancellation was requested.
    WaitComplete(bool),
    /// The query said the target is still running; it must be terminated.
    StillRunning,
    /// The exit code is determined; the process handle must be closed.
    Concluding(u32),
    /// The context must be released, then the helper exits with the code.
    Releasing(u32),
    /// The run is over: the helper exits with this code.
    Done(u32),
    /// A fatal error occurred while the process handle was still held.
    AbortClosingHandle(HelperError),
    /// A fatal error occurred while the context was still held.
    AbortReleasingContext(HelperError),
    /// A fatal error occurred and nothing is held any more.
    AbortReady(HelperError),
}

/// The transition relation: the phase after `e` is observed in `p`, or `None`
/// where `e` cannot be an outcome of `p`'s pending action.
pub open spec fn next_phase(p: HelperPhase, e: HelperEvent) -> Option<HelperPhase> {
    match (p, e) {
        (HelperPhase::Init, HelperEvent::ContextCreated) => Some(HelperPhase::ContextReady),
        (HelperPhase::Init, HelperEvent::ContextFailed) => Some(
            HelperPhase::AbortReady(HelperError::IsolationContext),
        ),
        (HelperPhase::ContextReady, HelperEvent::TargetLaunched) => Some(HelperPhase::Launched),
        (HelperPhase::ContextReady, HelperEvent::PipeSetupFailed) => Some(
            HelperPhase::AbortReleasingContext(HelperError::Pipe),
        ),
        (HelperPhase::ContextReady, HelperEvent::LaunchFailed) => Some(
            HelperPhase::AbortReleasingContext(HelperError::Launch),
        ),
        (HelperPhase::Launched, HelperEvent::ThreadHandleClosed) => Some(HelperPhase::Waiting),
        (HelperPhase::Waiting, HelperEvent::WaitFinished(o)) => Some(
            HelperPhase::WaitComplete(o is CancellationRequested),
        ),
        (HelperPhase::Waiting, HelperEvent::WaitFailed) => Some(
            HelperPhase::AbortClosingHandle(HelperError::Wait),
        ),
        (HelperPhase::WaitComplete(_), HelperEvent::ExitCodeQueried(c)) => if c
            == STILL_ACTIVE_EXIT_CODE {
            Some(HelperPhase::StillRunning)
        } else {
            Some(HelperPhase::Concluding(c))
        },
        (HelperPhase::WaitComplete(_), HelperEvent::ExitCodeQueryFailed) => Some(
            HelperPhase::AbortClosingHandle(HelperError::ExitCodeQuery),
        ),
        (HelperPhase::StillRunning, HelperEvent::TargetTerminated) => Some(
            HelperPhase::Concluding(0),
        ),
        (HelperPhase::StillRunning, HelperEvent::TerminationFailed) => Some(
            HelperPhase::AbortClosingHandle(HelperError::Termination),
        ),
        (HelperPhase::Concluding(c), HelperEvent::ProcessHandleClosed) => Some(
            HelperPhase::Releasing(c),
        ),
        (HelperPhase::Releasing(c), HelperEvent::ContextReleased) => Some(HelperPhase::Done(c)),
        (HelperPhase::AbortClosingHandle(err), HelperEvent::ProcessHandleClosed) => Some(
            HelperPhase::AbortReleasingContext(err),
        ),
        (HelperPhase::AbortReleasingContext(err), HelperEvent::ContextReleased) => Some(
            HelperPhase::AbortReady(err),
        ),
        _ => None,
    }
}

/// The action pending in phase `p`.
pub open spec fn pending_action(p: HelperPhase) -> HelperAction {
    match p {
        HelperPhase::Init => HelperAction::CreateContext,
        HelperPhase::ContextReady => HelperAction::LaunchTarget,
        HelperPhase::Launched => HelperAction::CloseThreadHandle,
        HelperPhase::Waiting => HelperAction::WaitForTargetOrCancel,
        HelperPhase::WaitComplete(_) => HelperAction::QueryExitCode,
        HelperPhase::StillRunning => HelperAction::TerminateTarget,
        HelperPhase::Concluding(_) => HelperAction::CloseProcessHandle,
        HelperPhase::Releasing(_) => HelperAction::ReleaseContext,
        HelperPhase::Done(c) => HelperAction::ExitProcess(c),
        HelperPhase::AbortClosingHandle(_) => HelperAction::CloseProcessHandle,
        HelperPhase::AbortReleasingContext(_) => HelperAction::ReleaseContext,
        HelperPhase::AbortReady(err) => HelperAction::AbortProcess(err),
    }
}

/// A run is over in these phases: the driver exits or aborts and feeds no
/// further event.
pub open spec fn is_terminal(p: HelperPhase) -> bool {
    p is Done || p is AbortReady
}

/// How many isolation contexts are held in phase `p`.
pub open spec fn contexts_held(p: HelperPhase) -> int {
    match p {
        HelperPhase::Init => 0,
        HelperPhase::Done(_) => 0,
        HelperPhase::AbortReady(_) => 0,
        _ => 1,
    }
}

/// How many target process handles are held in phase `p`.
pub open spec fn process_handles_held(p: HelperPhase) -> int {
    match p {
        HelperPhase::Launched => 1,
        HelperPhase::Waiting => 1,
        HelperPhase::WaitComplete(_) => 1,
        HelperPhase::StillRunning => 1,
        HelperPhase::Concluding(_) => 1,
        HelperPhase::AbortClosingHandle(_) => 1,
        _ => 0,
    }
}

/// How many initial-thread handles are held in phase `p`.
pub open spec fn thread_handles_held(p: HelperPhase) -> int {
    match p {
        HelperPhase::Launched => 1,
        _ => 0,
    }
}

/// The phase reached by observing the events of `t` in order from the start,
/// or `None` if some event could not occur where it stands.
pub open spec fn run_phases(t: Seq<HelperEvent>) -> Option<HelperPhase>
    decreases t.len(),
{
    if t.len() == 0 {
        Some(HelperPhase::Init)
    } else {
        match run_phases(t.drop_last()) {
            Some(p) => next_phase(p, t.last()),
            None => None,
        }
    }
}

/// How many events of `t` satisfy `pred`.
pub open spec fn count_events(t: Seq<HelperEvent>, pred: spec_fn(HelperEvent) -> bool) -> int
    decreases t.len(),
{
    if t.len() == 0 {
        0
    } else {
        count_events(t.drop_last(), pred) + if pred(t.last()) {
            1int
        } else {
            0int
        }
    }
}

/// Acquisitions minus releases always equals what the current phase holds:
/// the ledger of contexts, process handles and thread handles balances after
/// every admissible event.
pub proof fn lemma_resource_balance(t: Seq<HelperEvent>)
    requires
        run_phases(t) is Some,
    ensures
        count_events(t, |e: HelperEvent| e is ContextCreated) - count_events(
            t,
            |e: HelperEvent| e is ContextReleased,
        ) == contexts_held(run_phases(t).unwrap()),
        count_events(t, |e: HelperEvent| e is TargetLaunched) - count_events(
            t,
            |e: HelperEvent| e is ProcessHandleClosed,
        ) == process_handles_held(run_phases(t).unwrap()),
        count_events(t, |e: HelperEvent| e is TargetLaunched) - count_events(
            t,
            |e: HelperEvent| e is ThreadHandleClosed,
        ) == thread_handles_held(run_phases(t).unwrap()),
    decreases t.len(),
{
    if t.len() > 0 {
        lemma_resource_balance(t.drop_last());
    }
}

/// Law (idempotent resource release): a helper run that has reached a
/// terminal phase has released each isolation context, process handle and
/// thread handle it acquired exactly once: the counts of acquisitions and
/// releases in the whole run are equal.
pub proof fn lemma_resource_release(t: Seq<HelperEvent>)
    requires
        run_phases(t) is Some,
        is_terminal(run_phases(t).unwrap()),
    ensures
        count_events(t, |e: HelperEvent| e is ContextReleased) == count_events(
            t,
            |e: HelperEvent| e is ContextCreated,
        ),
        count_events(t, |e: HelperEvent| e is ProcessHandleClosed) == count_events(
            t,
            |e: HelperEvent| e is TargetLaunched,
        ),
        count_events(t, |e: HelperEvent| e is ThreadHandleClosed) == count_events(
            t,
            |e: HelperEvent| e is TargetLaunched,
        ),
{
    lemma_resource_balance(t);
}

/// Once the exit code is determined, every later phase of the run carries it
/// unchanged.
proof fn lemma_code_flow(t: Seq<HelperEvent>, ext: Seq<HelperEvent>, c: u32)
    requires
        run_phases(t) == Some(HelperPhase::Concluding(c)),
        run_phases(t + ext) is Some,
    ensures
        run_phases(t + ext) == Some(HelperPhase::Concluding(c)) || run_phases(t + ext) == Some(
            HelperPhase::Releasing(c),
        ) || run_phases(t + ext) == Some(HelperPhase::Done(c)),
    decreases ext.len(),
{
    if ext.len() == 0 {
        assert(t + ext =~= t);
    } else {
        assert((t + ext).drop_last() =~= t + ext.drop_last());
        assert((t + ext).len() > 0);
        lemma_code_flow(t, ext.drop_last(), c);
    }
}

/// Law (exit-code faithfulness): once the run has concluded on a code, the
/// helper's final exit code is exactly that code.
pub proof fn lemma_exit_code_preserved(t: Seq<HelperEvent>, ext: Seq<HelperEvent>, c: u32, code: u32)
    requires
        run_phases(t) == Some(HelperPhase::Concluding(c)),
        run_phases(t + ext) == Some(HelperPhase::Done(code)),
    ensures
        code == c,
{
    lemma_code_flow(t, ext, c);
}

/// Law (exit-status equivalence): when the exit-code query returned a code
/// other than the still-running marker — in particular after a natural exit —
/// the helper's own final exit code equals the queried code verbatim.
pub proof fn lemma_exit_status_equivalence(
    t: Seq<HelperEvent>,
    ext: Seq<HelperEvent>,
    cancelled: bool,
    c: u32,
    code: u32,
)
    requires
        run_phases(t) == Some(HelperPhase::WaitComplete(cancelled)),
        ext.len() > 0,
        ext[0] == HelperEvent::ExitCodeQueried(c),
        c != STILL_ACTIVE_EXIT_CODE,
        run_phases(t + ext) == Some(HelperPhase::Done(code)),
    ensures
        code == c,
{
    let t1 = t.push(HelperEvent::ExitCodeQueried(c));
    assert(t1.drop_last() =~= t);
    assert(run_phases(t1) == Some(HelperPhase::Concluding(c)));
    assert(t1 + ext.drop_first() =~= t + ext);
    lemma_code_flow(t1, ext.drop_first(), c);
}

/// Every phase reachable from a still-running verdict either precedes the
/// forced termination, follows it with exit code zero, or lies on the abort
/// path of a failed termination.
proof fn lemma_cancel_flow(t: Seq<HelperEvent>, ext: Seq<HelperEvent>)
    requires
        run_phases(t) == Some(HelperPhase::StillRunning),
        run_phases(t + ext) is Some,
    ensures
        ({
            let p = run_phases(t + ext).unwrap();
            (p == HelperPhase::StillRunning && ext.len() == 0) || ((p == HelperPhase::Concluding(
                0u32,
            ) || p == HelperPhase::Releasing(0u32) || p == HelperPhase::Done(0u32))
                && ext.contains(HelperEvent::TargetTerminated)) || p
                == HelperPhase::AbortClosingHandle(HelperError::Termination) || p
                == HelperPhase::AbortReleasingContext(HelperError::Termination) || p
                == HelperPhase::AbortReady(HelperError::Termination)
        }),
    decreases ext.len(),
{
    if ext.len() == 0 {
        assert(t + ext =~= t);
    } else {
        assert((t + ext).drop_last() =~= t + ext.drop_last());
        lemma_cancel_flow(t, ext.drop_last());
        if ext.drop_last().contains(HelperEvent::TargetTerminated) {
            let i = choose|i: int|
                0 <= i < ext.drop_last().len() && ext.drop_last()[i]
                    == HelperEvent::TargetTerminated;
            assert(ext[i] == HelperEvent::TargetTerminated);
        }
        if run_phases(t + ext.drop_last()) == Some(HelperPhase::StillRunning) && ext.last()
            == HelperEvent::TargetTerminated {
            assert(ext.contains(HelperEvent::TargetTerminated)) by {
                assert(ext[ext.len() - 1] == HelperEvent::TargetTerminated);
            }
        }
    }
}

/// Law (cancellation outcome): when the wait was cut short and the target was
/// found still running, a run that completes at all completes with exit code
/// `0`, and only after the target was forcibly terminated.
pub proof fn lemma_cancellation_outcome(t: Seq<HelperEvent>, ext: Seq<HelperEvent>, code: u32)
    requires
        run_phases(t) == Some(HelperPhase::StillRunning),
        run_phases(t + ext) == Some(HelperPhase::Done(code)),
    ensures
        code == 0,
        ext.contains(HelperEvent::TargetTerminated),
{
    lemma_cancel_flow(t, ext);
}

/// The decision of the helper protocol's final step: a target seen still
/// running (only possible after cancellation) is forcibly terminated and
/// reported with the fixed fallback code `0`; any other queried code is
/// reported verbatim.
pub open spec fn protocol_exit_code(queried: u32) -> u32 {
    if queried == STILL_ACTIVE_EXIT_CODE {
        0
    } else {
        queried
    }
}

/// A full run that observes `wait` and whose exit-code query returns
/// `queried` ends in `Done` with exactly [`protocol_exit_code`] of the query,
/// the termination step standing in the trace only when the query said the
/// target was still running.
pub proof fn lemma_complete_run(wait: WaitOutcome, queried: u32)
    ensures
        ({
            let prefix = seq![
                HelperEvent::ContextCreated,
                HelperEvent::TargetLaunched,
                HelperEvent::ThreadHandleClosed,
                HelperEvent::WaitFinished(wait),
                HelperEvent::ExitCodeQueried(queried),
            ];
            let tail = seq![HelperEvent::ProcessHandleClosed, HelperEvent::ContextReleased];
            let trace = if queried == STILL_ACTIVE_EXIT_CODE {
                prefix + seq![HelperEvent::TargetTerminated] + tail
            } else {
                prefix + tail
            };
            run_phases(trace) == Some(HelperPhase::Done(protocol_exit_code(queried)))
        }),
{
    let prefix = seq![
        HelperEvent::ContextCreated,
        HelperEvent::TargetLaunched,
        HelperEvent::ThreadHandleClosed,
        HelperEvent::WaitFinished(wait),
        HelperEvent::ExitCodeQueried(queried),
    ];
    let tail = seq![HelperEvent::ProcessHandleClosed, HelperEvent::ContextReleased];
    let trace = if queried == STILL_ACTIVE_EXIT_CODE {
        prefix + seq![HelperEvent::TargetTerminated] + tail
    } else {
        prefix + tail
    };
    let t0 = Seq::<HelperEvent>::empty();
    let t1 = t0.push(HelperEvent::ContextCreated);
    let t2 = t1.push(HelperEvent::TargetLaunched);
    let t3 = t2.push(HelperEvent::ThreadHandleClosed);
    let t4 = t3.push(HelperEvent::WaitFinished(wait));
    let t5 = t4.push(HelperEvent::ExitCodeQueried(queried));
    assert(t1.drop_last() =~= t0);
    assert(t2.drop_last() =~= t1);
    assert(t3.drop_last() =~= t2);
    assert(t4.drop_last() =~= t3);
    assert(t5.drop_last() =~= t4);
    assert(run_phases(t0) == Some(HelperPhase::Init));
    assert(run_phases(t1) == Some(HelperPhase::ContextReady));
    assert(run_phases(t2) == Some(HelperPhase::Launched));
    assert(run_phases(t3) == Some(HelperPhase::Waiting));
    assert(run_phases(t4) == Some(HelperPhase::WaitComplete(wait is CancellationRequested)));
    assert(run_phases(t5) == (if queried == STILL_ACTIVE_EXIT_CODE {
        Some(HelperPhase::StillRunning)
    } else {
        Some(HelperPhase::Concluding(queried))
    }));
    let t6 = if queried == STILL_ACTIVE_EXIT_CODE {
        t5.push(HelperEvent::TargetTerminated)
    } else {
        t5
    };
    if queried == STILL_ACTIVE_EXIT_CODE {
        assert(t6.drop_last() =~= t5);
    }
    assert(run_phases(t6) == Some(HelperPhase::Concluding(protocol_exit_code(queried))));
    let t7 = t6.push(HelperEvent::ProcessHandleClosed);
    let t8 = t7.push(HelperEvent::ContextReleased);
    assert(t7.drop_last() =~= t6);
    assert(t8.drop_last() =~= t7);
    assert(run_phases(t7) == Some(HelperPhase::Releasing(protocol_exit_code(queried))));
    assert(run_phases(t8) == Some(HelperPhase::Done(protocol_exit_code(queried))));
    assert(trace =~= t8);
}

/// The helper protocol's control state, driven by one event at a time.
pub struct HelperMachine {
    phase: HelperPhase,
}

impl View for HelperMachine {
    type V = HelperPhase;

    closed spec fn view(&self) -> HelperPhase {
        self.phase
    }
}

impl HelperMachine {
    /// A fresh run: nothing created yet, the first action is creating the
    /// isolation context.
    pub fn new() -> (m: Self)
        ensures
            m@ == HelperPhase::Init,
    {
        HelperMachine { phase: HelperPhase::Init }
    }

    /// The action the driver must perform next.
    pub fn pending(&self) -> (a: HelperAction)
        ensures
            a == pending_action(self@),
    {
        match self.phase {
            HelperPhase::Init => HelperAction::CreateContext,
            HelperPhase::ContextReady => HelperAction::LaunchTarget,
            HelperPhase::Launched => HelperAction::CloseThreadHandle,
            HelperPhase::Waiting => HelperAction::WaitForTargetOrCancel,
            HelperPhase::WaitComplete(_) => HelperAction::QueryExitCode,
            HelperPhase::StillRunning => HelperAction::TerminateTarget,
            HelperPhase::Concluding(_) => HelperAction::CloseProcessHandle,
            HelperPhase::Releasing(_) => HelperAction::ReleaseContext,
            HelperPhase::Done(c) => HelperAction::ExitProcess(c),
            HelperPhase::AbortClosingHandle(_) => HelperAction::CloseProcessHandle,
            HelperPhase::AbortReleasingContext(_) => HelperAction::ReleaseContext,
            HelperPhase::AbortReady(err) => HelperAction::AbortProcess(err),
        }
    }

    /// The current phase.
    pub fn phase(&self) -> (p: HelperPhase)
        ensures
            p == self@,
    {
        self.phase
    }

    /// Observes the outcome of the pending action and decides the next one.
    /// The event must be one the pending action can produce.
    pub fn step(&mut self, e: HelperEvent) -> (a: HelperAction)
        requires
            next_phase(old(self)@, e) is Some,
        ensures
            Some(final(self)@) == next_phase(old(self)@, e),
            a == pending_action(final(self)@),
    {
        match self.try_step(e) {
            Some(a) => a,
            None => vstd::pervasive::unreached(),
        }
    }

    /// Like [`Self::step`], for a driver that cannot rule a misbehaving
    /// event source out: an event the pending action cannot produce is
    /// refused and the machine stands unchanged.
    pub fn try_step(&mut self, e: HelperEvent) -> (r: Option<HelperAction>)
        ensures
            match r {
                Some(a) => Some(final(self)@) == next_phase(old(self)@, e) && a
                    == pending_action(final(self)@),
                None => next_phase(old(self)@, e) is None && final(self)@ == old(self)@,
            },
    {
        let next = match (self.phase, e) {
            (HelperPhase::Init, HelperEvent::ContextCreated) => HelperPhase::ContextReady,
            (HelperPhase::Init, HelperEvent::ContextFailed) => HelperPhase::AbortReady(
                HelperError::IsolationContext,
            ),
            (HelperPhase::ContextReady, HelperEvent::TargetLaunched) => HelperPhase::Launched,
            (HelperPhase::ContextReady, HelperEvent::PipeSetupFailed) => HelperPhase::AbortReleasingContext(
                HelperError::Pipe,
            ),
            (HelperPhase::ContextReady, HelperEvent::LaunchFailed) => HelperPhase::AbortReleasingContext(
                HelperError::Launch,
            ),
            (HelperPhase::Launched, HelperEvent::ThreadHandleClosed) => HelperPhase::Waiting,
            (HelperPhase::Waiting, HelperEvent::WaitFinished(o)) => HelperPhase::WaitComplete(
                match o {
                    WaitOutcome::TargetExited => false,
                    WaitOutcome::CancellationRequested => true,
                },
            ),
            (HelperPhase::Waiting, HelperEvent::WaitFailed) => HelperPhase::AbortClosingHandle(
                HelperError::Wait,
            ),
            (HelperPhase::WaitComplete(_), HelperEvent::ExitCodeQueried(c)) => if c
                == STILL_ACTIVE_EXIT_CODE {
                HelperPhase::StillRunning
            } else {
                HelperPhase::Concluding(c)
            },
            (HelperPhase::WaitComplete(_), HelperEvent::ExitCodeQueryFailed) => HelperPhase::AbortClosingHandle(
                HelperError::ExitCodeQuery,
            ),
            (HelperPhase::StillRunning, HelperEvent::TargetTerminated) => HelperPhase::Concluding(
                0,
            ),
            (HelperPhase::StillRunning, HelperEvent::TerminationFailed) => HelperPhase::AbortClosingHandle(
                HelperError::Termination,
            ),
            (HelperPhase::Concluding(c), HelperEvent::ProcessHandleClosed) => HelperPhase::Releasing(
                c,
            ),
            (HelperPhase::Releasing(c), HelperEvent::ContextReleased) => HelperPhase::Done(c),
            (HelperPhase::AbortClosingHandle(err), HelperEvent::ProcessHandleClosed) => HelperPhase::AbortReleasingContext(
                err,
            ),
            (HelperPhase::AbortReleasingContext(err), HelperEvent::ContextReleased) => HelperPhase::AbortReady(
                err,
            ),
            _ => {
                return None;
            },
        };
        self.phase = next;
        Some(self.pending())
    }
}

} // verus!
