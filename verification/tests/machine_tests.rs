use transparent::machine::HelperAction;
use transparent::machine::HelperError;
use transparent::machine::HelperEvent;
use transparent::machine::HelperMachine;
use transparent::machine::HelperPhase;
use transparent::machine::WaitOutcome;
use transparent::machine::STILL_ACTIVE_EXIT_CODE;

#[test]
fn natural_exit_reports_target_code() {
    let mut m = HelperMachine::new();
    assert_eq!(m.pending(), HelperAction::CreateContext);
    assert_eq!(m.step(HelperEvent::ContextCreated), HelperAction::LaunchTarget);
    assert_eq!(m.step(HelperEvent::TargetLaunched), HelperAction::CloseThreadHandle);
    assert_eq!(m.step(HelperEvent::ThreadHandleClosed), HelperAction::WaitForTargetOrCancel);
    assert_eq!(
        m.step(HelperEvent::WaitFinished(WaitOutcome::TargetExited)),
        HelperAction::QueryExitCode
    );
    assert_eq!(m.step(HelperEvent::ExitCodeQueried(7)), HelperAction::CloseProcessHandle);
    assert_eq!(m.step(HelperEvent::ProcessHandleClosed), HelperAction::ReleaseContext);
    assert_eq!(m.step(HelperEvent::ContextReleased), HelperAction::ExitProcess(7));
}

#[test]
fn cancellation_terminates_and_reports_zero() {
    let mut m = HelperMachine::new();
    m.step(HelperEvent::ContextCreated);
    m.step(HelperEvent::TargetLaunched);
    m.step(HelperEvent::ThreadHandleClosed);
    assert_eq!(
        m.step(HelperEvent::WaitFinished(WaitOutcome::CancellationRequested)),
        HelperAction::QueryExitCode
    );
    assert_eq!(
        m.step(HelperEvent::ExitCodeQueried(STILL_ACTIVE_EXIT_CODE)),
        HelperAction::TerminateTarget
    );
    assert_eq!(m.step(HelperEvent::TargetTerminated), HelperAction::CloseProcessHandle);
    assert_eq!(m.step(HelperEvent::ProcessHandleClosed), HelperAction::ReleaseContext);
    assert_eq!(m.step(HelperEvent::ContextReleased), HelperAction::ExitProcess(0));
}

#[test]
fn cancelled_but_already_exited_reports_its_code() {
    // The wait was cut short, yet the target managed to exit on its own: the
    // query then returns a real code and it is reported verbatim.
    let mut m = HelperMachine::new();
    m.step(HelperEvent::ContextCreated);
    m.step(HelperEvent::TargetLaunched);
    m.step(HelperEvent::ThreadHandleClosed);
    m.step(HelperEvent::WaitFinished(WaitOutcome::CancellationRequested));
    assert_eq!(m.step(HelperEvent::ExitCodeQueried(3)), HelperAction::CloseProcessHandle);
    m.step(HelperEvent::ProcessHandleClosed);
    assert_eq!(m.step(HelperEvent::ContextReleased), HelperAction::ExitProcess(3));
}

#[test]
fn context_failure_aborts_without_cleanup() {
    let mut m = HelperMachine::new();
    assert_eq!(
        m.step(HelperEvent::ContextFailed),
        HelperAction::AbortProcess(HelperError::IsolationContext)
    );
}

#[test]
fn pipe_failure_releases_context_then_aborts() {
    let mut m = HelperMachine::new();
    m.step(HelperEvent::ContextCreated);
    assert_eq!(m.step(HelperEvent::PipeSetupFailed), HelperAction::ReleaseContext);
    assert_eq!(
        m.step(HelperEvent::ContextReleased),
        HelperAction::AbortProcess(HelperError::Pipe)
    );
}

#[test]
fn launch_failure_releases_context_then_aborts() {
    let mut m = HelperMachine::new();
    m.step(HelperEvent::ContextCreated);
    assert_eq!(m.step(HelperEvent::LaunchFailed), HelperAction::ReleaseContext);
    assert_eq!(
        m.step(HelperEvent::ContextReleased),
        HelperAction::AbortProcess(HelperError::Launch)
    );
}

#[test]
fn wait_failure_releases_everything_then_aborts() {
    let mut m = HelperMachine::new();
    m.step(HelperEvent::ContextCreated);
    m.step(HelperEvent::TargetLaunched);
    m.step(HelperEvent::ThreadHandleClosed);
    assert_eq!(m.step(HelperEvent::WaitFailed), HelperAction::CloseProcessHandle);
    assert_eq!(m.step(HelperEvent::ProcessHandleClosed), HelperAction::ReleaseContext);
    assert_eq!(
        m.step(HelperEvent::ContextReleased),
        HelperAction::AbortProcess(HelperError::Wait)
    );
}

#[test]
fn query_failure_releases_everything_then_aborts() {
    let mut m = HelperMachine::new();
    m.step(HelperEvent::ContextCreated);
    m.step(HelperEvent::TargetLaunched);
    m.step(HelperEvent::ThreadHandleClosed);
    m.step(HelperEvent::WaitFinished(WaitOutcome::TargetExited));
    assert_eq!(m.step(HelperEvent::ExitCodeQueryFailed), HelperAction::CloseProcessHandle);
    assert_eq!(m.step(HelperEvent::ProcessHandleClosed), HelperAction::ReleaseContext);
    assert_eq!(
        m.step(HelperEvent::ContextReleased),
        HelperAction::AbortProcess(HelperError::ExitCodeQuery)
    );
}

#[test]
fn termination_failure_releases_everything_then_aborts() {
    let mut m = HelperMachine::new();
    m.step(HelperEvent::ContextCreated);
    m.step(HelperEvent::TargetLaunched);
    m.step(HelperEvent::ThreadHandleClosed);
    m.step(HelperEvent::WaitFinished(WaitOutcome::CancellationRequested));
    m.step(HelperEvent::ExitCodeQueried(STILL_ACTIVE_EXIT_CODE));
    assert_eq!(m.step(HelperEvent::TerminationFailed), HelperAction::CloseProcessHandle);
    assert_eq!(m.step(HelperEvent::ProcessHandleClosed), HelperAction::ReleaseContext);
    assert_eq!(
        m.step(HelperEvent::ContextReleased),
        HelperAction::AbortProcess(HelperError::Termination)
    );
}

#[test]
fn still_active_marker_is_the_platform_value() {
    assert_eq!(STILL_ACTIVE_EXIT_CODE, 259);
}

#[test]
fn phases_progress_in_protocol_order() {
    let mut m = HelperMachine::new();
    assert_eq!(m.phase(), HelperPhase::Init);
    m.step(HelperEvent::ContextCreated);
    assert_eq!(m.phase(), HelperPhase::ContextReady);
    m.step(HelperEvent::TargetLaunched);
    assert_eq!(m.phase(), HelperPhase::Launched);
    m.step(HelperEvent::ThreadHandleClosed);
    assert_eq!(m.phase(), HelperPhase::Waiting);
    m.step(HelperEvent::WaitFinished(WaitOutcome::TargetExited));
    assert_eq!(m.phase(), HelperPhase::WaitComplete(false));
    m.step(HelperEvent::ExitCodeQueried(0));
    assert_eq!(m.phase(), HelperPhase::Concluding(0));
    m.step(HelperEvent::ProcessHandleClosed);
    assert_eq!(m.phase(), HelperPhase::Releasing(0));
    m.step(HelperEvent::ContextReleased);
    assert_eq!(m.phase(), HelperPhase::Done(0));
}

#[test]
fn unexpected_event_is_refused_without_change() {
    let mut m = HelperMachine::new();
    assert_eq!(m.try_step(HelperEvent::TargetTerminated), None);
    assert_eq!(m.phase(), HelperPhase::Init);
    assert_eq!(m.pending(), HelperAction::CreateContext);
}
