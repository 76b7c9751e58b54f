use delta::autostart::{autostart_step, AutostartCall, AutostartEvent, AutostartNext, AutostartPhase};
use delta::error::AppError;

#[test]
fn enabling_registers_then_confirms() {
    let m = autostart_step(AutostartPhase::Idle, AutostartEvent::Start(true));
    assert_eq!(m.next, AutostartNext::Call(AutostartCall::Enable));
    let m = autostart_step(m.phase, AutostartEvent::Changed(Ok(())));
    assert_eq!(m.next, AutostartNext::Call(AutostartCall::Query));
    let m = autostart_step(m.phase, AutostartEvent::Queried(Ok(true)));
    assert_eq!(m.log.as_deref(), Some("autostart enable succeeded: plugin_is_enabled=true"));
    assert_eq!(m.next, AutostartNext::Done(Ok(())));
}

#[test]
fn enabling_stops_on_failures() {
    let m = autostart_step(AutostartPhase::AwaitEnable, AutostartEvent::Changed(Err("denied".to_string())));
    assert_eq!(m.next, AutostartNext::Done(Err(AppError::Autostart("denied".to_string()))));
    let m = autostart_step(AutostartPhase::AwaitQueryAfterEnable, AutostartEvent::Queried(Err("gone".to_string())));
    assert_eq!(m.next, AutostartNext::Done(Err(AppError::Autostart("gone".to_string()))));
}

#[test]
fn disabling_tolerates_a_failure_when_nothing_is_registered() {
    let m = autostart_step(AutostartPhase::Idle, AutostartEvent::Start(false));
    assert_eq!(m.next, AutostartNext::Call(AutostartCall::Disable));
    let ok = autostart_step(AutostartPhase::AwaitDisable, AutostartEvent::Changed(Ok(())));
    assert_eq!(ok.log.as_deref(), Some("autostart disable succeeded"));
    assert_eq!(ok.next, AutostartNext::Done(Ok(())));
    let m = autostart_step(m.phase, AutostartEvent::Changed(Err("busy".to_string())));
    assert_eq!(m.log.as_deref(), Some("autostart disable returned error: busy"));
    assert_eq!(m.next, AutostartNext::Call(AutostartCall::Query));
    let still = autostart_step(AutostartPhase::AwaitQueryAfterFailedDisable("busy".to_string()), AutostartEvent::Queried(Ok(true)));
    assert_eq!(still.next, AutostartNext::Done(Err(AppError::Autostart("busy".to_string()))));
    let gone = autostart_step(m.phase, AutostartEvent::Queried(Ok(false)));
    assert_eq!(gone.next, AutostartNext::Done(Ok(())));
    let unknown = autostart_step(AutostartPhase::AwaitQueryAfterFailedDisable("x".to_string()), AutostartEvent::Queried(Err("?".to_string())));
    assert_eq!(unknown.next, AutostartNext::Done(Ok(())));
}
