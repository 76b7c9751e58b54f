//! Bringing the launch-at-login registration in line with the background
//! scan setting, one system call at a time: the caller makes the call that
//! a step asks for and hands back what it reported.

use vstd::prelude::*;
use crate::error::AppError;

verus! {

/// A call on the system's launch-at-login registration.
#[derive(Clone, Copy, Debug, PartialEq, Eq, Structural)]
pub enum AutostartCall {
    /// Register the application to start at login.
    Enable,
    /// Ask whether the application is registered.
    Query,
    /// Remove the registration.
    Disable,
}

/// How far the registration has got.
#[derive(Debug, PartialEq, Eq)]
pub enum AutostartPhase {
    /// Nothing asked yet.
    Idle,
    /// Waiting for the registration.
    AwaitEnable,
    /// Registered; waiting for the query that confirms it.
    AwaitQueryAfterEnable,
    /// Waiting for the removal.
    AwaitDisable,
    /// The removal failed with this message; waiting for the query that
    /// tells whether the registration is still there.
    AwaitQueryAfterFailedDisable(String),
    /// Done.
    Finished,
}

/// What the caller hands to a step.
#[derive(Debug, PartialEq, Eq)]
pub enum AutostartEvent {
    /// Start, for the background scan enabled or not.
    Start(bool),
    /// What a registration or removal reported.
    Changed(Result<(), String>),
    /// What a query reported.
    Queried(Result<bool, String>),
}

/// What comes next.
#[derive(Debug, PartialEq, Eq)]
pub enum AutostartNext {
    /// Make this call and hand back what it reports.
    Call(AutostartCall),
    /// Stop with this result.
    Done(Result<(), AppError>),
}

/// One step: the phase after it, a line for the background scan's log if
/// any, and what comes next.
#[derive(Debug, PartialEq, Eq)]
pub struct AutostartMove {
    pub phase: AutostartPhase,
    pub log: Option<String>,
    pub next: AutostartNext,
}

/// Whether the event is one the phase waits for.
pub open spec fn event_fits(phase: AutostartPhase, event: AutostartEvent) -> bool {
    match phase {
        AutostartPhase::Idle => event is Start,
        AutostartPhase::AwaitEnable => event is Changed,
        AutostartPhase::AwaitQueryAfterEnable => event is Queried,
        AutostartPhase::AwaitDisable => event is Changed,
        AutostartPhase::AwaitQueryAfterFailedDisable(_) => event is Queried,
        AutostartPhase::Finished => false,
    }
}

/// The move calls `c` and waits in `phase`, with no log line.
pub open spec fn calls(m: AutostartMove, c: AutostartCall, phase: AutostartPhase) -> bool {
    m.phase == phase && m.log is None && m.next == AutostartNext::Call(c)
}

/// The move stops with the registration error `msg`, with no log line.
pub open spec fn fails_with(m: AutostartMove, msg: Seq<char>) -> bool {
    &&& m.phase == AutostartPhase::Finished
    &&& m.log is None
    &&& m.next matches AutostartNext::Done(Err(AppError::Autostart(e))) && e@ == msg
}

/// The move stops with success.
pub open spec fn succeeds(m: AutostartMove) -> bool {
    m.phase == AutostartPhase::Finished && m.next == AutostartNext::Done(Ok(()))
}

/// The log line written once the registration is confirmed.
pub open spec fn enabled_log(is_enabled: bool) -> Seq<char> {
    "autostart enable succeeded: plugin_is_enabled="@ + (if is_enabled { "true"@ } else { "false"@ })
}

/// The log line written when the removal failed.
pub open spec fn disable_failed_log(msg: Seq<char>) -> Seq<char> {
    "autostart disable returned error: "@ + msg
}

/// The log line written when the removal succeeded.
pub open spec fn disabled_log() -> Seq<char> {
    "autostart disable succeeded"@
}

/// One step of the registration. An enabled scan registers the application
/// and then queries the registration: a failure of either stops with that
/// error; otherwise the query's answer is logged and the step succeeds. A
/// disabled scan removes the registration: success is logged and succeeds;
/// a failure is logged and the registration queried: if it is still there
/// the removal's error stops the update, otherwise (also when the query
/// fails) the update goes on.
pub fn autostart_step(phase: AutostartPhase, event: AutostartEvent) -> (r: AutostartMove)
    requires
        event_fits(phase, event),
    ensures
        phase == AutostartPhase::Idle && event == AutostartEvent::Start(true) ==>
            calls(r, AutostartCall::Enable, AutostartPhase::AwaitEnable),
        phase == AutostartPhase::Idle && event == AutostartEvent::Start(false) ==>
            calls(r, AutostartCall::Disable, AutostartPhase::AwaitDisable),
        phase == AutostartPhase::AwaitEnable ==> match event {
            AutostartEvent::Changed(Ok(())) => calls(r, AutostartCall::Query, AutostartPhase::AwaitQueryAfterEnable),
            AutostartEvent::Changed(Err(e)) => fails_with(r, e@),
            _ => true,
        },
        phase == AutostartPhase::AwaitQueryAfterEnable ==> match event {
            AutostartEvent::Queried(Ok(b)) => succeeds(r) && (r.log matches Some(l) && l@ == enabled_log(b)),
            AutostartEvent::Queried(Err(e)) => fails_with(r, e@),
            _ => true,
        },
        phase == AutostartPhase::AwaitDisable ==> match event {
            AutostartEvent::Changed(Ok(())) => succeeds(r) && (r.log matches Some(l) && l@ == disabled_log()),
            AutostartEvent::Changed(Err(e)) => {
                &&& r.phase matches AutostartPhase::AwaitQueryAfterFailedDisable(m) && m@ == e@
                &&& r.log matches Some(l) && l@ == disable_failed_log(e@)
                &&& r.next == AutostartNext::Call(AutostartCall::Query)
            },
            _ => true,
        },
        phase matches AutostartPhase::AwaitQueryAfterFailedDisable(m) ==> match event {
            AutostartEvent::Queried(Ok(true)) => fails_with(r, m@),
            AutostartEvent::Queried(_) => succeeds(r) && r.log is None,
            _ => true,
        },
{
    match phase {
        AutostartPhase::Idle => match event {
            AutostartEvent::Start(true) => AutostartMove {
                phase: AutostartPhase::AwaitEnable,
                log: None,
                next: AutostartNext::Call(AutostartCall::Enable),
            },
            _ => AutostartMove {
                phase: AutostartPhase::AwaitDisable,
                log: None,
                next: AutostartNext::Call(AutostartCall::Disable),
            },
        },
        AutostartPhase::AwaitEnable => match event {
            AutostartEvent::Changed(Err(e)) => AutostartMove {
                phase: AutostartPhase::Finished,
                log: None,
                next: AutostartNext::Done(Err(AppError::Autostart(e))),
            },
            _ => AutostartMove {
                phase: AutostartPhase::AwaitQueryAfterEnable,
                log: None,
                next: AutostartNext::Call(AutostartCall::Query),
            },
        },
        AutostartPhase::AwaitQueryAfterEnable => match event {
            AutostartEvent::Queried(Ok(b)) => {
                let mut line = String::from_str("autostart enable succeeded: plugin_is_enabled=");
                if b {
                    line.append("true");
                } else {
                    line.append("false");
                }
                AutostartMove { phase: AutostartPhase::Finished, log: Some(line), next: AutostartNext::Done(Ok(())) }
            },
            AutostartEvent::Queried(Err(e)) => AutostartMove {
                phase: AutostartPhase::Finished,
                log: None,
                next: AutostartNext::Done(Err(AppError::Autostart(e))),
            },
            _ => AutostartMove { phase: AutostartPhase::Finished, log: None, next: AutostartNext::Done(Ok(())) },
        },
        AutostartPhase::AwaitDisable => match event {
            AutostartEvent::Changed(Err(e)) => {
                let mut line = String::from_str("autostart disable returned error: ");
                line.append(e.as_str());
                AutostartMove {
                    phase: AutostartPhase::AwaitQueryAfterFailedDisable(e),
                    log: Some(line),
                    next: AutostartNext::Call(AutostartCall::Query),
                }
            },
            _ => AutostartMove {
                phase: AutostartPhase::Finished,
                log: Some(String::from_str("autostart disable succeeded")),
                next: AutostartNext::Done(Ok(())),
            },
        },
        AutostartPhase::AwaitQueryAfterFailedDisable(m) => match event {
            AutostartEvent::Queried(Ok(true)) => AutostartMove {
                phase: AutostartPhase::Finished,
                log: None,
                next: AutostartNext::Done(Err(AppError::Autostart(m))),
            },
            _ => AutostartMove { phase: AutostartPhase::Finished, log: None, next: AutostartNext::Done(Ok(())) },
        },
        AutostartPhase::Finished => AutostartMove {
            phase: AutostartPhase::Finished,
            log: None,
            next: AutostartNext::Done(Ok(())),
        },
    }
}

} // verus!
