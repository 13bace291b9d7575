//! The stop/restart lifecycle of an OCPP view's backend: a stop only signals the running
//! task, and its outcome, with any follow-up start, is handled once the task has ended.
//! Each step here is a decision from the state and an event to the next state and the
//! lines to log; the view performs the stops, starts and log writes.

use vstd::prelude::*;

use crate::ocpp::server::{started_message, started_message_spec, TlsBinding};

verus! {

/// The level of a log line.
#[derive(Debug, Clone, Copy, PartialEq, Eq, Structural)]
pub enum LogLevel {
    Info,
    Warning,
    Error,
}

/// Which view's backend the lifecycle drives.
#[derive(Debug, Clone, Copy, PartialEq, Eq, Structural)]
pub enum Side {
    /// A charging station (websocket client).
    Client,
    /// A CSMS (websocket listener).
    Server,
}

/// The follow-up of a stop in flight: log the outcome, or log it and start again.
#[derive(Debug, Clone, Copy, PartialEq, Eq, Structural)]
pub enum PendingLifecycle {
    Stop,
    Restart,
}

/// What to do when a `:stop` or `:restart` command arrives.
#[derive(Debug, Clone, Copy, PartialEq, Eq, Structural)]
pub enum CommandAction {
    /// A stop is already in flight: its follow-up becomes this command's, and nothing is
    /// asked of the backend again.
    Replace(PendingLifecycle),
    /// Ask the backend to stop.
    RequestStop,
}

/// What the backend answered to a stop request.
pub enum StopRequest {
    /// The running task was signalled to stop.
    Requested,
    /// The backend refused: `not_running` when nothing was running, with the error text.
    Refused { not_running: bool, message: String },
}

/// The next state and actions after a stop request was answered.
pub struct StopRequestStep {
    /// The follow-up now pending, if any.
    pub pending: Option<PendingLifecycle>,
    /// A line for the view's log.
    pub log: Option<(LogLevel, String)>,
    /// The command's own reply line.
    pub reply: Option<(LogLevel, String)>,
    /// Start the backend right away (a restart with nothing running).
    pub start_now: bool,
}

/// A log line as text.
pub open spec fn line_view(l: Option<(LogLevel, String)>) -> Option<(LogLevel, Seq<char>)> {
    match l {
        Some((lv, s)) => Some((lv, s@)),
        None => None,
    }
}

/// On `:stop`/`:restart` (`cmd`) with `pending` in flight: replace its follow-up, or ask
/// the backend to stop when nothing is in flight.
pub fn lifecycle_command(pending: Option<PendingLifecycle>, cmd: PendingLifecycle) -> (r:
    CommandAction)
    ensures
        r == if pending is Some {
            CommandAction::Replace(cmd)
        } else {
            CommandAction::RequestStop
        },
{
    match pending {
        Some(_) => CommandAction::Replace(cmd),
        None => CommandAction::RequestStop,
    }
}

/// The text of a failed stop of `side`'s backend.
pub open spec fn stop_failed_text(side: Side, e: Seq<char>) -> Seq<char> {
    match side {
        Side::Client => "Disconnect failed: "@ + e,
        Side::Server => "CSMS server stop failed: "@ + e,
    }
}

/// The step after `side`'s backend answered the stop request of `cmd`: a requested stop
/// leaves `cmd` pending; a refused `:stop` is logged; a `:restart` with nothing running
/// starts at once, any other refusal is the command's reply.
pub open spec fn stop_requested_spec(
    side: Side,
    cmd: PendingLifecycle,
    requested: bool,
    not_running: bool,
    message: Seq<char>,
) -> (Option<PendingLifecycle>, Option<(LogLevel, Seq<char>)>, Option<(LogLevel, Seq<char>)>, bool) {
    if requested {
        (Some(cmd), None, None, false)
    } else if cmd == PendingLifecycle::Stop {
        (None, Some((LogLevel::Error, stop_failed_text(side, message))), None, false)
    } else if not_running {
        (None, None, None, true)
    } else {
        (None, None, Some((LogLevel::Error, "Restart failed: "@ + message)), false)
    }
}

/// The text `prefix` followed by `tail`.
pub(crate) fn joined(prefix: &str, tail: &str) -> (r: String)
    ensures
        r@ == prefix@ + tail@,
{
    let mut s = String::from_str(prefix);
    s.append(tail);
    s
}

/// The step after `side`'s backend answered the stop request of `cmd`.
pub fn stop_requested(side: Side, cmd: PendingLifecycle, answer: &StopRequest) -> (r: StopRequestStep)
    ensures
        (r.pending, line_view(r.log), line_view(r.reply), r.start_now) == match answer {
            StopRequest::Requested => stop_requested_spec(side, cmd, true, false, Seq::empty()),
            StopRequest::Refused { not_running, message } => stop_requested_spec(
                side,
                cmd,
                false,
                *not_running,
                message@,
            ),
        },
{
    match answer {
        StopRequest::Requested => StopRequestStep {
            pending: Some(cmd),
            log: None,
            reply: None,
            start_now: false,
        },
        StopRequest::Refused { not_running, message } => {
            if cmd == PendingLifecycle::Stop {
                let text = match side {
                    Side::Client => joined("Disconnect failed: ", message.as_str()),
                    Side::Server => joined("CSMS server stop failed: ", message.as_str()),
                };
                StopRequestStep {
                    pending: None,
                    log: Some((LogLevel::Error, text)),
                    reply: None,
                    start_now: false,
                }
            } else if *not_running {
                StopRequestStep { pending: None, log: None, reply: None, start_now: true }
            } else {
                StopRequestStep {
                    pending: None,
                    log: None,
                    reply: Some((LogLevel::Error, joined("Restart failed: ", message.as_str()))),
                    start_now: false,
                }
            }
        },
    }
}

/// The line logged once `side`'s backend has stopped with `outcome` (the error text on
/// failure) while `pending` was waiting, and whether to start again: a `:stop` logs its
/// outcome; a `:restart` logs only a failed stop and always starts again.
pub open spec fn stop_finished_spec(side: Side, pending: PendingLifecycle, outcome: Result<(), Seq<char>>) -> (
    Option<(LogLevel, Seq<char>)>,
    bool,
) {
    match (pending, outcome) {
        (PendingLifecycle::Stop, Ok(_)) => (
            Some(
                (
                    LogLevel::Info,
                    match side {
                        Side::Client => "Disconnected"@,
                        Side::Server => "CSMS server stopped"@,
                    },
                ),
            ),
            false,
        ),
        (PendingLifecycle::Stop, Err(e)) => (Some((LogLevel::Error, stop_failed_text(side, e))), false),
        (PendingLifecycle::Restart, Ok(_)) => (None, true),
        (PendingLifecycle::Restart, Err(e)) => (
            Some(
                (
                    LogLevel::Error,
                    match side {
                        Side::Client => "Reconnect: stop failed: "@ + e,
                        Side::Server => "Restart: stop failed: "@ + e,
                    },
                ),
            ),
            true,
        ),
    }
}

/// The line to log once the backend has stopped while `pending` was waiting, and whether
/// to start it again.
pub fn stop_finished(side: Side, pending: PendingLifecycle, outcome: &Result<(), String>) -> (r: (
    Option<(LogLevel, String)>,
    bool,
))
    ensures
        (line_view(r.0), r.1) == stop_finished_spec(
            side,
            pending,
            match outcome {
                Ok(_) => Ok(()),
                Err(e) => Err(e@),
            },
        ),
{
    match (pending, outcome) {
        (PendingLifecycle::Stop, Ok(())) => {
            let text = match side {
                Side::Client => String::from_str("Disconnected"),
                Side::Server => String::from_str("CSMS server stopped"),
            };
            (Some((LogLevel::Info, text)), false)
        },
        (PendingLifecycle::Stop, Err(e)) => {
            let text = match side {
                Side::Client => joined("Disconnect failed: ", e.as_str()),
                Side::Server => joined("CSMS server stop failed: ", e.as_str()),
            };
            (Some((LogLevel::Error, text)), false)
        },
        (PendingLifecycle::Restart, Ok(())) => (None, true),
        (PendingLifecycle::Restart, Err(e)) => {
            let text = match side {
                Side::Client => joined("Reconnect: stop failed: ", e.as_str()),
                Side::Server => joined("Restart: stop failed: ", e.as_str()),
            };
            (Some((LogLevel::Error, text)), true)
        },
    }
}

/// The line logged after a charging station's restart start: `Reconnecting`, or the error.
pub fn client_restarted(outcome: &Result<(), String>) -> (r: (LogLevel, String))
    ensures
        (r.0, r.1@) == match outcome {
            Ok(_) => (LogLevel::Info, "Reconnecting"@),
            Err(e) => (LogLevel::Error, "Reconnect failed: "@ + e@),
        },
{
    match outcome {
        Ok(()) => (LogLevel::Info, String::from_str("Reconnecting")),
        Err(e) => (LogLevel::Error, joined("Reconnect failed: ", e.as_str())),
    }
}

/// The line logged after a CSMS's restart start: the started message for the TLS mode it
/// bound with, or the error.
pub fn server_restarted(outcome: &Result<TlsBinding, String>) -> (r: (LogLevel, String))
    ensures
        (r.0, r.1@) == match outcome {
            Ok(b) => (LogLevel::Info, started_message_spec(*b, "restarted"@)),
            Err(e) => (LogLevel::Error, "listen failed: "@ + e@),
        },
{
    match outcome {
        Ok(b) => (LogLevel::Info, started_message(*b, "restarted")),
        Err(e) => (LogLevel::Error, joined("listen failed: ", e.as_str())),
    }
}

/// The stop/restart protocol: a stop the runtime accepted leaves the command pending and
/// says nothing yet; a refused one leaves nothing pending, and only a restart of a runtime
/// that was not running starts it at once. Once the stop lands, a restart always starts
/// again while a stop never does, and a failed stop is logged as an error.
pub proof fn lemma_lifecycle_protocol(
    side: Side,
    cmd: PendingLifecycle,
    not_running: bool,
    message: Seq<char>,
    outcome: Result<(), Seq<char>>,
)
    ensures
        stop_requested_spec(side, cmd, true, not_running, message) == (
            Some(cmd),
            None::<(LogLevel, Seq<char>)>,
            None::<(LogLevel, Seq<char>)>,
            false,
        ),
        stop_requested_spec(side, cmd, false, not_running, message).0 is None,
        stop_requested_spec(side, cmd, false, not_running, message).3 == (cmd
            == PendingLifecycle::Restart && not_running),
        stop_finished_spec(side, cmd, outcome).1 == (cmd == PendingLifecycle::Restart),
        outcome is Err ==> (stop_finished_spec(side, cmd, outcome).0 matches Some((lv, _)) && lv
            == LogLevel::Error),
        cmd == PendingLifecycle::Stop && outcome is Ok ==> (stop_finished_spec(side, cmd, outcome).0 matches Some((lv, _))
            && lv == LogLevel::Info),
        cmd == PendingLifecycle::Restart && outcome is Ok ==> stop_finished_spec(side, cmd, outcome).0 is None,
{
}

} // verus!
