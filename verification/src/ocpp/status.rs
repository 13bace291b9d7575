//! The connection status a backend reports to the status bar.

use vstd::prelude::*;

verus! {

/// The connection status shown in the status bar.
#[derive(Debug, Clone, Copy, PartialEq, Eq, Structural)]
pub enum ConnStatus {
    Disconnected,
    Connected,
    Reconnecting,
}

/// The status of a charging-station backend. `task` is `None` when no connection task was
/// started, else whether that task is still running; `online` whether the websocket is
/// up. A finished task is disconnected; a running one is connected while online and
/// reconnecting otherwise.
pub fn client_connection_status(task: Option<bool>, online: bool) -> (r: ConnStatus)
    ensures
        r == match task {
            None => ConnStatus::Disconnected,
            Some(false) => ConnStatus::Disconnected,
            Some(true) => if online {
                ConnStatus::Connected
            } else {
                ConnStatus::Reconnecting
            },
        },
{
    match task {
        None => ConnStatus::Disconnected,
        Some(false) => ConnStatus::Disconnected,
        Some(true) => if online {
            ConnStatus::Connected
        } else {
            ConnStatus::Reconnecting
        },
    }
}

/// The status of a CSMS backend. `task` is `None` when no listener task was started, else
/// whether that task is still running; `bound` whether the listener holds its port. A
/// running task that has not bound yet is retrying the bind.
pub fn server_connection_status(task: Option<bool>, bound: bool) -> (r: ConnStatus)
    ensures
        r == match task {
            None => ConnStatus::Disconnected,
            Some(false) => ConnStatus::Disconnected,
            Some(true) => if bound {
                ConnStatus::Connected
            } else {
                ConnStatus::Reconnecting
            },
        },
{
    match task {
        None => ConnStatus::Disconnected,
        Some(false) => ConnStatus::Disconnected,
        Some(true) => if bound {
            ConnStatus::Connected
        } else {
            ConnStatus::Reconnecting
        },
    }
}

} // verus!
