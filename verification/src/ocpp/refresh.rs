//! The decisions a charging-station view takes on each refresh tick: how a confirmed setup
//! is applied, when the automatic Heartbeat and MeterValues go out, and which recorded
//! messages are new for the persistent log. The view carries out what they decide.

use vstd::prelude::*;

use crate::ocpp::lifecycle::{joined, Side};
use crate::ocpp::message::{DEFAULT_HEARTBEAT_SECS, TICKS_PER_SEC};

verus! {

/// How a confirmed setup of a charging-station view is applied.
#[derive(Debug, Clone, Copy, PartialEq, Eq, Structural)]
pub enum SetupSwitch {
    /// The role became CSMS: stop, and replace the view by a CSMS view.
    ReplaceWithServer,
    /// The OCPP version changed: stop, and replace the view by one of the new version,
    /// warning that kept scripts may call actions the new version lacks.
    ReplaceWithClient { warn_scripts: bool },
    /// Anything else: stop, update the view in place, and start again only when it was
    /// online.
    UpdateInPlace { restart: bool },
}

/// How a confirmed setup is applied: a role change to CSMS or a version change replaces
/// the view, anything else updates it in place.
pub fn client_setup_switch(to_server: bool, version_changed: bool, has_scripts: bool, was_online: bool) -> (r:
    SetupSwitch)
    ensures
        r == if to_server {
            SetupSwitch::ReplaceWithServer
        } else if version_changed {
            SetupSwitch::ReplaceWithClient { warn_scripts: has_scripts }
        } else {
            SetupSwitch::UpdateInPlace { restart: was_online }
        },
{
    if to_server {
        SetupSwitch::ReplaceWithServer
    } else if version_changed {
        SetupSwitch::ReplaceWithClient { warn_scripts: has_scripts }
    } else {
        SetupSwitch::UpdateInPlace { restart: was_online }
    }
}

/// How a CSMS view applies a confirmed setup: a switch to the client role replaces it
/// with a client view, a protocol-version change with a server view of the new version;
/// otherwise it updates in place and rebinds through its own start-up path.
pub fn server_setup_switch(to_client: bool, version_changed: bool) -> (r: SetupSwitch)
    ensures
        r == if to_client {
            SetupSwitch::ReplaceWithClient { warn_scripts: false }
        } else if version_changed {
            SetupSwitch::ReplaceWithServer
        } else {
            SetupSwitch::UpdateInPlace { restart: false }
        },
{
    if to_client {
        SetupSwitch::ReplaceWithClient { warn_scripts: false }
    } else if version_changed {
        SetupSwitch::ReplaceWithServer
    } else {
        SetupSwitch::UpdateInPlace { restart: false }
    }
}

/// Whether `switch`, taken by a view on `side`, changes the view's role.
pub open spec fn switches_role(side: Side, switch: SetupSwitch) -> bool {
    match (side, switch) {
        (Side::Client, SetupSwitch::ReplaceWithServer) => true,
        (Side::Server, SetupSwitch::ReplaceWithClient { .. }) => true,
        _ => false,
    }
}

/// The error line when stopping the runtime ahead of `switch` fails with `e`.
pub open spec fn setup_stop_failed_spec(side: Side, switch: SetupSwitch, e: Seq<char>) -> Seq<char> {
    if switches_role(side, switch) {
        "Stop before role switch failed: "@ + e
    } else if switch is UpdateInPlace {
        "Stop for settings update failed: "@ + e
    } else {
        "Stop before version switch failed: "@ + e
    }
}

/// The error line when stopping the runtime ahead of `switch` fails with `e`.
pub fn setup_stop_failed(side: Side, switch: SetupSwitch, e: &str) -> (r: String)
    ensures
        r@ == setup_stop_failed_spec(side, switch, e@),
{
    let role = match (side, switch) {
        (Side::Client, SetupSwitch::ReplaceWithServer) => true,
        (Side::Server, SetupSwitch::ReplaceWithClient { .. }) => true,
        _ => false,
    };
    if role {
        joined("Stop before role switch failed: ", e)
    } else if let SetupSwitch::UpdateInPlace { .. } = switch {
        joined("Stop for settings update failed: ", e)
    } else {
        joined("Stop before version switch failed: ", e)
    }
}

/// The Heartbeat cadence in seconds: the CSMS's interval, else the default, at least 1.
pub open spec fn cadence_secs(interval: Option<u64>) -> u64 {
    let s = match interval {
        Some(i) => i,
        None => DEFAULT_HEARTBEAT_SECS,
    };
    if s < 1 {
        1
    } else {
        s
    }
}

/// The heartbeat step of a tick: `(tick, send, lost)`. When the connection was lost since
/// the last tick the counter restarts (and `lost` asks for the warning); while online the
/// counter advances (wrapping) and, once it reaches the cadence in ticks, restarts and a
/// Heartbeat is sent.
pub open spec fn heartbeat_spec(tick: u32, interval: Option<u64>, was_online: bool, online: bool) -> (
    u32,
    bool,
    bool,
) {
    let lost = was_online && !online;
    let t = if lost {
        0u32
    } else {
        tick
    };
    if online {
        let next = if t == u32::MAX {
            0u32
        } else {
            (t + 1) as u32
        };
        if next >= (cadence_secs(interval) as u32) * TICKS_PER_SEC {
            (0, true, lost)
        } else {
            (next, false, lost)
        }
    } else {
        (t, false, lost)
    }
}

/// The automatic Heartbeat goes out every `interval` seconds (30 s by default, at least
/// 1 s) counted in ticks of a tenth of a second while online: the tick that reaches the
/// cadence sends and restarts the count, every other online tick counts one up, nothing
/// is sent offline, and losing the connection restarts the count and is reported.
pub proof fn lemma_heartbeat_cadence(tick: u32, interval: Option<u64>, was_online: bool, online: bool)
    requires
        tick < u32::MAX,
    ensures
        ({
            let (t, send, lost) = heartbeat_spec(tick, interval, was_online, online);
            let limit = (cadence_secs(interval) as u32) * TICKS_PER_SEC;
            &&& interval is None ==> cadence_secs(interval) == 30
            &&& cadence_secs(interval) >= 1
            &&& lost == (was_online && !online)
            &&& !online ==> !send && t == (if lost { 0 } else { tick })
            &&& online && !lost ==> (send == (tick + 1 >= limit)) && (send ==> t == 0) && (!send ==> t
                == tick + 1)
        }),
{
}

/// The heartbeat step of a refresh tick.
pub fn heartbeat_tick(tick: u32, interval: Option<u64>, was_online: bool, online: bool) -> (r: (
    u32,
    bool,
    bool,
))
    requires
        (cadence_secs(interval) as u32) * TICKS_PER_SEC <= u32::MAX,
    ensures
        r == heartbeat_spec(tick, interval, was_online, online),
{
    let lost = was_online && !online;
    let mut t = if lost {
        0
    } else {
        tick
    };
    if online {
        let secs = match interval {
            Some(i) => i,
            None => DEFAULT_HEARTBEAT_SECS,
        };
        let secs = if secs < 1 {
            1
        } else {
            secs
        };
        t = t.wrapping_add(1);
        let limit = (secs as u32) * TICKS_PER_SEC;
        if t >= limit {
            (0, true, lost)
        } else {
            (t, false, lost)
        }
    } else {
        (t, false, lost)
    }
}

/// The MeterValues step of a tick: `(tick, send)`. While online with a live transaction the
/// counter advances (wrapping), and every 50th tick (about every 5 s) the meter values of
/// the live connectors go out.
pub fn meter_tick(tick: u32, any_active: bool, online: bool) -> (r: (u32, bool))
    ensures
        r == if any_active && online {
            let next = if tick == u32::MAX {
                0u32
            } else {
                (tick + 1) as u32
            };
            (next, next % 50 == 0)
        } else {
            (tick, false)
        },
{
    if any_active && online {
        let next = tick.wrapping_add(1);
        (next, next % 50 == 0)
    } else {
        (tick, false)
    }
}

/// The positions of the messages newer than the log cursor `logged`, in order, and the
/// cursor after logging them: the largest id seen, or `logged` when none is new.
pub open spec fn new_messages_spec(seqs: Seq<u64>, logged: u64) -> (Seq<int>, u64)
    decreases seqs.len(),
{
    if seqs.len() == 0 {
        (Seq::empty(), logged)
    } else {
        let (idx, cur) = new_messages_spec(seqs.drop_last(), logged);
        let s = seqs.last();
        if s > logged {
            (idx.push(seqs.len() - 1), if s > cur {
                s
            } else {
                cur
            })
        } else {
            (idx, cur)
        }
    }
}

/// Which recorded messages (by id, in buffer order) the persistent log has not seen yet,
/// and the log cursor afterwards.
pub fn new_messages(seqs: &[u64], logged: u64) -> (r: (Vec<usize>, u64))
    ensures
        r.0@.map_values(|i: usize| i as int) == new_messages_spec(seqs@, logged).0,
        r.1 == new_messages_spec(seqs@, logged).1,
{
    let mut idx: Vec<usize> = Vec::new();
    let mut cur = logged;
    let mut i: usize = 0;
    while i < seqs.len()
        invariant
            i <= seqs@.len(),
            idx@.map_values(|k: usize| k as int) == new_messages_spec(seqs@.take(i as int), logged).0,
            cur == new_messages_spec(seqs@.take(i as int), logged).1,
        decreases seqs@.len() - i,
    {
        assert(seqs@.take(i + 1).drop_last() =~= seqs@.take(i as int));
        let s = seqs[i];
        if s > logged {
            let ghost before = idx@;
            idx.push(i);
            assert(idx@.map_values(|k: usize| k as int) =~= before.map_values(|k: usize| k as int).push(
                i as int,
            ));
            if s > cur {
                cur = s;
            }
        }
        i = i + 1;
    }
    assert(seqs@.take(seqs@.len() as int) =~= seqs@);
    (idx, cur)
}


/// Each message is teed to the log at most once: the messages picked are exactly those
/// newer than the cursor, in buffer order, and the new cursor is at least every id picked
/// and never below the old one, so the next tick picks none of them again.
pub proof fn lemma_new_messages(seqs: Seq<u64>, logged: u64)
    ensures
        new_messages_spec(seqs, logged).1 >= logged,
        forall|k: int|
            0 <= k < new_messages_spec(seqs, logged).0.len() ==> {
                let j = #[trigger] new_messages_spec(seqs, logged).0[k];
                0 <= j < seqs.len() && seqs[j] > logged && seqs[j] <= new_messages_spec(seqs, logged).1
            },
        forall|a: int, b: int|
            0 <= a < b < new_messages_spec(seqs, logged).0.len() ==> #[trigger] new_messages_spec(seqs, logged).0[a]
                < #[trigger] new_messages_spec(seqs, logged).0[b],
        forall|j: int|
            0 <= j < seqs.len() && seqs[j] > logged ==> new_messages_spec(seqs, logged).0.contains(j),
    decreases seqs.len(),
{
    if seqs.len() > 0 {
        let d = seqs.drop_last();
        lemma_new_messages(d, logged);
        let (idx, cur) = new_messages_spec(d, logged);
        let r = new_messages_spec(seqs, logged);
        assert forall|k: int| 0 <= k < r.0.len() implies {
            let j = #[trigger] r.0[k];
            0 <= j < seqs.len() && seqs[j] > logged && seqs[j] <= r.1
        } by {
            if k < idx.len() {
                assert(r.0[k] == idx[k]);
                assert(seqs[idx[k]] == d[idx[k]]);
            }
        }
        assert forall|a: int, b: int| 0 <= a < b < r.0.len() implies #[trigger] r.0[a] < #[trigger] r.0[b] by {
            if b < idx.len() {
                assert(r.0[a] == idx[a] && r.0[b] == idx[b]);
            } else {
                assert(r.0[a] == idx[a]);
            }
        }
        assert forall|j: int| 0 <= j < seqs.len() && seqs[j] > logged implies r.0.contains(j) by {
            if j < seqs.len() - 1 {
                assert(d[j] == seqs[j]);
                assert(idx.contains(j));
                let k = choose|k: int| 0 <= k < idx.len() && idx[k] == j;
                assert(r.0[k] == j);
            } else {
                assert(r.0[r.0.len() - 1] == j);
            }
        }
    }
}
} // verus!
