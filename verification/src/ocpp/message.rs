use vstd::prelude::*;

use crate::ocpp::calendar::civil;
use crate::text::{dec_padded, decimal_padded};

verus! {

/// Number of `refresh` ticks per second (the UI ticks at ~100ms), used to convert
/// second-based cadences into tick counts.
pub const TICKS_PER_SEC: u32 = 10;

/// Fallback heartbeat cadence (seconds) used until the CSMS supplies one in its
/// BootNotification response (or when it sends `0`).
pub const DEFAULT_HEARTBEAT_SECS: u64 = 30;

/// Largest number of messages kept in an in-memory message-log buffer. Older messages
/// are evicted first.
pub const MAX_MESSAGES: usize = 200;

/// Direction of a recorded OCPP message relative to this charging station.
#[derive(Debug, Clone, Copy, PartialEq, Eq, Structural)]
pub enum Dir {
    /// Received from the CSMS (an inbound Call, or a reply to our Call).
    In,
    /// Sent to the CSMS (our Call, or our reply to an inbound Call).
    Out,
}

impl Dir {
    /// The column label of the direction.
    pub fn label(self) -> (r: &'static str)
        ensures
            self == Dir::In ==> r@ == "Inbound"@,
            self == Dir::Out ==> r@ == "Outbound"@,
    {
        match self {
            Dir::In => "Inbound",
            Dir::Out => "Outbound",
        }
    }
}

/// The message buffer after `msg` was pushed onto `buf` and the oldest entries beyond
/// [`MAX_MESSAGES`] were evicted.
pub open spec fn capped<T>(buf: Seq<T>, msg: T) -> Seq<T> {
    let pushed = buf.push(msg);
    if pushed.len() > MAX_MESSAGES {
        pushed.skip(pushed.len() - MAX_MESSAGES)
    } else {
        pushed
    }
}

/// Push a message into a buffer, evicting the oldest ones once it exceeds
/// [`MAX_MESSAGES`].
pub fn push_capped<T>(buf: &mut Vec<T>, msg: T)
    ensures
        final(buf)@ == capped(old(buf)@, msg),
{
    buf.push(msg);
    let ghost pushed = buf@;
    if buf.len() > MAX_MESSAGES {
        let overflow = buf.len() - MAX_MESSAGES;
        let mut k: usize = 0;
        while k < overflow
            invariant
                k <= overflow,
                overflow == pushed.len() - MAX_MESSAGES,
                buf@ == pushed.skip(k as int),
            decreases overflow - k,
        {
            buf.remove(0);
            k = k + 1;
            assert(buf@ =~= pushed.skip(k as int));
        }
    }
}

/// The monotonic message sequence: each message gets the next id, so a view can tee
/// only the messages it has not logged yet even as the bounded buffer evicts older
/// ones. Starts at 1 so a cursor initialised to 0 logs the first message.
pub struct MsgSeq {
    next: u64,
}

impl MsgSeq {
    /// The id the next message gets.
    pub closed spec fn peek(&self) -> u64 {
        self.next
    }

    /// A fresh sequence, starting at 1.
    pub fn new() -> (r: Self)
        ensures
            r.peek() == 1,
    {
        MsgSeq { next: 1 }
    }
}

/// The id that follows `id` (wrapping around after `u64::MAX`).
pub open spec fn following_id(id: u64) -> u64 {
    if id == u64::MAX {
        0
    } else {
        (id + 1) as u64
    }
}

/// Take the next message id.
pub fn next_seq(seq: &mut MsgSeq) -> (r: u64)
    ensures
        r == old(seq).peek(),
        final(seq).peek() == following_id(old(seq).peek()),
{
    let r = seq.next;
    seq.next = seq.next.wrapping_add(1);
    r
}

/// Message ids are strictly increasing: the ids of `n` consecutive takes starting at `id`
/// are `id, id + 1, ..., id + n - 1` as long as the counter does not pass `u64::MAX`.
pub proof fn lemma_ids_increase(id: u64, n: nat)
    requires
        id + n <= u64::MAX + 1,
        n > 0,
    ensures
        forall|k: nat| #![trigger ids_after(id, k)] k < n ==> ids_after(id, k) == id + k,
    decreases n,
{
    if n > 1 {
        lemma_ids_increase(id, (n - 1) as nat);
        assert forall|k: nat| #![trigger ids_after(id, k)] k < n implies ids_after(id, k) == id + k by {
            if k == n - 1 && k > 0 {
                assert(ids_after(id, (k - 1) as nat) == id + k - 1);
            }
        }
    }
}

/// The id taken after `k` earlier takes from a sequence whose next id is `id`.
pub open spec fn ids_after(id: u64, k: nat) -> u64
    decreases k,
{
    if k == 0 {
        id
    } else {
        following_id(ids_after(id, (k - 1) as nat))
    }
}

/// The message buffer stays within [`MAX_MESSAGES`] and keeps the newest message last,
/// with the older ones in order before it.
pub proof fn lemma_capped<T>(buf: Seq<T>, msg: T)
    requires
        buf.len() <= MAX_MESSAGES,
    ensures
        capped(buf, msg).len() <= MAX_MESSAGES,
        capped(buf, msg).last() == msg,
        capped(buf, msg) == buf.push(msg).skip(buf.push(msg).len() - capped(buf, msg).len()),
{
    let pushed = buf.push(msg);
    if pushed.len() <= MAX_MESSAGES {
        assert(pushed.skip(0) =~= pushed);
    }
}

/// Days since the Unix epoch to a Gregorian (year, month, day) triple (Howard Hinnant);
/// the year is truncated to 32 bits.
pub fn civil_from_days(z: i64) -> (r: (i32, u32, u32))
    requires
        i64::MIN + 146096 - 719468 <= z <= i64::MAX - 719468,
    ensures
        r.0 == civil(z as int).0 as i32,
        r.1 == civil(z as int).1,
        r.2 == civil(z as int).2,
{
    let z = z + 719468;
    let zz: i64 = if z >= 0 { z } else { z - 146096 };
    let era: i64 = zz / 146097;
    assert(era == z as int / 146097);
    let doe = (z - era * 146097) as u64;
    let yoe = (doe - doe / 1460 + doe / 36524 - doe / 146096) / 365;
    let y = yoe as i64 + era * 400;
    let doy = doe - (365 * yoe + yoe / 4 - yoe / 100);
    let mp = (5 * doy + 2) / 153;
    let d = doy - (153 * mp + 2) / 5 + 1;
    let m = if mp < 10 { mp + 3 } else { mp - 9 };
    let y = if m <= 2 { y + 1 } else { y };
    (y as i32, m as u32, d as u32)
}

/// A year as `format!("{year:04}")` renders it: at least four characters, zero-padded
/// after the sign.
pub open spec fn year_text(y: i32) -> Seq<char> {
    if y < 0 {
        seq!['-'] + dec_padded((-y) as nat, 3)
    } else {
        dec_padded(y as nat, 4)
    }
}

/// The RFC3339 UTC rendering `YYYY-MM-DDTHH:MM:SSZ` of a Unix-millisecond timestamp.
pub open spec fn rfc3339_spec(ms: u64) -> Seq<char> {
    let t = ms / 1000;
    let date = civil((t / 86400) as int);
    year_text(date.0 as i32) + seq!['-'] + dec_padded(date.1 as u32 as nat, 2) + seq!['-']
        + dec_padded(date.2 as u32 as nat, 2) + seq!['T'] + dec_padded(((t / 3600) % 24) as nat, 2)
        + seq![':'] + dec_padded(((t / 60) % 60) as nat, 2) + seq![':'] + dec_padded(
        (t % 60) as nat,
        2,
    ) + seq!['Z']
}

/// The year rendered as `format!("{year:04}")` does.
fn year_string(y: i32) -> (r: String)
    ensures
        r@ == year_text(y),
{
    if y < 0 {
        let mut s = String::new();
        proof {
            reveal_strlit("-");
        }
        s.append("-");
        let mag = (-(y as i64)) as u64;
        let digits = decimal_padded(mag, 3);
        s.append(digits.as_str());
        assert(s@ =~= year_text(y));
        s
    } else {
        decimal_padded(y as u64, 4)
    }
}

/// Format a Unix-millisecond timestamp as an RFC3339 UTC string
/// (`YYYY-MM-DDTHH:MM:SSZ`).
pub fn rfc3339(ms: u64) -> (r: String)
    ensures
        r@ == rfc3339_spec(ms),
{
    let total_secs = ms / 1000;
    let h = (total_secs / 3600) % 24;
    let m = (total_secs / 60) % 60;
    let s = total_secs % 60;
    let (year, month, day) = civil_from_days((total_secs / 86400) as i64);
    proof {
        reveal_strlit("-");
        reveal_strlit("T");
        reveal_strlit(":");
        reveal_strlit("Z");
    }
    let mut out = year_string(year);
    out.append("-");
    out.append(decimal_padded(month as u64, 2).as_str());
    out.append("-");
    out.append(decimal_padded(day as u64, 2).as_str());
    out.append("T");
    out.append(decimal_padded(h, 2).as_str());
    out.append(":");
    out.append(decimal_padded(m, 2).as_str());
    out.append(":");
    out.append(decimal_padded(s, 2).as_str());
    out.append("Z");
    assert(out@ =~= rfc3339_spec(ms));
    out
}

} // verus!
