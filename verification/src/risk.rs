//! Brute-force protection. Failed logins are counted per e-mail, per client
//! address and per pair of both inside a sliding window; a count that reaches
//! its threshold locks that dimension for a while, and a login is refused
//! while any of its dimensions is locked.

use vstd::prelude::*;

use crate::auth::{
    EMAIL_IP_LOCK_SECONDS, EMAIL_IP_LOCK_THRESHOLD, EMAIL_LOCK_SECONDS, EMAIL_LOCK_THRESHOLD,
    IP_LOCK_SECONDS, IP_LOCK_THRESHOLD, RISK_WINDOW_SECONDS,
};
use crate::text::{chars_of, string_from_chars};

verus! {

/// What failed logins are counted against.
#[derive(Debug, Clone, Copy, PartialEq, Eq, Structural)]
pub enum Dimension {
    Email,
    Ip,
    EmailIp,
}

impl Dimension {
    /// The name under which the dimension is stored.
    pub fn as_str(&self) -> (res: &'static str)
        ensures
            res@ == (match self {
                Dimension::Email => "email"@,
                Dimension::Ip => "ip"@,
                Dimension::EmailIp => "email_ip"@,
            }),
    {
        match self {
            Dimension::Email => "email",
            Dimension::Ip => "ip",
            Dimension::EmailIp => "email_ip",
        }
    }
}

/// Failures within the window that lock a dimension.
pub open spec fn lock_threshold(d: Dimension) -> int {
    match d {
        Dimension::EmailIp => EMAIL_IP_LOCK_THRESHOLD as int,
        Dimension::Email => EMAIL_LOCK_THRESHOLD as int,
        Dimension::Ip => IP_LOCK_THRESHOLD as int,
    }
}

/// How long a lock of the dimension lasts, in seconds.
pub open spec fn lock_seconds(d: Dimension) -> int {
    match d {
        Dimension::EmailIp => EMAIL_IP_LOCK_SECONDS as int,
        Dimension::Email => EMAIL_LOCK_SECONDS as int,
        Dimension::Ip => IP_LOCK_SECONDS as int,
    }
}

/// The threshold and lock duration of a dimension.
pub fn lock_policy(dimension: Dimension) -> (res: (i64, i64))
    ensures
        res.0 == lock_threshold(dimension),
        res.1 == lock_seconds(dimension),
{
    match dimension {
        Dimension::EmailIp => (EMAIL_IP_LOCK_THRESHOLD, EMAIL_IP_LOCK_SECONDS),
        Dimension::Email => (EMAIL_LOCK_THRESHOLD, EMAIL_LOCK_SECONDS),
        Dimension::Ip => (IP_LOCK_THRESHOLD, IP_LOCK_SECONDS),
    }
}

/// The key of the e-mail and address pair: both joined by `|`.
pub open spec fn email_ip_key_spec(email: Seq<char>, ip: Seq<char>) -> Seq<char> {
    email + seq!['|'] + ip
}

/// The key under which an e-mail and address pair is counted.
pub fn email_ip_key(email: &str, ip: &str) -> (res: String)
    ensures
        res@ == email_ip_key_spec(email@, ip@),
{
    let mut cs = chars_of(email);
    cs.push('|');
    let mut rest = chars_of(ip);
    cs.append(&mut rest);
    assert(cs@ =~= email_ip_key_spec(email@, ip@));
    string_from_chars(cs.as_slice())
}

/// A counter to update after a login attempt: its dimension, its key and
/// whether only failures since the last success count.
#[derive(Debug, Clone)]
pub struct RiskTarget {
    pub dimension: Dimension,
    pub key: String,
    pub consecutive_failures_only: bool,
}

/// A target seen as plain values.
pub open spec fn target_view(t: RiskTarget) -> (Dimension, Seq<char>, bool) {
    (t.dimension, t.key@, t.consecutive_failures_only)
}

/// The counters a failed login updates, in order: the address, the e-mail,
/// and the pair of both (which counts consecutive failures only). Without a
/// valid e-mail only the address counts.
pub open spec fn failure_targets_spec(email: Option<Seq<char>>, ip: Option<Seq<char>>) -> Seq<(Dimension, Seq<char>, bool)> {
    let by_ip = match ip {
        Some(i) => seq![(Dimension::Ip, i, false)],
        None => Seq::empty(),
    };
    let by_email = match email {
        Some(e) => match ip {
            Some(i) => seq![(Dimension::Email, e, false), (Dimension::EmailIp, email_ip_key_spec(e, i), true)],
            None => seq![(Dimension::Email, e, false)],
        },
        None => Seq::empty(),
    };
    by_ip + by_email
}

fn opt_str(o: Option<&str>) -> (res: Option<String>)
    ensures
        match o {
            Some(s) => res matches Some(r) && r@ == s@,
            None => res is None,
        },
{
    match o {
        Some(s) => Some(s.to_owned()),
        None => None,
    }
}

/// The counters that a failed login updates.
pub fn failure_targets(email: Option<&str>, ip: Option<&str>) -> (res: Vec<RiskTarget>)
    ensures
        res@.map_values(|t: RiskTarget| target_view(t)) == failure_targets_spec(
            match email { Some(e) => Some(e@), None => None },
            match ip { Some(i) => Some(i@), None => None },
        ),
{
    let mut res: Vec<RiskTarget> = Vec::new();
    if let Some(ip) = ip {
        res.push(RiskTarget { dimension: Dimension::Ip, key: ip.to_owned(), consecutive_failures_only: false });
    }
    if let Some(email) = email {
        res.push(RiskTarget { dimension: Dimension::Email, key: email.to_owned(), consecutive_failures_only: false });
        if let Some(ip) = ip {
            res.push(RiskTarget {
                dimension: Dimension::EmailIp,
                key: email_ip_key(email, ip),
                consecutive_failures_only: true,
            });
        }
    }
    assert(res@.map_values(|t: RiskTarget| target_view(t)) =~= failure_targets_spec(
        match email { Some(e) => Some(e@), None => None },
        match ip { Some(i) => Some(i@), None => None },
    ));
    res
}

/// The counter that a successful login resets: the pair of the e-mail and
/// the address, when the address is known.
pub fn success_target(email: &str, ip: Option<&str>) -> (res: Option<RiskTarget>)
    ensures
        match ip {
            Some(i) => res matches Some(t) && target_view(t) == (Dimension::EmailIp, email_ip_key_spec(email@, i@), true),
            None => res is None,
        },
{
    match ip {
        Some(ip) => Some(RiskTarget {
            dimension: Dimension::EmailIp,
            key: email_ip_key(email, ip),
            consecutive_failures_only: true,
        }),
        None => None,
    }
}

/// The locks a login must check, in order: the e-mail, the address and the
/// pair of both, each when its parts are known.
pub open spec fn lock_lookups_spec(email: Option<Seq<char>>, ip: Option<Seq<char>>) -> Seq<(Dimension, Seq<char>)> {
    let by_email = match email {
        Some(e) => seq![(Dimension::Email, e)],
        None => Seq::empty(),
    };
    let by_ip = match ip {
        Some(i) => seq![(Dimension::Ip, i)],
        None => Seq::empty(),
    };
    let by_pair = match (email, ip) {
        (Some(e), Some(i)) => seq![(Dimension::EmailIp, email_ip_key_spec(e, i))],
        _ => Seq::empty(),
    };
    by_email + by_ip + by_pair
}

/// The locks a login must check.
pub fn lock_lookups(email: Option<&str>, ip: Option<&str>) -> (res: Vec<(Dimension, String)>)
    ensures
        res@.map_values(|p: (Dimension, String)| (p.0, p.1@)) == lock_lookups_spec(
            match email { Some(e) => Some(e@), None => None },
            match ip { Some(i) => Some(i@), None => None },
        ),
{
    let mut res: Vec<(Dimension, String)> = Vec::new();
    if let Some(email) = email {
        res.push((Dimension::Email, email.to_owned()));
    }
    if let Some(ip) = ip {
        res.push((Dimension::Ip, ip.to_owned()));
    }
    if let (Some(email), Some(ip)) = (email, ip) {
        res.push((Dimension::EmailIp, email_ip_key(email, ip)));
    }
    assert(res@.map_values(|p: (Dimension, String)| (p.0, p.1@)) =~= lock_lookups_spec(
        match email { Some(e) => Some(e@), None => None },
        match ip { Some(i) => Some(i@), None => None },
    ));
    res
}

/// Seconds a lock still holds at `now`: none without a lock, never negative.
pub open spec fn lock_remaining_spec(locked_until: Option<int>, now: int) -> int {
    match locked_until {
        Some(u) => if u - now > 0 {
            u - now
        } else {
            0
        },
        None => 0,
    }
}

/// Seconds a stored lock still holds at `now`.
pub fn lock_remaining(locked_until: Option<i64>, now: i64) -> (res: i64)
    requires
        locked_until matches Some(u) ==> i64::MIN <= u - now <= i64::MAX,
    ensures
        res == lock_remaining_spec(
            match locked_until { Some(u) => Some(u as int), None => None },
            now as int,
        ),
{
    match locked_until {
        Some(value) => {
            let d = value - now;
            if d > 0 {
                d
            } else {
                0
            }
        },
        None => 0,
    }
}

/// The largest of zero and the given numbers.
pub open spec fn max_or_zero(s: Seq<i64>) -> int
    decreases s.len(),
{
    if s.len() == 0 {
        0
    } else {
        let m = max_or_zero(s.drop_last());
        if s.last() > m {
            s.last() as int
        } else {
            m
        }
    }
}

proof fn lemma_max_or_zero(s: Seq<i64>)
    ensures
        max_or_zero(s) >= 0,
        forall|i: int| 0 <= i < s.len() ==> s[i] <= max_or_zero(s),
        max_or_zero(s) == 0 || exists|i: int| 0 <= i < s.len() && s[i] == max_or_zero(s),
    decreases s.len(),
{
    if s.len() > 0 {
        let t = s.drop_last();
        lemma_max_or_zero(t);
        assert forall|i: int| 0 <= i < s.len() implies s[i] <= max_or_zero(s) by {
            if i < s.len() - 1 {
                assert(s[i] == t[i]);
            }
        }
        if max_or_zero(s) != 0 && max_or_zero(s) == max_or_zero(t) {
            let i = choose|i: int| 0 <= i < t.len() && t[i] == max_or_zero(t);
            assert(s[i] == t[i]);
        }
    }
}

/// How long a login must wait given the remaining time of each lock it is
/// subject to: the longest, when some lock still holds.
pub fn retry_after(remaining: &[i64]) -> (res: Option<i64>)
    ensures
        match res {
            Some(r) => r > 0 && r == max_or_zero(remaining@),
            None => max_or_zero(remaining@) == 0,
        },
        res is None <==> forall|i: int| 0 <= i < remaining@.len() ==> remaining@[i] <= 0,
{
    let mut m: i64 = 0;
    let mut i: usize = 0;
    while i < remaining.len()
        invariant
            i <= remaining@.len(),
            m == max_or_zero(remaining@.take(i as int)),
        decreases remaining@.len() - i,
    {
        assert(remaining@.take(i + 1).drop_last() =~= remaining@.take(i as int));
        if remaining[i] > m {
            m = remaining[i];
        }
        i = i + 1;
    }
    assert(remaining@.take(remaining@.len() as int) =~= remaining@);
    proof {
        lemma_max_or_zero(remaining@);
    }
    if m > 0 {
        Some(m)
    } else {
        None
    }
}

/// How a login attempt ended.
#[derive(Debug, Clone, Copy, PartialEq, Eq, Structural)]
pub enum Outcome {
    Success,
    Failure,
}

impl Outcome {
    /// The name under which the outcome is stored.
    pub fn as_str(&self) -> (res: &'static str)
        ensures
            res@ == (match self {
                Outcome::Success => "success"@,
                Outcome::Failure => "failure"@,
            }),
    {
        match self {
            Outcome::Success => "success",
            Outcome::Failure => "failure",
        }
    }
}

/// A recorded login attempt of one counter.
#[derive(Debug, Clone, Copy)]
pub struct RiskEvent {
    pub outcome: Outcome,
    pub created_at: i64,
}

/// The stored state of one counter.
#[derive(Debug, Clone, Copy, PartialEq, Eq, Structural)]
pub struct RiskState {
    pub fail_count: i64,
    pub window_start_at: i64,
    pub locked_until: Option<i64>,
}

/// The time of the latest success at or after `start`.
pub open spec fn last_success(events: Seq<RiskEvent>, start: int) -> Option<int>
    decreases events.len(),
{
    if events.len() == 0 {
        None
    } else {
        let rest = last_success(events.drop_last(), start);
        let e = events.last();
        if e.outcome == Outcome::Success && e.created_at >= start {
            match rest {
                Some(m) => if e.created_at > m {
                    Some(e.created_at as int)
                } else {
                    Some(m)
                },
                None => Some(e.created_at as int),
            }
        } else {
            rest
        }
    }
}

/// The failure counts at or after `start`, and after `after` when given.
pub open spec fn counted_failures(events: Seq<RiskEvent>, start: int, after: Option<int>) -> int
    decreases events.len(),
{
    if events.len() == 0 {
        0
    } else {
        let e = events.last();
        let counts = e.outcome == Outcome::Failure && e.created_at >= start && match after {
            Some(a) => e.created_at > a,
            None => true,
        };
        counted_failures(events.drop_last(), start, after) + if counts {
            1int
        } else {
            0
        }
    }
}

/// The state of a counter after an attempt at `now`, given its events: the
/// window starts `RISK_WINDOW_SECONDS` before `now`; the failures in it
/// count (only those after the window's last success when so asked); a
/// count at the threshold locks the counter for its lock duration.
pub open spec fn risk_state_spec(dimension: Dimension, events: Seq<RiskEvent>, now: int, consecutive_failures_only: bool) -> (int, int, Option<int>) {
    let start = now - RISK_WINDOW_SECONDS;
    let after = if consecutive_failures_only {
        last_success(events, start)
    } else {
        None
    };
    let count = counted_failures(events, start, after);
    (count, start, if count >= lock_threshold(dimension) {
        Some(now + lock_seconds(dimension))
    } else {
        None
    })
}

proof fn lemma_counted_failures_bounds(events: Seq<RiskEvent>, start: int, after: Option<int>)
    ensures
        0 <= counted_failures(events, start, after) <= events.len(),
    decreases events.len(),
{
    if events.len() > 0 {
        lemma_counted_failures_bounds(events.drop_last(), start, after);
    }
}

/// The new state of a counter after a login attempt at `now`.
pub fn next_risk_state(dimension: Dimension, events: &[RiskEvent], now: i64, consecutive_failures_only: bool) -> (res: RiskState)
    requires
        events@.len() <= i64::MAX,
        now - RISK_WINDOW_SECONDS >= i64::MIN,
        now + lock_seconds(dimension) <= i64::MAX,
    ensures
        (res.fail_count as int, res.window_start_at as int, match res.locked_until {
            Some(u) => Some(u as int),
            None => None,
        }) == risk_state_spec(dimension, events@, now as int, consecutive_failures_only),
{
    let window_start = now - RISK_WINDOW_SECONDS;
    let mut last: Option<i64> = None;
    if consecutive_failures_only {
        let mut i: usize = 0;
        while i < events.len()
            invariant
                i <= events@.len(),
                window_start == now - RISK_WINDOW_SECONDS,
                match last {
                    Some(m) => last_success(events@.take(i as int), window_start as int) == Some(m as int),
                    None => last_success(events@.take(i as int), window_start as int) is None,
                },
            decreases events@.len() - i,
        {
            assert(events@.take(i + 1).drop_last() =~= events@.take(i as int));
            let e = events[i];
            if e.outcome == Outcome::Success && e.created_at >= window_start {
                last = match last {
                    Some(m) => if e.created_at > m {
                        Some(e.created_at)
                    } else {
                        Some(m)
                    },
                    None => Some(e.created_at),
                };
            }
            i = i + 1;
        }
        assert(events@.take(events@.len() as int) =~= events@);
    }
    let mut count: i64 = 0;
    let mut i: usize = 0;
    while i < events.len()
        invariant
            i <= events@.len() <= i64::MAX,
            0 <= count <= i,
            window_start == now - RISK_WINDOW_SECONDS,
            count == counted_failures(
                events@.take(i as int),
                window_start as int,
                match last { Some(m) => Some(m as int), None => None },
            ),
        decreases events@.len() - i,
    {
        assert(events@.take(i + 1).drop_last() =~= events@.take(i as int));
        proof {
            lemma_counted_failures_bounds(
                events@.take(i as int),
                window_start as int,
                match last { Some(m) => Some(m as int), None => None },
            );
        }
        let e = events[i];
        let after_last = match last {
            Some(m) => e.created_at > m,
            None => true,
        };
        if e.outcome == Outcome::Failure && e.created_at >= window_start && after_last {
            count = count + 1;
        }
        i = i + 1;
    }
    assert(events@.take(events@.len() as int) =~= events@);
    let (threshold, lock_secs) = lock_policy(dimension);
    let locked_until = if count >= threshold {
        Some(now + lock_secs)
    } else {
        None
    };
    RiskState { fail_count: count, window_start_at: window_start, locked_until }
}

/// The state a successful login leaves the e-mail and address pair in: no
/// failures, a window starting now and no lock.
pub fn cleared_risk_state(now: i64) -> (res: RiskState)
    ensures
        res == (RiskState { fail_count: 0, window_start_at: now, locked_until: None }),
{
    RiskState { fail_count: 0, window_start_at: now, locked_until: None }
}

// ---------------------------------------------------------------------------
// Laws
// ---------------------------------------------------------------------------

/// The time a login must wait is never negative, shrinks as time passes and
/// is zero once the lock has run out.
pub proof fn law_lock_remaining_counts_down(locked_until: Option<int>, now: int, later: int)
    requires
        now <= later,
    ensures
        lock_remaining_spec(locked_until, now) >= 0,
        lock_remaining_spec(locked_until, later) <= lock_remaining_spec(locked_until, now),
        locked_until matches Some(u) && u <= now ==> lock_remaining_spec(locked_until, now) == 0,
{
}

proof fn lemma_last_success_bound(events: Seq<RiskEvent>, start: int, i: int)
    requires
        0 <= i < events.len(),
        events[i].outcome == Outcome::Success,
        events[i].created_at >= start,
    ensures
        last_success(events, start) matches Some(m) && m >= events[i].created_at,
    decreases events.len(),
{
    let t = events.drop_last();
    if i < events.len() - 1 {
        assert(t[i] == events[i]);
        lemma_last_success_bound(t, start, i);
    }
}

proof fn lemma_no_failure_after(events: Seq<RiskEvent>, start: int, m: int)
    requires
        forall|j: int|
            0 <= j < events.len() && (#[trigger] events[j]).outcome == Outcome::Failure && events[j].created_at >= start
                ==> events[j].created_at <= m,
    ensures
        counted_failures(events, start, Some(m)) == 0,
    decreases events.len(),
{
    if events.len() > 0 {
        let t = events.drop_last();
        assert forall|j: int|
            0 <= j < t.len() && (#[trigger] t[j]).outcome == Outcome::Failure && t[j].created_at >= start
                implies t[j].created_at <= m by {
            assert(t[j] == events[j]);
        }
        lemma_no_failure_after(t, start, m);
        assert(events.last() == events[events.len() - 1]);
    }
}

/// A success inside the window that is no older than any failure in it
/// clears the consecutive-failure count of the e-mail and address pair, so
/// the pair is not locked.
pub proof fn law_success_resets_pair(events: Seq<RiskEvent>, now: int, s: int)
    requires
        0 <= s < events.len(),
        events[s].outcome == Outcome::Success,
        events[s].created_at >= now - RISK_WINDOW_SECONDS,
        forall|j: int|
            0 <= j < events.len() && (#[trigger] events[j]).outcome == Outcome::Failure
                && events[j].created_at >= now - RISK_WINDOW_SECONDS ==> events[j].created_at <= events[s].created_at,
    ensures
        risk_state_spec(Dimension::EmailIp, events, now, true).0 == 0,
        risk_state_spec(Dimension::EmailIp, events, now, true).2 is None,
{
    let start = now - RISK_WINDOW_SECONDS;
    lemma_last_success_bound(events, start, s);
    let m = last_success(events, start)->0;
    lemma_no_failure_after(events, start, m);
}

/// The longest wait over several locks: zero or the largest remaining time.
pub open spec fn max_wait(locks: Seq<Option<int>>, now: int) -> int
    decreases locks.len(),
{
    if locks.len() == 0 {
        0
    } else {
        let m = max_wait(locks.drop_last(), now);
        let w = lock_remaining_spec(locks.last(), now);
        if w > m {
            w
        } else {
            m
        }
    }
}

/// The wait that `retry_after` computes from the remaining time of each
/// lock is the longest wait over the locks.
pub proof fn law_retry_after_is_longest_wait(remaining: Seq<i64>, locks: Seq<Option<int>>, now: int)
    requires
        remaining.len() == locks.len(),
        forall|i: int| 0 <= i < locks.len() ==> remaining[i] == lock_remaining_spec(#[trigger] locks[i], now),
    ensures
        max_or_zero(remaining) == max_wait(locks, now),
    decreases locks.len(),
{
    if locks.len() > 0 {
        let r = remaining.drop_last();
        let l = locks.drop_last();
        assert forall|i: int| 0 <= i < l.len() implies r[i] == lock_remaining_spec(#[trigger] l[i], now) by {
            assert(r[i] == remaining[i]);
            assert(l[i] == locks[i]);
        }
        law_retry_after_is_longest_wait(r, l, now);
        assert(remaining.last() == remaining[remaining.len() - 1]);
        assert(locks.last() == locks[locks.len() - 1]);
        law_lock_remaining_counts_down(locks.last(), now, now);
    }
}

/// The longest wait over the locks of a login is never negative, shrinks
/// as time passes, and is zero once every lock has run out.
pub proof fn law_longest_wait_counts_down(locks: Seq<Option<int>>, now: int, later: int)
    requires
        now <= later,
    ensures
        max_wait(locks, now) >= 0,
        max_wait(locks, later) <= max_wait(locks, now),
        (forall|i: int| 0 <= i < locks.len() ==> (#[trigger] locks[i] matches Some(u) ==> u <= now))
            ==> max_wait(locks, now) == 0,
    decreases locks.len(),
{
    if locks.len() > 0 {
        let l = locks.drop_last();
        assert forall|i: int| 0 <= i < l.len() && (forall|k: int| 0 <= k < locks.len() ==> (#[trigger] locks[k] matches Some(u) ==> u <= now))
            implies (#[trigger] l[i] matches Some(u) ==> u <= now) by {
            assert(l[i] == locks[i]);
        }
        law_longest_wait_counts_down(l, now, later);
        law_lock_remaining_counts_down(locks.last(), now, later);
        assert(locks.last() == locks[locks.len() - 1]);
    }
}

/// While a lock holds, the wait is exactly the time left until it runs out;
/// the longest wait over several locks is at least that of each lock that
/// holds, and when positive it is the time left on one of them: the time
/// until the latest lock runs out.
pub proof fn law_lock_wait_is_exact(locks: Seq<Option<int>>, now: int)
    ensures
        forall|u: int| u > now ==> lock_remaining_spec(Some(u), now) == u - now,
        forall|i: int| 0 <= i < locks.len() && (#[trigger] locks[i] matches Some(u) && u > now)
            ==> max_wait(locks, now) >= locks[i]->0 - now,
        max_wait(locks, now) > 0 ==> exists|i: int| 0 <= i < locks.len()
            && (#[trigger] locks[i] matches Some(u) && max_wait(locks, now) == u - now),
    decreases locks.len(),
{
    if locks.len() > 0 {
        let l = locks.drop_last();
        law_lock_wait_is_exact(l, now);
        let n = locks.len() - 1;
        assert(locks.last() == locks[n]);
        assert forall|i: int| 0 <= i < locks.len() && (#[trigger] locks[i] matches Some(u) && u > now)
            implies max_wait(locks, now) >= locks[i]->0 - now by {
            if i < n {
                assert(l[i] == locks[i]);
            }
        }
        if max_wait(locks, now) > 0 {
            if max_wait(locks, now) == lock_remaining_spec(locks.last(), now) {
                assert(locks[n] matches Some(u) && max_wait(locks, now) == u - now);
            } else {
                let i = choose|i: int| 0 <= i < l.len()
                    && (#[trigger] l[i] matches Some(u) && max_wait(l, now) == u - now);
                assert(l[i] == locks[i]);
                assert(locks[i] matches Some(u) && max_wait(locks, now) == u - now);
            }
        }
    }
}

proof fn lemma_all_failures_counted(events: Seq<RiskEvent>, start: int)
    requires
        forall|j: int| 0 <= j < events.len() ==> (#[trigger] events[j]).outcome == Outcome::Failure && events[j].created_at >= start,
    ensures
        last_success(events, start) is None,
        counted_failures(events, start, None) == events.len(),
    decreases events.len(),
{
    if events.len() > 0 {
        let t = events.drop_last();
        assert forall|j: int| 0 <= j < t.len() implies (#[trigger] t[j]).outcome == Outcome::Failure && t[j].created_at >= start by {
            assert(t[j] == events[j]);
        }
        lemma_all_failures_counted(t, start);
        assert(events.last() == events[events.len() - 1]);
    }
}

/// Five or more failures of an e-mail and address pair within the window,
/// with no success among them, lock the pair for `EMAIL_IP_LOCK_SECONDS`.
pub proof fn law_five_failures_lock_pair(events: Seq<RiskEvent>, now: int)
    requires
        events.len() >= EMAIL_IP_LOCK_THRESHOLD,
        forall|j: int| 0 <= j < events.len() ==> (#[trigger] events[j]).outcome == Outcome::Failure
            && events[j].created_at >= now - RISK_WINDOW_SECONDS,
    ensures
        risk_state_spec(Dimension::EmailIp, events, now, true).0 == events.len(),
        risk_state_spec(Dimension::EmailIp, events, now, true).2 == Some(now + EMAIL_IP_LOCK_SECONDS),
{
    lemma_all_failures_counted(events, now - RISK_WINDOW_SECONDS);
}

proof fn lemma_last_success_upper(events: Seq<RiskEvent>, start: int, m: int)
    requires
        forall|j: int|
            0 <= j < events.len() && (#[trigger] events[j]).outcome == Outcome::Success && events[j].created_at >= start
                ==> events[j].created_at <= m,
    ensures
        last_success(events, start) matches Some(x) ==> x <= m,
    decreases events.len(),
{
    if events.len() > 0 {
        let t = events.drop_last();
        assert forall|j: int|
            0 <= j < t.len() && (#[trigger] t[j]).outcome == Outcome::Success && t[j].created_at >= start
                implies t[j].created_at <= m by {
            assert(t[j] == events[j]);
        }
        lemma_last_success_upper(t, start, m);
        assert(events.last() == events[events.len() - 1]);
    }
}

/// After a success of an e-mail and address pair, the next failure within
/// the window counts as the first: the pair's count is one and it is not
/// locked, however many failures came before the success.
pub proof fn law_failure_after_success_counts_one(events: Seq<RiskEvent>, now: int, s: int)
    requires
        0 <= s < events.len() - 1,
        events[s].outcome == Outcome::Success,
        now - RISK_WINDOW_SECONDS <= events[s].created_at < now,
        forall|j: int| 0 <= j < events.len() - 1 ==> (#[trigger] events[j]).created_at <= events[s].created_at,
        events.last().outcome == Outcome::Failure,
        events.last().created_at == now,
    ensures
        risk_state_spec(Dimension::EmailIp, events, now, true).0 == 1,
        risk_state_spec(Dimension::EmailIp, events, now, true).2 is None,
{
    let start = now - RISK_WINDOW_SECONDS;
    let t0 = events[s].created_at as int;
    lemma_last_success_bound(events, start, s);
    assert forall|j: int|
        0 <= j < events.len() && (#[trigger] events[j]).outcome == Outcome::Success && events[j].created_at >= start
            implies events[j].created_at <= t0 by {
        if j == events.len() - 1 {
            assert(events[j] == events.last());
        }
    }
    lemma_last_success_upper(events, start, t0);
    assert(last_success(events, start) == Some(t0));
    let p = events.drop_last();
    assert forall|j: int|
        0 <= j < p.len() && (#[trigger] p[j]).outcome == Outcome::Failure && p[j].created_at >= start
            implies p[j].created_at <= t0 by {
        assert(p[j] == events[j]);
    }
    lemma_no_failure_after(p, start, t0);
}

/// A counter is locked exactly when its count reaches the threshold, and
/// then for the dimension's lock duration from `now`.
pub proof fn law_threshold_locks(dimension: Dimension, events: Seq<RiskEvent>, now: int, consecutive_failures_only: bool)
    ensures
        ({
            let st = risk_state_spec(dimension, events, now, consecutive_failures_only);
            &&& st.0 >= lock_threshold(dimension) ==> st.2 == Some(now + lock_seconds(dimension))
            &&& st.0 < lock_threshold(dimension) ==> st.2 is None
            &&& 0 <= st.0 <= events.len()
        }),
{
    let start = now - RISK_WINDOW_SECONDS;
    let after = if consecutive_failures_only { last_success(events, start) } else { None };
    lemma_counted_failures_bounds(events, start, after);
}

} // verus!
