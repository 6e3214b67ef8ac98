//! What is remembered of each account.

use vstd::prelude::*;

use crate::backoff::{self, wall_clock, Backoff, Growth, MAX_DELAY_NANOS};
use crate::text;

verus! {

/// Shortest delay an account is left alone after a rate limit, before jitter, in seconds.
pub const RATE_LIMIT_MIN_DELAY_SECS: u64 = 5 * 60;

/// Longest delay an account is left alone after a rate limit, before jitter, in seconds.
///
/// Jitter stretches an emitted delay by up to as much again, so it is a ceiling on the escalation
/// rather than on the wait itself.
pub const RATE_LIMIT_MAX_DELAY_SECS: u64 = 60 * 60;

/// Times from the epoch that can be added to a delay.
pub open spec fn is_time(t: i128) -> bool {
    -MAX_DELAY_NANOS < t < MAX_DELAY_NANOS
}

// Rate limits

/// Escalating delay holding a single account's requests back after a rate limit. Times are in
/// nanoseconds from the epoch.
///
/// Deadlines are on the wall clock rather than a monotonic one, so that a suspend counts towards
/// them: the throttling they wait out is the provider's, and it expires while we are asleep.
pub struct RateLimitBackoff {
    pub backoff: Backoff,
    pub skip_until: Option<i128>,
}

/// Whether requests are held back at a time.
pub open spec fn held_back(skip_until: Option<i128>, now: i128) -> bool {
    match skip_until {
        Some(t) => now < t,
        None => false,
    }
}

impl RateLimitBackoff {
    /// Whether the delays are those of a rate limit.
    pub open spec fn wf(&self) -> bool {
        &&& self.backoff.wf()
        &&& match self.backoff.growth {
            Growth::Endless { factor, min_secs, max_secs } => {
                &&& factor@ == "2"@
                &&& min_secs == RATE_LIMIT_MIN_DELAY_SECS
                &&& max_secs == RATE_LIMIT_MAX_DELAY_SECS
            },
            _ => false,
        }
    }

    /// Whether nothing is held back, and no delay was used up.
    pub open spec fn is_fresh(&self) -> bool {
        &&& self.wf()
        &&& self.skip_until is None
        &&& self.backoff.left() == usize::MAX
        &&& self.backoff.base() is None
    }

    pub fn new() -> (r: Self)
        ensures
            r.is_fresh(),
    {
        proof {
            reveal_strlit("2");
        }
        RateLimitBackoff {
            backoff: Backoff::new("2", RATE_LIMIT_MIN_DELAY_SECS, RATE_LIMIT_MAX_DELAY_SECS),
            skip_until: None,
        }
    }

    /// Whether requests are held back at a time.
    pub fn active_at(&self, now: i128) -> (r: bool)
        ensures
            r == held_back(self.skip_until, now),
    {
        match self.skip_until {
            Some(t) => now < t,
            None => false,
        }
    }

    /// Whether requests are currently held back.
    pub fn active(&self) -> (r: bool)
        ensures
            exists|now: i128| is_time(now) && r == #[trigger] held_back(self.skip_until, now),
    {
        let now: i128 = wall_clock();
        self.active_at(now)
    }

    /// Holds requests back from a time on for the next delay, and returns it; nothing changes once
    /// the delays have come to their end.
    pub fn hit_at(&mut self, now: i128) -> (r: Option<u128>)
        requires
            old(self).wf(),
            is_time(now),
        ensures
            hits(*old(self), *final(self), now, r),
    {
        match self.backoff.next() {
            Some(delay) => {
                self.skip_until = Some(now + delay as i128);
                Some(delay)
            },
            None => None,
        }
    }

    /// Holds requests back for the next delay, and returns it.
    pub fn hit(&mut self) -> (r: Option<u128>)
        requires
            old(self).wf(),
        ensures
            exists|now: i128| is_time(now) && hits(*old(self), *final(self), now, r),
    {
        let now: i128 = wall_clock();
        let r = self.hit_at(now);
        assert(is_time(now) && hits(*old(self), *self, now, r));
        r
    }

    /// Lets requests through, and starts the delays over.
    pub fn reset(&mut self)
        requires
            old(self).wf(),
        ensures
            final(self).backoff.growth == old(self).backoff.growth,
            final(self).is_fresh(),
    {
        self.skip_until = None;
        self.backoff.reset();
    }
}

/// What a rate limit at a time does, and the delay it gives: requests are held back for one of the
/// growing delays, as long as there are any.
pub open spec fn hits(
    before: RateLimitBackoff,
    after: RateLimitBackoff,
    now: i128,
    delay: Option<u128>,
) -> bool {
    &&& after.wf()
    &&& after.backoff.growth == before.backoff.growth
    &&& match delay {
        Some(n) => {
            &&& backoff::advances(before.backoff, after.backoff, n)
            &&& after.skip_until == Some((now + n) as i128)
        },
        None => {
            &&& before.backoff.left() == 0 && after.backoff.left() == 0
            &&& after.backoff.base() == before.backoff.base()
            &&& after.skip_until == before.skip_until
        },
    }
}

/// A rate limited account is left alone for five minutes at least, and for two hours at most.
pub proof fn a_rate_limit_leaves_the_account_alone(
    before: RateLimitBackoff,
    after: RateLimitBackoff,
    now: i128,
    delay: u128,
    later: i128,
)
    requires
        is_time(now),
        before.wf(),
        hits(before, after, now, Some(delay)),
    ensures
        later < now + 5 * 60 * 1_000_000_000 ==> held_back(after.skip_until, later),
        later >= now + 2 * 60 * 60 * 1_000_000_000 ==> !held_back(after.skip_until, later),
{
}

/// Minutes that the `k`th rate limit in a row leaves an account alone at least, and less than twice.
pub open spec fn escalated_minutes(k: int) -> nat {
    if k == 0 {
        5
    } else if k == 1 {
        10
    } else if k == 2 {
        20
    } else if k == 3 {
        40
    } else {
        60
    }
}

/// Rate limits in a row escalate from the floor to the ceiling: the delay of the first is between
/// five and ten minutes, each of the next three is longer than the one before, and from the fifth on
/// it is between one and two hours.
pub proof fn rate_limits_escalate(
    states: Seq<RateLimitBackoff>,
    times: Seq<i128>,
    delays: Seq<u128>,
    k: int,
)
    requires
        0 <= k < delays.len(),
        times.len() == delays.len(),
        states.len() == delays.len() + 1,
        states[0].is_fresh(),
        forall|i: int|
            0 <= i < delays.len() ==> #[trigger] hits(
                states[i],
                states[i + 1],
                times[i],
                Some(delays[i]),
            ),
    ensures
        states[k + 1].backoff.base() == Some(escalated_minutes(k) * 60_000_000_000),
        escalated_minutes(k) * 60_000_000_000 <= delays[k] < 2 * escalated_minutes(k)
            * 60_000_000_000,
        0 < k < 4 ==> delays[k - 1] < delays[k],
    decreases k,
{
    reveal_strlit("2");
    assert(hits(states[k], states[k + 1], times[k], Some(delays[k])));
    if k > 0 {
        rate_limits_escalate(states, times, delays, k - 1);
        assert(hits(states[k - 1], states[k], times[k - 1], Some(delays[k - 1])));
        assert(states[k].backoff.growth.halves() == 4);
    }
}

/// State of a single `ClaudeUsageStatus` account.
pub struct ClaudeAccount {
    pub rate_limit: RateLimitBackoff,
    /// Mtime of the credentials whose authentication failed.
    pub auth_failed_mtime: Option<i128>,
}

impl ClaudeAccount {
    /// Whether the delays are those of a rate limit.
    pub open spec fn wf(&self) -> bool {
        self.rate_limit.wf()
    }

    /// Whether nothing is remembered of the account.
    pub open spec fn is_fresh(&self) -> bool {
        self.rate_limit.is_fresh() && self.auth_failed_mtime is None
    }

    pub fn new() -> (r: Self)
        ensures
            r.is_fresh(),
    {
        ClaudeAccount { rate_limit: RateLimitBackoff::new(), auth_failed_mtime: None }
    }
}

// Accounts by path

/// What is remembered of each account, by the path of its file.
pub struct Accounts<T> {
    pub entries: Vec<(String, T)>,
}

/// Whether a path has an entry.
pub open spec fn has_entry<T>(entries: Seq<(String, T)>, path: Seq<char>) -> bool {
    exists|i: int| 0 <= i < entries.len() && (#[trigger] entries[i]).0@ == path
}

/// What the entry of a path holds.
pub open spec fn entry_of<T>(entries: Seq<(String, T)>, path: Seq<char>) -> Option<T> {
    if has_entry(entries, path) {
        let i = choose|i: int| 0 <= i < entries.len() && (#[trigger] entries[i]).0@ == path;
        Some(entries[i].1)
    } else {
        None
    }
}

/// The entries whose path is one of the given ones.
pub open spec fn retained<T>(entries: Seq<(String, T)>, paths: Seq<Seq<char>>) -> Seq<(String, T)>
    decreases entries.len(),
{
    if entries.len() == 0 {
        entries
    } else {
        let before = retained(entries.drop_last(), paths);
        if paths.contains(entries.last().0@) {
            before.push(entries.last())
        } else {
            before
        }
    }
}

impl<T> Accounts<T> {
    /// No two entries have the same path.
    pub open spec fn wf(&self) -> bool {
        forall|i: int, j: int|
            0 <= i < j < self.entries@.len() ==> (#[trigger] self.entries@[i]).0@ != (
            #[trigger] self.entries@[j]).0@
    }

    /// Whether a path has an entry.
    pub open spec fn has(&self, path: Seq<char>) -> bool {
        has_entry(self.entries@, path)
    }

    /// What is remembered of the account of a path.
    pub open spec fn at(&self, path: Seq<char>) -> Option<T> {
        entry_of(self.entries@, path)
    }

    pub fn new() -> (r: Self)
        ensures
            r.wf(),
            r.entries@ == Seq::<(String, T)>::empty(),
    {
        Accounts { entries: Vec::new() }
    }

    /// Position of the entry of a path.
    pub fn position(&self, path: &str) -> (r: Option<usize>)
        requires
            self.wf(),
        ensures
            match r {
                Some(i) => {
                    &&& i < self.entries@.len()
                    &&& self.entries@[i as int].0@ == path@
                    &&& self.at(path@) == Some(self.entries@[i as int].1)
                },
                None => self.at(path@) is None,
            },
    {
        let mut i: usize = 0;
        while i < self.entries.len()
            invariant
                self.wf(),
                i <= self.entries.len(),
                forall|j: int| 0 <= j < i ==> (#[trigger] self.entries@[j]).0@ != path@,
            decreases self.entries.len() - i,
        {
            if text::same(self.entries[i].0.as_str(), path) {
                proof {
                    self.entry_at(i as int);
                }
                return Some(i);
            }
            i += 1;
        }
        None
    }

    /// The entry at a position is the one of its path.
    proof fn entry_at(&self, i: int)
        requires
            self.wf(),
            0 <= i < self.entries@.len(),
        ensures
            self.at(self.entries@[i].0@) == Some(self.entries@[i].1),
    {
        let path = self.entries@[i].0@;
        let k = choose|k: int|
            0 <= k < self.entries@.len() && (#[trigger] self.entries@[k]).0@ == path;
        assert(self.entries@[i].0@ == path);
        assert(k == i);
    }

    /// Position of the entry of a path, which is added with the given value where there is none.
    pub fn entry(&mut self, path: &str, value: T) -> (r: usize)
        requires
            old(self).wf(),
        ensures
            final(self).wf(),
            r < final(self).entries@.len(),
            final(self).entries@[r as int].0@ == path@,
            final(self).entries@[r as int].1 == match old(self).at(path@) {
                Some(held) => held,
                None => value,
            },
            final(self).entries@ == old(self).entries@ || exists|k: String|
                final(self).entries@ == #[trigger] old(self).entries@.push((k, value)),
            forall|p: Seq<char>| p != path@ ==> #[trigger] final(self).at(p) == old(self).at(p),
    {
        match self.position(path) {
            Some(i) => i,
            None => {
                let ghost before = *self;
                let n: usize = self.entries.len();
                let key = path.to_owned();
                let ghost pushed = before.entries@.push((key, value));
                self.entries.push((key, value));
                assert(self.entries@ == pushed);
                proof {
                    assert forall|i: int, j: int| 0 <= i < j < self.entries@.len() implies (
                    #[trigger] self.entries@[i]).0@ != (#[trigger] self.entries@[j]).0@ by {
                        if j == n {
                            assert(before.entries@[i].0@ != path@);
                        }
                    }
                    assert forall|p: Seq<char>| p != path@ implies #[trigger] self.at(p)
                        == before.at(p) by {
                        same_entry(before, *self, p);
                    }
                }
                n
            },
        }
    }

    /// Drops the entries of the paths that are not among the given ones.
    pub fn retain(&mut self, paths: &Vec<String>)
        requires
            old(self).wf(),
        ensures
            final(self).wf(),
            final(self).entries@ == retained(old(self).entries@, text::texts(paths@)),
            forall|i: int|
                0 <= i < final(self).entries@.len() ==> old(self).entries@.contains(
                    #[trigger] final(self).entries@[i],
                ),
            forall|p: Seq<char>| #[trigger]
                final(self).at(p) == if text::texts(paths@).contains(p) {
                    old(self).at(p)
                } else {
                    None
                },
    {
        let ghost all = self.entries@;
        let ghost ps = text::texts(paths@);
        let ghost mut k: int = 0;
        let mut i: usize = 0;
        assert(retained(all.take(0), ps) + all.skip(0) =~= all);
        while i < self.entries.len()
            invariant
                ps == text::texts(paths@),
                0 <= k <= all.len(),
                i == retained(all.take(k), ps).len(),
                i <= self.entries.len(),
                self.entries@ == retained(all.take(k), ps) + all.skip(k),
            decreases self.entries.len() - i,
        {
            assert(self.entries@.len() == i + (all.len() - k));
            assert(self.entries@[i as int] == all[k]);
            assert(all.take(k + 1).drop_last() =~= all.take(k));
            assert(all.take(k + 1).last() == all[k]);
            let keep = text::contains_text(paths, self.entries[i].0.as_str());
            if keep {
                assert(retained(all.take(k + 1), ps) + all.skip(k + 1) =~= retained(
                    all.take(k),
                    ps,
                ) + all.skip(k));
                i += 1;
            } else {
                let ghost before = self.entries@;
                self.entries.remove(i);
                assert(self.entries@ =~= before.remove(i as int));
                assert(self.entries@ =~= retained(all.take(k + 1), ps) + all.skip(k + 1));
            }
            proof {
                k = k + 1;
            }
        }
        assert(all.skip(k).len() == 0);
        assert(all.take(k) =~= all);
        assert(self.entries@ =~= retained(all, ps));
        proof {
            retained_keeps(all, ps);
            let before = *old(self);
            assert forall|p: Seq<char>| #[trigger] self.at(p) == if ps.contains(p) {
                before.at(p)
            } else {
                None
            } by {
                if before.has(p) && ps.contains(p) {
                    let i = choose|i: int| 0 <= i < all.len() && (#[trigger] all[i]).0@ == p;
                    retain_drops_only_missing_paths(all, ps, all[i]);
                    assert(all.contains(all[i]));
                    let kept = self.entries@;
                    let j = choose|j: int| 0 <= j < kept.len() && kept[j] == all[i];
                    self.entry_at(j);
                    before.entry_at(i);
                }
                if self.has(p) {
                    let kept = self.entries@;
                    let j = choose|j: int| 0 <= j < kept.len() && (#[trigger] kept[j]).0@ == p;
                    retain_drops_only_missing_paths(all, ps, kept[j]);
                    assert(kept.contains(kept[j]));
                    let i = choose|i: int| 0 <= i < all.len() && all[i] == kept[j];
                    assert(all[i].0@ == p);
                }
            }
        }
    }
}

/// Two lists that have the same entries for a path, if any, agree on it.
proof fn same_entry<T>(a: Accounts<T>, b: Accounts<T>, p: Seq<char>)
    requires
        a.wf(),
        b.wf(),
        a.entries@.len() <= b.entries@.len(),
        forall|i: int|
            0 <= i < a.entries@.len() ==> (#[trigger] b.entries@[i]).0 == a.entries@[i].0,
        forall|i: int|
            0 <= i < a.entries@.len() && a.entries@[i].0@ == p ==> (#[trigger] b.entries@[i])
                == a.entries@[i],
        forall|i: int|
            a.entries@.len() <= i < b.entries@.len() ==> (#[trigger] b.entries@[i]).0@ != p,
    ensures
        a.at(p) == b.at(p),
{
    if a.has(p) {
        let i = choose|i: int| 0 <= i < a.entries@.len() && (#[trigger] a.entries@[i]).0@ == p;
        assert(b.entries@[i] == a.entries@[i]);
        b.entry_at(i);
    }
    if b.has(p) {
        let i = choose|i: int| 0 <= i < b.entries@.len() && (#[trigger] b.entries@[i]).0@ == p;
        assert(a.entries@[i].0@ == p);
    }
}

/// A change of what the entry at a position holds concerns the account of its path alone.
pub proof fn changed_entry<T>(a: Accounts<T>, b: Accounts<T>, i: int)
    requires
        a.wf(),
        0 <= i < a.entries@.len(),
        a.entries@[i].0 == b.entries@[i].0,
        b.entries@ == a.entries@.update(i, b.entries@[i]),
    ensures
        b.wf(),
        b.at(a.entries@[i].0@) == Some(b.entries@[i].1),
        forall|p: Seq<char>| p != a.entries@[i].0@ ==> #[trigger] b.at(p) == a.at(p),
{
    assert forall|k: int, j: int| 0 <= k < j < b.entries@.len() implies (
    #[trigger] b.entries@[k]).0@ != (#[trigger] b.entries@[j]).0@ by {
        assert(b.entries@[k].0 == a.entries@[k].0);
        assert(b.entries@[j].0 == a.entries@[j].0);
    }
    b.entry_at(i);
    assert forall|p: Seq<char>| p != a.entries@[i].0@ implies #[trigger] b.at(p) == a.at(p) by {
        same_entry(a, b, p);
    }
}

proof fn retained_keeps<T>(entries: Seq<(String, T)>, paths: Seq<Seq<char>>)
    requires
        forall|i: int, j: int|
            0 <= i < j < entries.len() ==> (#[trigger] entries[i]).0@ != (#[trigger] entries[j]).0@,
    ensures
        ({
            let r = retained(entries, paths);
            &&& forall|i: int, j: int|
                0 <= i < j < r.len() ==> (#[trigger] r[i]).0@ != (#[trigger] r[j]).0@
            &&& forall|i: int| 0 <= i < r.len() ==> entries.contains(#[trigger] r[i])
        }),
    decreases entries.len(),
{
    if entries.len() > 0 {
        let init = entries.drop_last();
        assert forall|i: int, j: int| 0 <= i < j < init.len() implies (#[trigger] init[i]).0@ != (
        #[trigger] init[j]).0@ by {
            assert(init[i] == entries[i] && init[j] == entries[j]);
        }
        retained_keeps(init, paths);
        let before = retained(init, paths);
        let r = retained(entries, paths);
        assert forall|i: int| 0 <= i < before.len() implies entries.contains(
            #[trigger] before[i],
        ) && before[i].0@ != entries.last().0@ by {
            assert(init.contains(before[i]));
            let k = choose|k: int| 0 <= k < init.len() && init[k] == before[i];
            assert(entries[k] == before[i]);
            assert(entries[k].0@ != entries[entries.len() - 1].0@);
        }
        assert forall|i: int| 0 <= i < r.len() implies entries.contains(#[trigger] r[i]) by {
            if i < before.len() {
                assert(r[i] == before[i]);
            } else {
                assert(entries[entries.len() - 1] == r[i]);
            }
        }
        assert forall|i: int, j: int| 0 <= i < j < r.len() implies (#[trigger] r[i]).0@ != (
        #[trigger] r[j]).0@ by {
            assert(r[i] == before[i]);
            if j < before.len() {
                assert(r[j] == before[j]);
            }
        }
    }
}

/// A deleted file takes what is remembered of its account with it, and every other account keeps
/// its own.
pub proof fn retain_drops_only_missing_paths<T>(
    entries: Seq<(String, T)>,
    paths: Seq<Seq<char>>,
    e: (String, T),
)
    ensures
        retained(entries, paths).contains(e) <==> entries.contains(e) && paths.contains(e.0@),
    decreases entries.len(),
{
    if entries.len() > 0 {
        let init = entries.drop_last();
        let before = retained(init, paths);
        let r = retained(entries, paths);
        retain_drops_only_missing_paths(init, paths, e);
        if r.contains(e) {
            let i = choose|i: int| 0 <= i < r.len() && r[i] == e;
            if i < before.len() {
                assert(before[i] == e);
                assert(before.contains(e));
                let k = choose|k: int| 0 <= k < init.len() && init[k] == e;
                assert(entries[k] == e);
            } else {
                assert(entries[entries.len() - 1] == e);
            }
        }
        if entries.contains(e) && paths.contains(e.0@) {
            let k = choose|k: int| 0 <= k < entries.len() && entries[k] == e;
            if k < init.len() {
                assert(init[k] == e);
                assert(init.contains(e));
                assert(before.contains(e));
                let i = choose|i: int| 0 <= i < before.len() && before[i] == e;
                assert(r[i] == e);
            } else {
                assert(r[before.len() as int] == e);
            }
        }
    }
}

/// Requests are held back up to the deadline, and no longer.
pub proof fn deadlines_end(deadline: i128, now: i128)
    ensures
        held_back(Some(deadline), now) <==> now < deadline,
        !held_back(Some(deadline), deadline),
        !held_back(None, now),
{
}

/// The path of an entry finds what the entry holds, and a path without one nothing.
pub proof fn paths_find_their_entries<T>(accounts: Accounts<T>, i: int, path: Seq<char>)
    requires
        accounts.wf(),
    ensures
        0 <= i < accounts.entries@.len() ==> entry_of(accounts.entries@, accounts.entries@[i].0@)
            == Some(accounts.entries@[i].1),
        (forall|j: int|
            0 <= j < accounts.entries@.len() ==> (#[trigger] accounts.entries@[j]).0@ != path)
            ==> entry_of(accounts.entries@, path) is None,
{
    if 0 <= i < accounts.entries@.len() {
        accounts.entry_at(i);
    }
}

/// A rate limit gives a delay exactly while there are any left; without one the deadline stays as it
/// was.
pub proof fn rate_limits_give_delays(
    before: RateLimitBackoff,
    after: RateLimitBackoff,
    now: i128,
    delay: Option<u128>,
)
    requires
        hits(before, after, now, delay),
    ensures
        delay is Some <==> before.backoff.left() > 0,
        delay is Some ==> after.backoff.left() == before.backoff.left() - 1,
        delay is None ==> after.skip_until == before.skip_until && after.backoff.left() == 0,
{
}

}
