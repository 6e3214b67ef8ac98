//! Reachability of hosts, and running VPNs.

use bounded_vec_deque::BoundedVecDeque;
use vstd::prelude::*;

use crate::bytes;
use crate::markup;
use crate::numeral;
use crate::polybar_module::{NetworkMode, RenderablePolybarModule};
use crate::text;
use crate::theme::{Color, Palette, ICON_WARNING};

verus! {

broadcast use crate::text::texts_push;

/// Number of results that decide whether a host is reachable.
pub const PING_AVG_COUNT: usize = 3;

/// Milliseconds during which several results are gathered.
pub const AGGREGATE_DELAY_MS: u64 = 200;

// Bounded history

#[verifier::external_type_specification]
#[verifier::external_body]
#[verifier::reject_recursive_types(T)]
pub struct ExBoundedVecDeque<T>(BoundedVecDeque<T>);

/// What a bounded deque holds, from front to back.
pub uninterp spec fn deque_contents(d: BoundedVecDeque<bool>) -> Seq<bool>;

/// How many elements a bounded deque may hold.
pub uninterp spec fn deque_limit(d: BoundedVecDeque<bool>) -> nat;

/// `BoundedVecDeque::with_capacity`: an empty deque of at most `max_len` elements.
#[verifier::external_body]
fn deque_new(capacity: usize, max_len: usize) -> (r: BoundedVecDeque<bool>)
    requires
        capacity <= 1000,
    ensures
        deque_contents(r) == Seq::<bool>::empty(),
        deque_limit(r) == max_len,
{
    BoundedVecDeque::with_capacity(capacity, max_len)
}

/// `BoundedVecDeque::push_back`: adds an element at the back, and drops the one at the front where
/// the deque was full.
#[verifier::external_body]
fn deque_push(d: &mut BoundedVecDeque<bool>, value: bool)
    requires
        0 < deque_limit(*old(d)),
        deque_contents(*old(d)).len() <= deque_limit(*old(d)),
    ensures
        deque_limit(*final(d)) == deque_limit(*old(d)),
        deque_contents(*final(d)) == if deque_contents(*old(d)).len() == deque_limit(*old(d)) {
            deque_contents(*old(d)).skip(1).push(value)
        } else {
            deque_contents(*old(d)).push(value)
        },
{
    d.push_back(value);
}

/// `BoundedVecDeque::iter`: the elements from front to back.
#[verifier::external_body]
fn deque_items(d: &BoundedVecDeque<bool>) -> (r: Vec<bool>)
    ensures
        r@ == deque_contents(*d),
{
    d.iter().copied().collect()
}

// Configuration and state

pub struct NetworkStatusHost {
    pub name: String,
    pub host: String,
    pub warn_unreachable: bool,
}

pub struct NetworkStatusModuleConfig {
    pub hosts: Vec<NetworkStatusHost>,
}

#[derive(Debug, PartialEq, Eq)]
pub struct NetworkStatusModuleState {
    pub reachable_hosts: Vec<bool>,
    pub vpn: Vec<String>,
}

/// Results of `ping`, when its process was last seen dead, and when it last had a good result, for
/// each host. Times are in nanoseconds.
pub struct NetworkStatusModule {
    pub cfg: NetworkStatusModuleConfig,
    pub host_state_history: Vec<BoundedVecDeque<bool>>,
    pub ping_child_deaths: Vec<Option<u128>>,
    pub ping_child_last_reachable: Vec<Option<u128>>,
}

/// The last `n` elements of `s`, or all.
pub open spec fn last_of<T>(s: Seq<T>, n: nat) -> Seq<T> {
    if s.len() <= n {
        s
    } else {
        s.skip(s.len() - n)
    }
}

/// Seconds between two pings.
pub open spec fn ping_period(mode: NetworkMode) -> nat {
    match mode {
        NetworkMode::LowBandwith => 5,
        NetworkMode::Unrestricted => 1,
    }
}

/// Seconds without a good result after which a process is killed.
pub open spec fn stale_timeout(mode: NetworkMode) -> nat {
    if 2 * ping_period(mode) < 5 {
        2 * ping_period(mode)
    } else {
        5
    }
}

/// Whether more than `secs` seconds lie between two times.
pub open spec fn elapsed(now: u128, ts: u128, secs: nat) -> bool {
    now - ts > secs * 1_000_000_000
}

/// Whether an entry is older than `secs` seconds.
pub open spec fn is_due(entry: Option<u128>, now: u128, secs: nat) -> bool {
    match entry {
        Some(ts) => elapsed(now, ts, secs),
        None => false,
    }
}

/// Positions of the entries that are older than `secs` seconds, in increasing order.
pub open spec fn due_positions(entries: Seq<Option<u128>>, now: u128, secs: nat) -> Seq<usize>
    decreases entries.len(),
{
    if entries.len() == 0 {
        Seq::empty()
    } else {
        let before = due_positions(entries.drop_last(), now, secs);
        if is_due(entries.last(), now, secs) {
            before.push((entries.len() - 1) as usize)
        } else {
            before
        }
    }
}

/// The entries without those that are older than `secs` seconds.
pub open spec fn without_due(entries: Seq<Option<u128>>, now: u128, secs: nat) -> Seq<
    Option<u128>,
> {
    Seq::new(
        entries.len(),
        |i: int|
            if is_due(entries[i], now, secs) {
                None
            } else {
                entries[i]
            },
    )
}

/// Results that an output of `ping` tells of: a line that ends in milliseconds is a good one.
pub open spec fn results(s: Seq<char>) -> Seq<bool> {
    let ls = text::line_seq(s);
    Seq::new(ls.len(), |i: int| text::has_suffix(ls[i], " ms"@))
}

/// Number of elements equal to `x`.
pub open spec fn count_of(s: Seq<bool>, x: bool) -> nat
    decreases s.len(),
{
    if s.len() == 0 {
        0
    } else {
        count_of(s.drop_last(), x) + if s.last() == x {
            1nat
        } else {
            0nat
        }
    }
}

/// Whether most of the results are good.
pub open spec fn mostly_good(s: Seq<bool>) -> bool {
    count_of(s, true) > count_of(s, false)
}

/// Names of the running VPNs, sorted: the WireGuard interfaces, and OpenVPN.
pub open spec fn vpn_names(interfaces: Seq<Seq<char>>, openvpn: bool) -> Seq<Seq<char>> {
    let wg = interfaces.filter(|i: Seq<char>| text::has_prefix(i, "wg"@));
    text::sorted_texts(
        if openvpn {
            wg.push("ovpn"@)
        } else {
            wg
        },
    )
}

impl NetworkStatusModule {
    /// Number of hosts.
    pub open spec fn count(&self) -> nat {
        self.cfg.hosts@.len()
    }

    /// Results of a host, oldest first.
    pub open spec fn history(&self, i: int) -> Seq<bool> {
        deque_contents(self.host_state_history@[i])
    }

    /// There is one entry of each kind for each host, and no host has too long a history.
    pub open spec fn wf(&self) -> bool {
        &&& self.host_state_history@.len() == self.count()
        &&& self.ping_child_deaths@.len() == self.count()
        &&& self.ping_child_last_reachable@.len() == self.count()
        &&& forall|i: int|
            0 <= i < self.count() ==> deque_limit(#[trigger] self.host_state_history@[i])
                == PING_AVG_COUNT && self.history(i).len() <= PING_AVG_COUNT
    }

    /// Whether only the history, the death and the last good result of host `i` may differ.
    pub open spec fn same_but(&self, other: &Self, i: int) -> bool {
        &&& self.cfg == other.cfg
        &&& forall|j: int|
            0 <= j < self.count() && j != i ==> {
                &&& #[trigger] self.host_state_history@[j] == other.host_state_history@[j]
                &&& self.ping_child_deaths@[j] == other.ping_child_deaths@[j]
                &&& self.ping_child_last_reachable@[j] == other.ping_child_last_reachable@[j]
            }
    }

    /// A monitor of which every host was started now.
    pub fn new(cfg: NetworkStatusModuleConfig, now: u128) -> (r: Self)
        ensures
            r.wf(),
            r.cfg == cfg,
            forall|i: int|
                0 <= i < r.count() ==> {
                    &&& #[trigger] r.history(i) == Seq::<bool>::empty()
                    &&& r.ping_child_deaths@[i] is None
                    &&& r.ping_child_last_reachable@[i] == Some(now)
                },
    {
        let mut host_state_history: Vec<BoundedVecDeque<bool>> = Vec::new();
        let mut ping_child_deaths: Vec<Option<u128>> = Vec::new();
        let mut ping_child_last_reachable: Vec<Option<u128>> = Vec::new();
        let n: usize = cfg.hosts.len();
        let mut i: usize = 0;
        while i < n
            invariant
                i <= n,
                host_state_history@.len() == i,
                ping_child_deaths@.len() == i,
                ping_child_last_reachable@.len() == i,
                forall|j: int|
                    0 <= j < i ==> {
                        &&& deque_contents(#[trigger] host_state_history@[j]) == Seq::<
                            bool,
                        >::empty()
                        &&& deque_limit(host_state_history@[j]) == PING_AVG_COUNT
                    },
                forall|j: int| 0 <= j < i ==> (#[trigger] ping_child_deaths@[j]) is None,
                forall|j: int|
                    0 <= j < i ==> #[trigger] ping_child_last_reachable@[j] == Some(now),
            decreases n - i,
        {
            host_state_history.push(deque_new(PING_AVG_COUNT, PING_AVG_COUNT));
            ping_child_deaths.push(None);
            ping_child_last_reachable.push(Some(now));
            i += 1;
        }
        NetworkStatusModule {
            cfg,
            host_state_history,
            ping_child_deaths,
            ping_child_last_reachable,
        }
    }

    /// Seconds between two pings.
    pub fn get_ping_period(mode: NetworkMode) -> (r: u64)
        ensures
            r == ping_period(mode),
    {
        match mode {
            NetworkMode::LowBandwith => 5,
            NetworkMode::Unrestricted => 1,
        }
    }

    /// Seconds without a good result after which a process is killed.
    pub fn get_stale_child_timeout(mode: NetworkMode) -> (r: u64)
        ensures
            r == stale_timeout(mode),
    {
        let twice: u64 = Self::get_ping_period(mode) * 2;
        if twice < 5 {
            twice
        } else {
            5
        }
    }

    /// Milliseconds to wait for results, behind the time in which they are gathered.
    pub fn poll_duration_ms(mode: NetworkMode) -> (r: u64)
        ensures
            r == ping_period(mode) * 1000 - AGGREGATE_DELAY_MS,
    {
        Self::get_ping_period(mode) * 1000 - AGGREGATE_DELAY_MS
    }

    /// Arguments of the `ping` process of a host.
    pub fn ping_args(host: &str, mode: NetworkMode) -> (r: Vec<String>)
        ensures
            text::texts(r@) == seq![
                "-O"@,
                "-W"@,
                numeral::decimal_text(ping_period(mode)),
                "-i"@,
                numeral::decimal_text(ping_period(mode)),
                "-n"@,
                host@,
            ],
    {
        let period: u64 = Self::get_ping_period(mode);
        let mut r: Vec<String> = Vec::new();
        r.push("-O".to_owned());
        r.push("-W".to_owned());
        r.push(numeral::decimal(period));
        r.push("-i".to_owned());
        r.push(numeral::decimal(period));
        r.push("-n".to_owned());
        r.push(host.to_owned());
        r
    }

    /// Notes the results in a text that the `ping` process of host `idx` wrote: the history keeps
    /// the last ones, and a good one renews the time of the last good result.
    pub fn record_text(&mut self, idx: usize, s: &str, now: u128)
        requires
            old(self).wf(),
            idx < old(self).count(),
        ensures
            final(self).wf(),
            final(self).same_but(old(self), idx as int),
            final(self).history(idx as int) == last_of(
                old(self).history(idx as int) + results(s@),
                PING_AVG_COUNT as nat,
            ),
            final(self).ping_child_deaths@ == old(self).ping_child_deaths@,
            final(self).ping_child_last_reachable@[idx as int] == if results(s@).contains(true) {
                Some(now)
            } else {
                old(self).ping_child_last_reachable@[idx as int]
            },
    {
        let lines = text::lines(s);
        let ghost start = *self;
        let ghost all = results(s@);
        let mut i: usize = 0;
        assert(start.history(idx as int) + all.take(0) =~= start.history(idx as int));
        while i < lines.len()
            invariant
                i <= lines.len(),
                text::texts(lines@) == text::line_seq(s@),
                all == results(s@),
                self.wf(),
                idx < self.count(),
                self.same_but(&start, idx as int),
                start.wf(),
                self.ping_child_deaths@ == start.ping_child_deaths@,
                self.history(idx as int) == last_of(
                    start.history(idx as int) + all.take(i as int),
                    PING_AVG_COUNT as nat,
                ),
                self.ping_child_last_reachable@[idx as int] == if all.take(i as int).contains(
                    true,
                ) {
                    Some(now)
                } else {
                    start.ping_child_last_reachable@[idx as int]
                },
            decreases lines.len() - i,
        {
            assert(text::line_seq(s@)[i as int] == lines[i as int]@);
            let status = text::ends_with(lines[i].as_str(), " ms");
            assert(all[i as int] == status);
            let ghost before = *self;
            self.push_result(idx, status);
            if status {
                self.ping_child_last_reachable.set(idx, Some(now));
            }
            assert forall|j: int| 0 <= j < self.count() && j != idx implies {
                &&& #[trigger] self.host_state_history@[j] == start.host_state_history@[j]
                &&& self.ping_child_deaths@[j] == start.ping_child_deaths@[j]
                &&& self.ping_child_last_reachable@[j] == start.ping_child_last_reachable@[j]
            } by {
                assert(self.host_state_history@[j] == before.host_state_history@[j]);
            }
            proof {
                let h = start.history(idx as int);
                assert(h + all.take(i + 1) =~= (h + all.take(i as int)).push(status));
                last_of_push(h + all.take(i as int), status, PING_AVG_COUNT as nat);
                assert(all.take(i + 1) =~= all.take(i as int).push(status));
                if status {
                    assert(all.take(i + 1)[i as int] == true);
                } else {
                    let t = all.take(i + 1);
                    if t.contains(true) {
                        let k = choose|k: int| 0 <= k < t.len() && t[k] == true;
                        assert(all.take(i as int)[k] == true);
                    }
                    let u = all.take(i as int);
                    if u.contains(true) {
                        let k = choose|k: int| 0 <= k < u.len() && u[k] == true;
                        assert(t[k] == true);
                    }
                }
            }
            i += 1;
        }
        assert(all.take(i as int) =~= all);
    }

    /// Notes the results in the bytes that the `ping` process of host `idx` wrote.
    pub fn record_output(&mut self, idx: usize, read: &[u8], now: u128)
        requires
            old(self).wf(),
            idx < old(self).count(),
        ensures
            final(self).wf(),
            final(self).same_but(old(self), idx as int),
            final(self).history(idx as int) == last_of(
                old(self).history(idx as int) + results(bytes::lossy_text(read@)),
                PING_AVG_COUNT as nat,
            ),
            final(self).ping_child_deaths@ == old(self).ping_child_deaths@,
            final(self).ping_child_last_reachable@[idx as int] == if results(
                bytes::lossy_text(read@),
            ).contains(true) {
                Some(now)
            } else {
                old(self).ping_child_last_reachable@[idx as int]
            },
    {
        let s = bytes::from_utf8_lossy(read);
        self.record_text(idx, s.as_str(), now);
    }

    fn push_result(&mut self, idx: usize, status: bool)
        requires
            old(self).wf(),
            idx < old(self).count(),
        ensures
            final(self).wf(),
            final(self).same_but(old(self), idx as int),
            final(self).ping_child_deaths == old(self).ping_child_deaths,
            final(self).ping_child_last_reachable == old(self).ping_child_last_reachable,
            final(self).history(idx as int) == last_of(
                old(self).history(idx as int).push(status),
                PING_AVG_COUNT as nat,
            ),
    {
        let ghost start = *self;
        let d = &mut self.host_state_history[idx];
        deque_push(d, status);
        assert(self.history(idx as int) =~= last_of(
            start.history(idx as int).push(status),
            PING_AVG_COUNT as nat,
        ));
    }

    /// Hosts without a good result for too long, whose process is to be killed; their last good
    /// result is forgotten.
    pub fn take_stale(&mut self, now: u128, mode: NetworkMode) -> (r: Vec<usize>)
        requires
            old(self).wf(),
        ensures
            final(self).wf(),
            final(self).cfg == old(self).cfg,
            final(self).host_state_history == old(self).host_state_history,
            final(self).ping_child_deaths == old(self).ping_child_deaths,
            final(self).ping_child_last_reachable@ == without_due(
                old(self).ping_child_last_reachable@,
                now,
                stale_timeout(mode),
            ),
            r@ == due_positions(
                old(self).ping_child_last_reachable@,
                now,
                stale_timeout(mode),
            ),
    {
        let timeout: u64 = Self::get_stale_child_timeout(mode);
        let ghost start = *self;
        let n: usize = self.cfg.hosts.len();
        let ghost entries = start.ping_child_last_reachable@;
        let mut r: Vec<usize> = Vec::new();
        let mut i: usize = 0;
        assert(entries.take(0) =~= Seq::empty());
        assert(entries.skip(0) =~= entries);
        assert(without_due(entries, now, stale_timeout(mode)).take(0) + entries =~= entries);
        while i < n
            invariant
                i <= n,
                n == start.count(),
                timeout == stale_timeout(mode),
                start.wf(),
                self.wf(),
                self.cfg == start.cfg,
                self.host_state_history == start.host_state_history,
                self.ping_child_deaths == start.ping_child_deaths,
                entries == start.ping_child_last_reachable@,
                self.ping_child_last_reachable@ == without_due(
                    entries,
                    now,
                    stale_timeout(mode),
                ).take(i as int) + entries.skip(i as int),
                r@ == due_positions(entries.take(i as int), now, stale_timeout(mode)),
            decreases n - i,
        {
            let entry = self.ping_child_last_reachable[i];
            assert(entry == entries[i as int]);
            assert(entries.take(i + 1).drop_last() =~= entries.take(i as int));
            if entry_due(entry, now, timeout) {
                self.ping_child_last_reachable.set(i, None);
                r.push(i);
            }
            assert(self.ping_child_last_reachable@ =~= without_due(
                entries,
                now,
                stale_timeout(mode),
            ).take(i + 1) + entries.skip(i + 1));
            i += 1;
        }
        assert(entries.take(i as int) =~= entries);
        assert(self.ping_child_last_reachable@ =~= without_due(
            entries,
            now,
            stale_timeout(mode),
        ));
        r
    }

    /// Notes that the process of host `i` has ended: true where that was not known yet.
    pub fn note_death(&mut self, i: usize, now: u128) -> (r: bool)
        requires
            old(self).wf(),
            i < old(self).count(),
        ensures
            final(self).wf(),
            final(self).cfg == old(self).cfg,
            final(self).host_state_history == old(self).host_state_history,
            final(self).ping_child_last_reachable == old(self).ping_child_last_reachable,
            r == old(self).ping_child_deaths@[i as int] is None,
            final(self).ping_child_deaths@ == if r {
                old(self).ping_child_deaths@.update(i as int, Some(now))
            } else {
                old(self).ping_child_deaths@
            },
    {
        if self.ping_child_deaths[i].is_some() {
            false
        } else {
            self.ping_child_deaths.set(i, Some(now));
            true
        }
    }

    /// Notes a bad result of host `i`.
    pub fn mark_down(&mut self, i: usize)
        requires
            old(self).wf(),
            i < old(self).count(),
        ensures
            final(self).wf(),
            final(self).same_but(old(self), i as int),
            final(self).ping_child_deaths == old(self).ping_child_deaths,
            final(self).ping_child_last_reachable == old(self).ping_child_last_reachable,
            final(self).history(i as int) == last_of(
                old(self).history(i as int).push(false),
                PING_AVG_COUNT as nat,
            ),
    {
        self.push_result(i, false);
    }

    /// The first host whose process ended long enough ago to be started again; its death is
    /// forgotten.
    #[verifier::loop_isolation(false)]
    pub fn next_restart(&mut self, now: u128, mode: NetworkMode) -> (r: Option<usize>)
        requires
            old(self).wf(),
        ensures
            final(self).wf(),
            final(self).cfg == old(self).cfg,
            final(self).host_state_history == old(self).host_state_history,
            final(self).ping_child_last_reachable == old(self).ping_child_last_reachable,
            match r {
                Some(i) => {
                    &&& i < old(self).count()
                    &&& is_due(old(self).ping_child_deaths@[i as int], now, ping_period(mode))
                    &&& forall|j: int|
                        0 <= j < i ==> !is_due(
                            #[trigger] old(self).ping_child_deaths@[j],
                            now,
                            ping_period(mode),
                        )
                    &&& final(self).ping_child_deaths@ == old(self).ping_child_deaths@.update(
                        i as int,
                        None,
                    )
                },
                None => {
                    &&& forall|j: int|
                        0 <= j < old(self).count() ==> !is_due(
                            #[trigger] old(self).ping_child_deaths@[j],
                            now,
                            ping_period(mode),
                        )
                    &&& final(self).ping_child_deaths == old(self).ping_child_deaths
                },
            },
    {
        let period: u64 = Self::get_ping_period(mode);
        let n: usize = self.cfg.hosts.len();
        let ghost start = *self;
        let mut i: usize = 0;
        while i < n
            invariant
                i <= n,
                n == self.count(),
                period == ping_period(mode),
                self.wf(),
                *self == start,
                forall|j: int|
                    0 <= j < i ==> !is_due(
                        #[trigger] start.ping_child_deaths@[j],
                        now,
                        ping_period(mode),
                    ),
            decreases n - i,
        {
            if entry_due(self.ping_child_deaths[i], now, period) {
                self.ping_child_deaths.set(i, None);
                return Some(i);
            }
            i += 1;
        }
        None
    }

    /// Notes that the process of host `i` was started again.
    pub fn restarted(&mut self, i: usize, now: u128)
        requires
            old(self).wf(),
            i < old(self).count(),
        ensures
            final(self).wf(),
            final(self).cfg == old(self).cfg,
            final(self).host_state_history == old(self).host_state_history,
            final(self).ping_child_deaths == old(self).ping_child_deaths,
            final(self).ping_child_last_reachable@ == old(self).ping_child_last_reachable@.update(
                i as int,
                Some(now),
            ),
    {
        self.ping_child_last_reachable.set(i, Some(now));
    }

    /// State to show: the hosts whose last results are mostly good, and the running VPNs.
    pub fn state(&self, interfaces: &Vec<String>, openvpn: bool) -> (r: NetworkStatusModuleState)
        requires
            self.wf(),
        ensures
            r.reachable_hosts@.len() == self.count(),
            forall|i: int|
                0 <= i < self.count() ==> #[trigger] r.reachable_hosts@[i] == mostly_good(
                    self.history(i),
                ),
            text::texts(r.vpn@) == vpn_names(text::texts(interfaces@), openvpn),
    {
        let mut reachable_hosts: Vec<bool> = Vec::new();
        let n: usize = self.host_state_history.len();
        let mut i: usize = 0;
        while i < n
            invariant
                i <= n,
                n == self.host_state_history@.len(),
                reachable_hosts@.len() == i,
                forall|j: int|
                    0 <= j < i ==> #[trigger] reachable_hosts@[j] == mostly_good(self.history(j)),
            decreases n - i,
        {
            let items = deque_items(&self.host_state_history[i]);
            let good: usize = count(&items, true);
            let bad: usize = count(&items, false);
            reachable_hosts.push(good > bad);
            i += 1;
        }
        let vpn = list_vpn(interfaces, openvpn);
        NetworkStatusModuleState { reachable_hosts, vpn }
    }
}

proof fn last_of_push(s: Seq<bool>, x: bool, n: nat)
    requires
        n > 0,
    ensures
        last_of(last_of(s, n).push(x), n) == last_of(s.push(x), n),
{
    assert(last_of(last_of(s, n).push(x), n) =~= last_of(s.push(x), n));
}

fn entry_due(entry: Option<u128>, now: u128, secs: u64) -> (r: bool)
    requires
        secs <= 1000,
    ensures
        r == is_due(entry, now, secs as nat),
{
    match entry {
        Some(ts) => now > ts && now - ts > secs as u128 * 1_000_000_000,
        None => false,
    }
}

fn count(v: &Vec<bool>, x: bool) -> (r: usize)
    ensures
        r == count_of(v@, x),
{
    let mut r: usize = 0;
    let mut i: usize = 0;
    while i < v.len()
        invariant
            i <= v.len(),
            r <= i,
            r == count_of(v@.take(i as int), x),
        decreases v.len() - i,
    {
        assert(v@.take(i + 1).drop_last() =~= v@.take(i as int));
        if v[i] == x {
            r += 1;
        }
        i += 1;
    }
    assert(v@.take(i as int) =~= v@);
    r
}

fn list_vpn(interfaces: &Vec<String>, openvpn: bool) -> (r: Vec<String>)
    ensures
        text::texts(r@) == vpn_names(text::texts(interfaces@), openvpn),
{
    let ghost all = text::texts(interfaces@);
    let ghost p = |i: Seq<char>| text::has_prefix(i, "wg"@);
    let mut names: Vec<String> = Vec::new();
    let mut i: usize = 0;
    proof {
        reveal(Seq::filter);
        assert(all.take(0).filter(p) =~= Seq::<Seq<char>>::empty());
        assert(text::texts(names@) =~= Seq::<Seq<char>>::empty());
    }
    while i < interfaces.len()
        invariant
            i <= interfaces.len(),
            all == text::texts(interfaces@),
            p == (|i: Seq<char>| text::has_prefix(i, "wg"@)),
            text::texts(names@) == all.take(i as int).filter(p),
        decreases interfaces.len() - i,
    {
        proof {
            reveal(Seq::filter);
            assert(all.take(i + 1).drop_last() =~= all.take(i as int));
            assert(all.take(i + 1).last() == interfaces[i as int]@);
        }
        if text::starts_with(interfaces[i].as_str(), "wg") {
            names.push(interfaces[i].clone());
        }
        i += 1;
    }
    assert(all.take(i as int) =~= all);
    if openvpn {
        names.push("ovpn".to_owned());
    }
    text::sort_texts(names)
}

/// A host is shown as reachable once all of its last results are good, and as unreachable once all
/// of them are bad, whatever came before.
pub proof fn recent_results_decide(before: Seq<bool>, recent: Seq<bool>, x: bool)
    requires
        recent.len() >= PING_AVG_COUNT,
        forall|i: int| 0 <= i < recent.len() ==> recent[i] == x,
    ensures
        mostly_good(last_of(before + recent, PING_AVG_COUNT as nat)) == x,
{
    let h = last_of(before + recent, PING_AVG_COUNT as nat);
    assert(h =~= seq![x, x, x]);
    reveal_with_fuel(count_of, 4);
    assert(h.drop_last() =~= seq![x, x]);
    assert(h.drop_last().drop_last() =~= seq![x]);
    assert(h.drop_last().drop_last().drop_last() =~= Seq::<bool>::empty());
}

// Rendering

pub open spec fn host_fragment(host: NetworkStatusHost, reachable: bool) -> Seq<char> {
    markup::styled(
        Palette::SolarizedDark,
        host.name@,
        if !reachable && host.warn_unreachable {
            Some(Color::Attention)
        } else {
            None
        },
        if reachable {
            Some(Color::Foreground)
        } else {
            None
        },
    )
}

pub open spec fn host_fragments(hosts: Seq<NetworkStatusHost>, reachable: Seq<bool>) -> Seq<
    Seq<char>,
> {
    Seq::new(
        if hosts.len() < reachable.len() {
            hosts.len()
        } else {
            reachable.len()
        },
        |i: int| host_fragment(hosts[i], reachable[i]),
    )
}

pub open spec fn vpn_fragments(vpn: Seq<String>) -> Seq<Seq<char>> {
    if vpn.len() == 0 {
        Seq::empty()
    } else {
        seq![
            " "@ + markup::styled(
                Palette::SolarizedDark,
                "\u{f0483}"@,
                Some(Color::MainIcon),
                None,
            ),
        ] + Seq::new(
            vpn.len(),
            |i: int|
                markup::styled(Palette::SolarizedDark, vpn[i]@, None, Some(Color::Foreground)),
        )
    }
}

/// Parts of the markup: the icon, the hosts, the VPNs.
pub open spec fn fragments(
    hosts: Seq<NetworkStatusHost>,
    state: NetworkStatusModuleState,
) -> Seq<Seq<char>> {
    seq![markup::styled(Palette::SolarizedDark, "\u{e9c6}"@, Some(Color::MainIcon), None)]
        + host_fragments(hosts, state.reachable_hosts@) + vpn_fragments(state.vpn@)
}

impl RenderablePolybarModule for NetworkStatusModule {
    type State = Option<NetworkStatusModuleState>;

    open spec fn renderable(&self, state: &Option<NetworkStatusModuleState>) -> bool {
        true
    }

    open spec fn rendered(&self, state: &Option<NetworkStatusModuleState>) -> Seq<char> {
        match state {
            Some(s) => text::joined(fragments(self.cfg.hosts@, *s), " "@),
            None => markup::styled(
                Palette::SolarizedDark,
                ICON_WARNING@,
                Some(Color::Attention),
                None,
            ),
        }
    }

    fn can_render(&self, state: &Option<NetworkStatusModuleState>) -> (r: bool) {
        true
    }

    #[verifier::loop_isolation(false)]
    fn render(&self, state: &Option<NetworkStatusModuleState>) -> (r: String) {
        match state {
            Some(state) => {
                let mut parts: Vec<String> = Vec::new();
                parts.push(
                    markup::style(Palette::SolarizedDark, "\u{e9c6}", Some(Color::MainIcon), None),
                );
                let ghost first = text::texts(parts@);
                let ghost hosts = host_fragments(self.cfg.hosts@, state.reachable_hosts@);
                let mut i: usize = 0;
                assert(first + hosts.take(0) =~= first);
                while i < self.cfg.hosts.len() && i < state.reachable_hosts.len()
                    invariant
                        i <= self.cfg.hosts.len(),
                        i <= state.reachable_hosts.len(),
                        text::texts(parts@) == first + hosts.take(i as int),
                    decreases self.cfg.hosts.len() - i,
                {
                    let host = &self.cfg.hosts[i];
                    let reachable = state.reachable_hosts[i];
                    let part = markup::style(
                        Palette::SolarizedDark,
                        host.name.as_str(),
                        if !reachable && host.warn_unreachable {
                            Some(Color::Attention)
                        } else {
                            None
                        },
                        if reachable {
                            Some(Color::Foreground)
                        } else {
                            None
                        },
                    );
                    assert(part@ == hosts[i as int]);
                    parts.push(part);
                    i += 1;
                    assert(first + hosts.take(i as int) =~= (first + hosts.take(i - 1)).push(
                        hosts[i - 1],
                    ));
                }
                assert(hosts.take(i as int) =~= hosts);
                if state.vpn.len() > 0 {
                    let icon = markup::style(
                        Palette::SolarizedDark,
                        "\u{f0483}",
                        Some(Color::MainIcon),
                        None,
                    );
                    let mut part = " ".to_owned();
                    part.append(icon.as_str());
                    parts.push(part);
                    let ghost second = text::texts(parts@);
                    let ghost vpns = vpn_fragments(state.vpn@).skip(1);
                    let mut k: usize = 0;
                    assert(second + vpns.take(0) =~= second);
                    while k < state.vpn.len()
                        invariant
                            k <= state.vpn.len(),
                            text::texts(parts@) == second + vpns.take(k as int),
                        decreases state.vpn.len() - k,
                    {
                        let part = markup::style(
                            Palette::SolarizedDark,
                            state.vpn[k].as_str(),
                            None,
                            Some(Color::Foreground),
                        );
                        assert(part@ == vpns[k as int]);
                        parts.push(part);
                        k += 1;
                        assert(second + vpns.take(k as int) =~= (second + vpns.take(k - 1)).push(
                            vpns[k - 1],
                        ));
                    }
                    assert(vpns.take(k as int) =~= vpns);
                }
                assert(text::texts(parts@) =~= fragments(self.cfg.hosts@, *state));
                text::join(&parts, " ")
            },
            None => markup::style(
                Palette::SolarizedDark,
                ICON_WARNING,
                Some(Color::Attention),
                None,
            ),
        }
    }
}

// What the results stand for

proof fn counts_are_those_of_the_multiset(s: Seq<bool>, x: bool)
    ensures
        count_of(s, x) == s.to_multiset().count(x),
    decreases s.len(),
{
    broadcast use vstd::seq_lib::group_to_multiset_ensures;

    if s.len() > 0 {
        counts_are_those_of_the_multiset(s.drop_last(), x);
        assert(s.drop_last().push(s.last()) =~= s);
    }
}

/// A host is shown as reachable exactly if it has more good results than bad ones.
pub proof fn the_majority_decides(s: Seq<bool>)
    ensures
        mostly_good(s) <==> s.to_multiset().count(true) > s.to_multiset().count(false),
{
    counts_are_those_of_the_multiset(s, true);
    counts_are_those_of_the_multiset(s, false);
}

/// The order in which the results came does not matter.
pub proof fn order_does_not_matter(a: Seq<bool>, b: Seq<bool>)
    requires
        a.to_multiset() == b.to_multiset(),
    ensures
        mostly_good(a) == mostly_good(b),
{
    the_majority_decides(a);
    the_majority_decides(b);
}

/// Of up to three results, one bad one among two good ones does not make a host unreachable, nor one
/// good one among two bad ones reachable; without a result, or with as many good ones as bad ones, it
/// is not reachable.
pub proof fn a_single_result_is_outvoted(x: bool, y: bool, z: bool)
    ensures
        mostly_good(seq![x, y, z]) == ((x && y) || (y && z) || (x && z)),
        mostly_good(seq![x, y]) == (x && y),
        mostly_good(seq![x]) == x,
        !mostly_good(Seq::empty()),
        mostly_good(seq![true, true, false]),
        !mostly_good(seq![false, false, true]),
{
    reveal_with_fuel(count_of, 4);
    let s = seq![x, y, z];
    assert(s.drop_last() =~= seq![x, y]);
    assert(seq![x, y].drop_last() =~= seq![x]);
    assert(seq![x].drop_last() =~= Seq::<bool>::empty());
    let t = seq![true, true, false];
    assert(t.drop_last() =~= seq![true, true]);
    assert(seq![true, true].drop_last() =~= seq![true]);
    assert(seq![true].drop_last() =~= Seq::<bool>::empty());
    let u = seq![false, false, true];
    assert(u.drop_last() =~= seq![false, false]);
    assert(seq![false, false].drop_last() =~= seq![false]);
    assert(seq![false].drop_last() =~= Seq::<bool>::empty());
}

/// Each line of `ping` is one result, and a good one exactly if it ends in milliseconds; the lines
/// that follow are read on their own.
pub proof fn lines_are_results(l: Seq<char>, rest: Seq<char>)
    requires
        !l.contains('\n'),
        !l.contains('\r'),
    ensures
        results(l + " ms\n"@ + rest) == seq![true] + results(rest),
        (l.len() < 3 || l.last() != 's' || l[l.len() - 2] != 'm' || l[l.len() - 3] != ' ')
            ==> results(l + "\n"@ + rest) == seq![false] + results(rest),
{
    reveal_strlit(" ms\n");
    reveal_strlit(" ms");
    reveal_strlit("\n");
    let good = l + seq![' ', 'm', 's'];
    assert forall|i: int| 0 <= i < good.len() implies good[i] != '\n' by {
        if i < l.len() {
            assert(l.contains(l[i]));
        }
    }
    text::line_feeds_end_lines(good, rest);
    assert(l + " ms\n"@ + rest =~= good + seq!['\n'] + rest);
    assert(good.skip(good.len() - 3) =~= " ms"@);
    assert(results(l + " ms\n"@ + rest) =~= seq![true] + results(rest));
    if l.len() < 3 || l.last() != 's' || l[l.len() - 2] != 'm' || l[l.len() - 3] != ' ' {
        text::line_feeds_end_lines(l, rest);
        assert(l + "\n"@ + rest =~= l + seq!['\n'] + rest);
        if l.len() > 0 {
            assert(l.contains(l.last()));
        }
        if l.len() >= 3 {
            let t = l.skip(l.len() - 3);
            assert(t[0] == l[l.len() - 3] && t[1] == l[l.len() - 2] && t[2] == l.last());
        }
        assert(results(l + "\n"@ + rest) =~= seq![false] + results(rest));
    }
}

/// The history keeps the newest results, in their order, and as many as there is room for.
pub proof fn the_newest_results_are_kept(s: Seq<bool>, n: nat)
    ensures
        last_of(s, n).len() == if s.len() < n {
            s.len()
        } else {
            n
        },
        forall|k: int|
            1 <= k <= last_of(s, n).len() ==> #[trigger] last_of(s, n)[last_of(s, n).len() - k]
                == s[s.len() - k],
{
}

/// A process is stale, or long enough dead, exactly if more than the given seconds have passed.
pub proof fn due_entries_are_old(entries: Seq<Option<u128>>, now: u128, secs: nat, i: int)
    requires
        0 <= i < entries.len() <= usize::MAX,
    ensures
        due_positions(entries, now, secs).contains(i as usize) <==> (entries[i] matches Some(ts)
            && now > ts + secs * 1_000_000_000),
        without_due(entries, now, secs)[i] == if due_positions(entries, now, secs).contains(
            i as usize,
        ) {
            None
        } else {
            entries[i]
        },
    decreases entries.len(),
{
    due_positions_are_below(entries.drop_last(), now, secs);
    let before = due_positions(entries.drop_last(), now, secs);
    let all = due_positions(entries, now, secs);
    let last = (entries.len() - 1) as usize;
    if i < entries.len() - 1 {
        due_entries_are_old(entries.drop_last(), now, secs, i);
        if before.contains(i as usize) {
            let k = choose|k: int| 0 <= k < before.len() && before[k] == i as usize;
            assert(all[k] == i as usize);
        }
        if all.contains(i as usize) {
            let k = choose|k: int| 0 <= k < all.len() && all[k] == i as usize;
            assert(before[k] == i as usize);
        }
    } else {
        if is_due(entries.last(), now, secs) {
            assert(all[before.len() as int] == last);
        } else if all.contains(last) {
            let k = choose|k: int| 0 <= k < all.len() && all[k] == last;
            assert(before[k] < entries.len() - 1);
        }
    }
}

proof fn due_positions_are_below(entries: Seq<Option<u128>>, now: u128, secs: nat)
    requires
        entries.len() <= usize::MAX,
    ensures
        forall|k: int|
            0 <= k < due_positions(entries, now, secs).len() ==> #[trigger] due_positions(
                entries,
                now,
                secs,
            )[k] < entries.len(),
    decreases entries.len(),
{
    if entries.len() > 0 {
        due_positions_are_below(entries.drop_last(), now, secs);
        let before = due_positions(entries.drop_last(), now, secs);
        let all = due_positions(entries, now, secs);
        assert forall|k: int| 0 <= k < all.len() implies #[trigger] all[k] < entries.len() by {
            if k < before.len() {
                assert(all[k] == before[k]);
            }
        }
    }
}

/// A process has at least one period to answer, twice the period on an unrestricted network, and
/// never more than five seconds.
pub proof fn processes_have_time_to_answer(mode: NetworkMode)
    ensures
        ping_period(mode) <= stale_timeout(mode) <= 5,
        mode == NetworkMode::Unrestricted ==> stale_timeout(mode) == 2 * ping_period(mode),
        ping_period(NetworkMode::LowBandwith) == 5 * ping_period(NetworkMode::Unrestricted),
{
}

/// The VPNs that are shown are the interfaces of WireGuard, each as often as it is there, and
/// OpenVPN exactly if it runs; they are in order.
pub proof fn running_vpns_are_shown(interfaces: Seq<Seq<char>>, openvpn: bool)
    ensures
        ({
            let wg = interfaces.filter(
                |i: Seq<char>| i.len() >= 2 && i[0] == 'w' && i[1] == 'g',
            );
            vpn_names(interfaces, openvpn).to_multiset() == if openvpn {
                wg.to_multiset().insert("ovpn"@)
            } else {
                wg.to_multiset()
            }
        }),
        text::in_order_by(vpn_names(interfaces, openvpn), |s: Seq<char>| s),
{
    broadcast use vstd::seq_lib::group_to_multiset_ensures;

    reveal_strlit("wg");
    let p = |i: Seq<char>| text::has_prefix(i, "wg"@);
    let q = |i: Seq<char>| i.len() >= 2 && i[0] == 'w' && i[1] == 'g';
    assert forall|i: Seq<char>| #[trigger] p(i) == q(i) by {
        if q(i) {
            assert(i.take(2) =~= "wg"@);
        }
        if p(i) {
            assert(i.take(2)[0] == i[0] && i.take(2)[1] == i[1]);
        }
    }
    assert(p =~= q);
    let wg = interfaces.filter(p);
    let all = if openvpn {
        wg.push("ovpn"@)
    } else {
        wg
    };
    text::sorting_orders(all, |s: Seq<char>| s);
}

/// A host is underlined exactly if it is reachable, and warned of exactly if it is not and a warning
/// is wanted.
pub proof fn hosts_are_marked(host: NetworkStatusHost)
    ensures
        host_fragment(host, true) == markup::underlined(
            Palette::SolarizedDark,
            host.name@,
            Color::Foreground,
        ),
        host_fragment(host, false) == if host.warn_unreachable {
            markup::colored(Palette::SolarizedDark, host.name@, Color::Attention)
        } else {
            host.name@
        },
{
}

/// Positions are told in increasing order.
pub proof fn positions_increase(entries: Seq<Option<u128>>, now: u128, secs: nat, a: int, b: int)
    requires
        entries.len() <= usize::MAX,
        0 <= a < b < due_positions(entries, now, secs).len(),
    ensures
        due_positions(entries, now, secs)[a] < due_positions(entries, now, secs)[b],
    decreases entries.len(),
{
    let before = due_positions(entries.drop_last(), now, secs);
    due_positions_are_below(entries.drop_last(), now, secs);
    if b < before.len() {
        positions_increase(entries.drop_last(), now, secs, a, b);
    } else {
        assert(before[a] < entries.len() - 1);
    }
}

/// Whatever came before, a host is shown as reachable exactly if at least two of its last three
/// results are good.
pub proof fn the_last_three_results_decide(before: Seq<bool>, x: bool, y: bool, z: bool)
    ensures
        mostly_good(last_of(before + seq![x, y, z], PING_AVG_COUNT as nat)) == ((x && y) || (y && z)
            || (x && z)),
{
    assert(last_of(before + seq![x, y, z], PING_AVG_COUNT as nat) =~= seq![x, y, z]);
    a_single_result_is_outvoted(x, y, z);
}

}
