//! Growing delays between attempts.

use backon::BackoffBuilder;
use vstd::prelude::*;

verus! {

/// More nanoseconds than a `Duration` can hold.
pub const MAX_DELAY_NANOS: u128 = 0x1_0000_0000_0000_0000 * 1_000_000_000;

#[verifier::external_type_specification]
#[verifier::external_body]
pub struct ExExponentialBackoff(backon::ExponentialBackoff);

/// Nanoseconds of the first delay of a backoff, before chance stretches it.
pub uninterp spec fn shortest_delay(backoff: backon::ExponentialBackoff) -> nat;

/// Nanoseconds that no delay of a backoff grows beyond, before chance stretches it.
pub uninterp spec fn delay_limit(backoff: backon::ExponentialBackoff) -> nat;

/// Whether chance stretches the delays of a backoff.
pub uninterp spec fn has_jitter(backoff: backon::ExponentialBackoff) -> bool;

/// What each delay of a backoff is multiplied by to get the next, before chance stretches it, as
/// long as the limit is not reached.
pub uninterp spec fn delay_factor(backoff: backon::ExponentialBackoff) -> Seq<char>;

/// How many delays a backoff still gives.
pub uninterp spec fn delays_left(backoff: backon::ExponentialBackoff) -> nat;

/// Nanoseconds of the last delay of a backoff, before chance stretched it; none before the first.
pub uninterp spec fn last_base(backoff: backon::ExponentialBackoff) -> Option<nat>;

/// Whether a text is a digit above one, or a digit from one on, a point and a five.
pub open spec fn is_factor(s: Seq<char>) -> bool {
    ||| s.len() == 1 && '2' <= s[0] <= '9'
    ||| s.len() == 3 && '1' <= s[0] <= '9' && s[1] == '.' && s[2] == '5'
}

/// How many halves a factor has.
pub open spec fn halves_of(factor: Seq<char>) -> int {
    2 * (factor[0] as int - '0' as int) + if factor.len() == 1 {
        0int
    } else {
        1
    }
}

/// Whether a delay grows to another one: it is multiplied by the factor, up to the limit. The
/// product is that of single precision numbers, so it is stated up to a two-thousandth of the delay;
/// of whole seconds and a whole factor it is exact.
pub open spec fn grows(base: nat, grown: nat, halves: int, limit: nat) -> bool {
    if base >= limit {
        grown == limit
    } else {
        &&& grown <= limit
        &&& grown < limit ==> -base <= 1000 * (2 * grown - halves * base) <= base
        &&& grown == limit ==> 1000 * (2 * limit - halves * base) <= base
        &&& halves % 2 == 0 && base % 1_000_000_000 == 0 ==> 2 * grown == if halves * base < 2
            * limit {
            halves * base
        } else {
            2 * limit as int
        }
    }
}

/// Whether a delay follows the last one: the first is the shortest, and each other one has grown.
pub open spec fn follows(
    last: Option<nat>,
    base: nat,
    shortest: nat,
    halves: int,
    limit: nat,
) -> bool {
    match last {
        None => base == shortest,
        Some(b) => grows(b, base, halves, limit),
    }
}

/// Whether `n` is a delay as chance may stretch it: by less than as much again, from a second on.
pub open spec fn stretched(base: nat, n: u128, jitter: bool) -> bool {
    if jitter {
        base <= n <= 2 * base && (base >= 1_000_000_000 ==> n < 2 * base)
    } else {
        n == base
    }
}

/// `backon::ExponentialBuilder` and its `build`: delays that start at `min_secs` seconds, grow by
/// `factor` up to `max_secs`, are each stretched by chance, and go on for as many times as can be
/// counted. None was given yet.
#[verifier::external_body]
fn endless_backoff(factor: &str, min_secs: u64, max_secs: u64) -> (r: backon::ExponentialBackoff)
    requires
        is_factor(factor@),
        min_secs <= max_secs <= 1_000_000,
    ensures
        delay_factor(r) == factor@,
        shortest_delay(r) == min_secs * 1_000_000_000,
        delay_limit(r) == max_secs * 1_000_000_000,
        has_jitter(r),
        delays_left(r) == usize::MAX,
        last_base(r) is None,
{
    backon::ExponentialBuilder::default()
        .with_jitter()
        .with_factor(factor.parse().unwrap())
        .with_min_delay(std::time::Duration::from_secs(min_secs))
        .with_max_delay(std::time::Duration::from_secs(max_secs))
        .without_max_times()
        .build()
}

/// `backon::ExponentialBuilder` and its `build`: `max_times` delays that start at `min_ms`
/// milliseconds and double up to `max_ms`. None was given yet.
#[verifier::external_body]
fn bounded_backoff(min_ms: u64, max_ms: u64, max_times: usize) -> (r: backon::ExponentialBackoff)
    requires
        min_ms <= max_ms <= 1_000_000_000,
    ensures
        delay_factor(r) == "2"@,
        shortest_delay(r) == min_ms * 1_000_000,
        delay_limit(r) == max_ms * 1_000_000,
        !has_jitter(r),
        delays_left(r) == max_times,
        last_base(r) is None,
{
    backon::ExponentialBuilder::default()
        .with_min_delay(std::time::Duration::from_millis(min_ms))
        .with_max_delay(std::time::Duration::from_millis(max_ms))
        .with_max_times(max_times)
        .build()
}

/// `Iterator::next` of `backon::ExponentialBackoff`, in nanoseconds, as long as delays are left: the
/// first is the shortest one, and each other one the last multiplied by the factor, up to the limit.
/// Chance, where it plays a part, then adds a share below one of it: by how much is not stated.
#[verifier::external_body]
fn next_delay(backoff: &mut backon::ExponentialBackoff) -> (r: Option<u128>)
    requires
        is_factor(delay_factor(*old(backoff))),
        shortest_delay(*old(backoff)) == 0 || shortest_delay(*old(backoff)) >= 1_000_000,
        shortest_delay(*old(backoff)) <= delay_limit(*old(backoff)) <= 1_000_000_000_000_000,
        has_jitter(*old(backoff)) ==> shortest_delay(*old(backoff)) % 1_000_000_000 == 0,
    ensures
        delay_factor(*final(backoff)) == delay_factor(*old(backoff)),
        shortest_delay(*final(backoff)) == shortest_delay(*old(backoff)),
        delay_limit(*final(backoff)) == delay_limit(*old(backoff)),
        has_jitter(*final(backoff)) == has_jitter(*old(backoff)),
        match r {
            Some(n) => {
                &&& delays_left(*old(backoff)) > 0
                &&& delays_left(*final(backoff)) == delays_left(*old(backoff)) - 1
                &&& last_base(*final(backoff)) matches Some(b) && follows(
                    last_base(*old(backoff)),
                    b,
                    shortest_delay(*old(backoff)),
                    halves_of(delay_factor(*old(backoff))),
                    delay_limit(*old(backoff)),
                ) && stretched(b, n, has_jitter(*old(backoff)))
            },
            None => {
                &&& delays_left(*old(backoff)) == 0
                &&& delays_left(*final(backoff)) == 0
                &&& last_base(*final(backoff)) == last_base(*old(backoff))
            },
        },
{
    backoff.next().map(|d| d.as_nanos())
}

/// How delays grow.
pub enum Growth {
    /// From `min_secs` seconds by `factor` up to `max_secs`, each stretched by chance.
    Endless { factor: String, min_secs: u64, max_secs: u64 },
    /// From `min_ms` milliseconds by doubling up to `max_ms`, `max_times` of them.
    Bounded { min_ms: u64, max_ms: u64, max_times: usize },
}

impl Growth {
    /// Whether delays can grow that way.
    pub open spec fn wf(&self) -> bool {
        match *self {
            Growth::Endless { factor, min_secs, max_secs } => {
                is_factor(factor@) && min_secs <= max_secs <= 1_000_000
            },
            Growth::Bounded { min_ms, max_ms, max_times } => min_ms <= max_ms <= 1_000_000_000,
        }
    }

    /// What the delays grow by.
    pub open spec fn factor_text(&self) -> Seq<char> {
        match *self {
            Growth::Endless { factor, min_secs, max_secs } => factor@,
            Growth::Bounded { min_ms, max_ms, max_times } => "2"@,
        }
    }

    /// How many halves the factor has.
    pub open spec fn halves(&self) -> int {
        halves_of(self.factor_text())
    }

    /// The first delay, before chance stretches it, in nanoseconds.
    pub open spec fn shortest(&self) -> nat {
        match *self {
            Growth::Endless { factor, min_secs, max_secs } => min_secs as nat * 1_000_000_000,
            Growth::Bounded { min_ms, max_ms, max_times } => min_ms as nat * 1_000_000,
        }
    }

    /// The longest delay, before chance stretches it, in nanoseconds.
    pub open spec fn limit(&self) -> nat {
        match *self {
            Growth::Endless { factor, min_secs, max_secs } => max_secs as nat * 1_000_000_000,
            Growth::Bounded { min_ms, max_ms, max_times } => max_ms as nat * 1_000_000,
        }
    }

    /// Whether chance stretches the delays.
    pub open spec fn jittered(&self) -> bool {
        self is Endless
    }

    /// Whether a delay, before chance stretches it, is one of those that there can be.
    pub open spec fn allows(&self, base: nat) -> bool {
        &&& self.shortest() <= base <= self.limit()
        &&& self is Endless && self.halves() % 2 == 0 ==> base % 1_000_000_000 == 0
    }

    /// How many delays there are.
    pub open spec fn times(&self) -> int {
        match *self {
            Growth::Endless { factor, min_secs, max_secs } => usize::MAX as int,
            Growth::Bounded { min_ms, max_ms, max_times } => max_times as int,
        }
    }
}

/// A growing delay that can start over.
pub struct Backoff {
    pub growth: Growth,
    pub current: backon::ExponentialBackoff,
}

impl Backoff {
    /// Whether the delays are those of the growth.
    pub open spec fn wf(&self) -> bool {
        &&& self.growth.wf()
        &&& delay_factor(self.current) == self.growth.factor_text()
        &&& shortest_delay(self.current) == self.growth.shortest()
        &&& delay_limit(self.current) == self.growth.limit()
        &&& has_jitter(self.current) == self.growth.jittered()
        &&& match self.base() {
            Some(b) => self.growth.allows(b),
            None => true,
        }
    }

    /// The last delay, before chance stretched it; none at the start.
    pub open spec fn base(&self) -> Option<nat> {
        last_base(self.current)
    }

    /// How many delays are left before it has to start over.
    pub open spec fn left(&self) -> nat {
        delays_left(self.current)
    }

    /// Whether it is a fresh one whose delays start at `min_secs` seconds and grow by `factor` up to
    /// `max_secs`.
    pub open spec fn starts_as(&self, factor: Seq<char>, min_secs: nat, max_secs: nat) -> bool {
        &&& self.wf()
        &&& match self.growth {
            Growth::Endless { factor: f, min_secs: a, max_secs: b } => {
                f@ == factor && a == min_secs && b == max_secs
            },
            _ => false,
        }
        &&& self.left() == usize::MAX
        &&& self.base() is None
    }

    /// Delays that start at `min_secs` seconds and grow by `factor` up to `max_secs`.
    pub fn new(factor: &str, min_secs: u64, max_secs: u64) -> (r: Self)
        requires
            is_factor(factor@),
            min_secs <= max_secs <= 1_000_000,
        ensures
            r.starts_as(factor@, min_secs as nat, max_secs as nat),
    {
        Backoff {
            growth: Growth::Endless { factor: factor.to_owned(), min_secs, max_secs },
            current: endless_backoff(factor, min_secs, max_secs),
        }
    }

    /// Delays that start at `min_ms` milliseconds and double up to `max_ms`, `max_times` of them.
    pub fn bounded(min_ms: u64, max_ms: u64, max_times: usize) -> (r: Self)
        requires
            min_ms <= max_ms <= 1_000_000_000,
        ensures
            r.wf(),
            r.growth == (Growth::Bounded { min_ms, max_ms, max_times }),
            r.left() == max_times,
            r.base() is None,
    {
        Backoff {
            growth: Growth::Bounded { min_ms, max_ms, max_times },
            current: bounded_backoff(min_ms, max_ms, max_times),
        }
    }

    /// Starts over.
    pub fn reset(&mut self)
        requires
            old(self).wf(),
        ensures
            final(self).wf(),
            final(self).growth == old(self).growth,
            final(self).left() == old(self).growth.times(),
            final(self).base() is None,
    {
        let current = match &self.growth {
            Growth::Endless { factor, min_secs, max_secs } => endless_backoff(
                factor.as_str(),
                *min_secs,
                *max_secs,
            ),
            Growth::Bounded { min_ms, max_ms, max_times } => bounded_backoff(
                *min_ms,
                *max_ms,
                *max_times,
            ),
        };
        self.current = current;
    }

    /// The next delay in nanoseconds.
    pub fn next(&mut self) -> (r: Option<u128>)
        requires
            old(self).wf(),
        ensures
            match r {
                Some(n) => advances(*old(self), *final(self), n) && n < MAX_DELAY_NANOS,
                None => {
                    &&& final(self).wf()
                    &&& final(self).growth == old(self).growth
                    &&& old(self).left() == 0 && final(self).left() == 0
                    &&& final(self).base() == old(self).base()
                },
            },
    {
        let ghost before = *self;
        proof {
            reveal_strlit("2");
        }
        let r = next_delay(&mut self.current);
        proof {
            if let Some(n) = r {
                let b = self.base()->0;
                if let Some(a) = before.base() {
                    grown_is_allowed(self.growth, a, b);
                }
            }
        }
        r
    }
}

/// What taking the next delay does to a backoff: it is one less that is left, and it is the
/// shortest at the start, else the last one grown by the factor, up to the limit; chance may stretch
/// it.
pub open spec fn advances(before: Backoff, after: Backoff, n: u128) -> bool {
    &&& after.wf()
    &&& after.growth == before.growth
    &&& before.left() > 0
    &&& after.left() == before.left() - 1
    &&& after.base() matches Some(b) && follows(
        before.base(),
        b,
        before.growth.shortest(),
        before.growth.halves(),
        before.growth.limit(),
    ) && stretched(b, n, before.growth.jittered())
}

proof fn grown_is_allowed(growth: Growth, base: nat, grown: nat)
    requires
        growth.wf(),
        growth.allows(base),
        grows(base, grown, growth.halves(), growth.limit()),
    ensures
        growth.allows(grown),
{
    reveal_strlit("2");
    let h = growth.halves();
    assert(3 <= h <= 19);
    assert(3 * base <= h * base) by (nonlinear_arith)
        requires
            3 <= h,
            0 <= base,
    ;
    if growth is Endless && h % 2 == 0 && base < growth.limit() {
        let k = h / 2;
        let q = base as int / 1_000_000_000;
        assert(h == 2 * k);
        assert(base == 1_000_000_000 * q);
        assert(h * base == 2 * (k * base)) by (nonlinear_arith)
            requires
                h == 2 * k,
        ;
        assert(k * base == 1_000_000_000 * (k * q)) by (nonlinear_arith)
            requires
                base == 1_000_000_000 * q,
        ;
        assert((1_000_000_000 * (k * q)) % 1_000_000_000 == 0);
    }
}

/// A delay that follows another one is longer before chance stretches it, by a quarter at least,
/// until the limit is reached; it never gets shorter, nor longer than the limit.
pub proof fn delays_grow(before: Backoff, after: Backoff, n: u128)
    requires
        before.wf(),
        before.base() is Some,
        advances(before, after, n),
    ensures
        before.base()->0 <= after.base()->0 <= before.growth.limit(),
        after.base()->0 == before.growth.limit() || 4 * after.base()->0 >= 5 * before.base()->0,
        before.growth.jittered() ==> after.base()->0 <= n <= 2 * after.base()->0,
        !before.growth.jittered() ==> n == after.base()->0,
{
    reveal_strlit("2");
    let h = before.growth.halves();
    let base = before.base()->0;
    assert(3 <= h <= 19);
    assert(3 * base <= h * base) by (nonlinear_arith)
        requires
            3 <= h,
            0 <= base,
    ;
}

/// Delays that start over begin with the shortest one again.
pub proof fn delays_start_over(before: Backoff, after: Backoff, n: u128)
    requires
        before.base() is None,
        advances(before, after, n),
    ensures
        after.base() == Some(before.growth.shortest()),
        before.growth.jittered() ==> before.growth.shortest() <= n <= 2
            * before.growth.shortest(),
        before.growth.shortest() >= 1_000_000_000 ==> n < 2 * before.growth.shortest(),
        !before.growth.jittered() ==> n == before.growth.shortest(),
{
}

/// From some delay on, every further one is the limit, before chance stretches it: the `k`th has
/// grown by `k` quarters of the shortest at least.
pub proof fn delays_reach_the_limit(states: Seq<Backoff>, delays: Seq<u128>, k: int)
    requires
        0 <= k < delays.len(),
        states.len() == delays.len() + 1,
        states[0].wf(),
        states[0].base() is None,
        forall|i: int|
            0 <= i < delays.len() ==> #[trigger] advances(states[i], states[i + 1], delays[i]),
    ensures
        states[k + 1].wf(),
        states[k + 1].growth == states[0].growth,
        states[k + 1].base() is Some,
        states[k + 1].base()->0 == states[0].growth.limit() || 4 * states[k + 1].base()->0 >= (4
            + k) * states[0].growth.shortest(),
    decreases k,
{
    assert(advances(states[k], states[k + 1], delays[k]));
    let s = states[0].growth.shortest();
    if k > 0 {
        delays_reach_the_limit(states, delays, k - 1);
        delays_grow(states[k], states[k + 1], delays[k]);
        assert((4 + k) * s == (4 + (k - 1)) * s + s) by (nonlinear_arith);
    } else {
        assert((4 + k) * s == 4 * s);
    }
}

/// How long to wait before the next update.
#[derive(Clone, Copy, Debug, PartialEq, Eq, Structural)]
pub enum Delay {
    /// Not at all.
    NoWait,
    /// For that many nanoseconds.
    Nanos(u128),
    /// The growing delays have come to their end.
    Exhausted,
}

/// The delay for what a backoff returned.
pub fn delay_from(next: Option<u128>) -> (r: Delay)
    ensures
        r == match next {
            Some(n) => Delay::Nanos(n),
            None => Delay::Exhausted,
        },
{
    match next {
        Some(n) => Delay::Nanos(n),
        None => Delay::Exhausted,
    }
}

/// `std::time::SystemTime::now`, in nanoseconds from the epoch. It depends on the clock, so nothing
/// is stated of it but that a `Duration` can hold its distance.
#[verifier::external_body]
pub(crate) fn wall_clock() -> (r: i128)
    ensures
        -MAX_DELAY_NANOS < r < MAX_DELAY_NANOS,
{
    match std::time::SystemTime::now().duration_since(std::time::UNIX_EPOCH) {
        Ok(d) => d.as_nanos() as i128,
        Err(e) => -(e.duration().as_nanos() as i128),
    }
}

/// What a wait after an update does to a backoff, and how long it is: a success starts the delays
/// over, a failure takes the next one, as long as there are any.
pub open spec fn waits(
    before: Backoff,
    after: Backoff,
    last: Option<bool>,
    nominal: u128,
    delay: Delay,
) -> bool {
    &&& after.wf()
    &&& after.growth == before.growth
    &&& match last {
        None => after == before && delay == Delay::NoWait,
        Some(true) => {
            &&& after.left() == before.growth.times()
            &&& after.base() is None
            &&& delay == Delay::Nanos(nominal)
        },
        Some(false) => match delay {
            Delay::Nanos(n) => advances(before, after, n),
            Delay::Exhausted => {
                &&& before.left() == 0 && after.left() == 0
                &&& after.base() == before.base()
            },
            Delay::NoWait => false,
        },
    }
}

impl Backoff {
    /// Wait after the last update, `last` telling whether it succeeded: a success starts the
    /// delays over, a failure takes the next one.
    pub fn delay_after(&mut self, last: Option<bool>, nominal: u128) -> (r: Delay)
        requires
            old(self).wf(),
        ensures
            waits(*old(self), *final(self), last, nominal, r),
    {
        match last {
            None => {
                Delay::NoWait
            },
            Some(true) => {
                self.reset();
                Delay::Nanos(nominal)
            },
            Some(false) => {
                let growing = self.next();
                delay_from(growing)
            },
        }
    }
}

/// The first update is not waited for, one after a success comes after the nominal delay, and one
/// after a failure after a growing one.
pub proof fn failures_wait_for_a_growing_delay(
    before: Backoff,
    after: Backoff,
    nominal: u128,
    delay: Delay,
)
    ensures
        waits(before, after, None, nominal, delay) ==> delay == Delay::NoWait && after == before,
        waits(before, after, Some(true), nominal, delay) ==> delay == Delay::Nanos(nominal)
            && after.base() is None && after.growth == before.growth,
        waits(before, after, Some(false), nominal, delay) && before.left() > 0 ==> delay is Nanos
            && after.left() == before.left() - 1,
        waits(before, after, Some(false), nominal, delay) && before.left() == 0 ==> delay
            == Delay::Exhausted,
{
}

/// Delays are given in seconds, or in milliseconds, and counted in nanoseconds.
pub proof fn delays_are_counted_in_nanoseconds(
    factor: String,
    min: u64,
    max: u64,
    max_times: usize,
)
    ensures
        (Growth::Endless { factor, min_secs: min, max_secs: max }).shortest() == min as nat
            * 1_000_000_000,
        (Growth::Endless { factor, min_secs: min, max_secs: max }).limit() == max as nat
            * 1_000_000_000,
        (Growth::Bounded { min_ms: min, max_ms: max, max_times }).shortest() == min as nat
            * 1_000_000,
        (Growth::Bounded { min_ms: min, max_ms: max, max_times }).limit() == max as nat * 1_000_000,
        (Growth::Bounded { min_ms: min, max_ms: max, max_times }).times() == max_times,
        (Growth::Endless { factor, min_secs: min, max_secs: max }).jittered(),
        !(Growth::Bounded { min_ms: min, max_ms: max, max_times }).jittered(),
{
}

/// A factor is a digit, or a digit and a half.
pub proof fn factors_count_halves()
    ensures
        forall|f: Seq<char>|
            f.len() == 1 && '2' <= f[0] <= '9' ==> #[trigger] is_factor(f) && halves_of(f) == 2 * (
            f[0] as int - 48),
        forall|f: Seq<char>|
            f.len() == 3 && '1' <= f[0] <= '9' && f[1] == '.' && f[2] == '5' ==> #[trigger]
                is_factor(f) && halves_of(f) == 2 * (f[0] as int - 48) + 1,
        forall|f: Seq<char>| #[trigger] is_factor(f) ==> 3 <= halves_of(f) <= 19,
{
}

}
