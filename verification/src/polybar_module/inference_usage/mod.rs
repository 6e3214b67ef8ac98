//! Quota left of inference providers.

use vstd::arithmetic::power2::*;
use vstd::prelude::*;

use crate::backoff::{self, wall_clock, Backoff, Growth};
use crate::double::Double;
use crate::markup;
use crate::markup::PolybarActionType;
use crate::polybar_module::inference_usage::accounts::{Accounts, ClaudeAccount, RateLimitBackoff};
use crate::polybar_module::RenderablePolybarModule;
use crate::text;
use crate::theme::{Color, Palette, ICON_WARNING};

pub mod accounts;
pub mod credentials;
pub mod lock;

verus! {

broadcast use crate::text::texts_push;

pub const ICON_INFERENCE_USAGE: &'static str = "\u{f1a45}";

pub const ICON_CLAUDE: &'static str = "\u{f4f5}";

pub const ICON_CHATGPT: &'static str = "\u{f0ac8}";

pub const ICON_UNAUTHORIZED: &'static str = "\u{f508}";

/// Prefix of the Codex auth files, relative to the home directory.
pub const CODEX_AUTH_PREFIX: &'static str = ".config/codex/auth";

pub const CHATGPT_USAGE_URL: &'static str = "https://chatgpt.com/codex/settings/usage";

/// Delay between updates while at least one provider is reachable, in nanoseconds.
pub const UPDATE_INTERVAL_NANOS: u128 = 180_000_000_000;

/// Nanoseconds the last complete usage stays displayed while an update is degraded.
pub const DEGRADED_HOLD_NANOS: u128 = 60_000_000_000;

/// Shortest delay between updates while retrying through a degraded update, in nanoseconds.
pub const DEGRADED_MIN_DELAY_NANOS: u128 = 3_000_000_000;

/// Usage of a single rate limit window.
#[derive(Clone, Copy, Debug, PartialEq, Eq, Structural)]
pub struct UsageWindow {
    pub quota_left_pct: Double,
    /// Share of the window duration left before it resets, `None` if the window is not running.
    pub time_left_frac: Option<Double>,
}

/// Usage fetch status of an account with a `ClaudeOauth` object.
#[derive(Clone, Copy, Debug, PartialEq, Eq, Structural)]
pub enum ClaudeUsageStatus {
    /// Successfully fetched usage data.
    Available {
        /// 5-hour window.
        h5: UsageWindow,
        /// 7-day window.
        d7: UsageWindow,
    },
    /// Authentication failed, waiting for the credentials to change.
    AuthInvalid,
    /// Generic error.
    Error,
}

/// Inference usage state, with one entry per account of each provider.
#[derive(Debug, PartialEq, Eq)]
pub struct InferenceUsageModuleState {
    pub claude_statuses: Vec<ClaudeUsageStatus>,
    pub chatgpt_statuses: Vec<Option<Vec<UsageWindow>>>,
}

/// What an inference usage state stands for.
pub struct UsageModel {
    pub claude: Seq<ClaudeUsageStatus>,
    pub chatgpt: Seq<Option<Seq<UsageWindow>>>,
}

/// Usage of an account, as a list.
pub open spec fn usage_of(v: Option<Vec<UsageWindow>>) -> Option<Seq<UsageWindow>> {
    match v {
        Some(w) => Some(w@),
        None => None,
    }
}

/// Usage of each account, as lists.
pub open spec fn usages(v: Seq<Option<Vec<UsageWindow>>>) -> Seq<Option<Seq<UsageWindow>>> {
    Seq::new(v.len(), |i: int| usage_of(v[i]))
}

impl View for InferenceUsageModuleState {
    type V = UsageModel;

    open spec fn view(&self) -> UsageModel {
        UsageModel { claude: self.claude_statuses@, chatgpt: usages(self.chatgpt_statuses@) }
    }
}

/// Whether the usage of some account is missing.
pub open spec fn degraded(state: UsageModel) -> bool {
    ||| exists|i: int| 0 <= i < state.chatgpt.len() && #[trigger] state.chatgpt[i] is None
    ||| exists|i: int| 0 <= i < state.claude.len() && !(#[trigger] state.claude[i] is Available)
}

/// Copies the windows of an account.
fn copy_windows(v: &Vec<UsageWindow>) -> (r: Vec<UsageWindow>)
    ensures
        r@ == v@,
{
    let mut r: Vec<UsageWindow> = Vec::new();
    let mut i: usize = 0;
    while i < v.len()
        invariant
            i <= v.len(),
            r@ == v@.take(i as int),
        decreases v.len() - i,
    {
        r.push(v[i]);
        i += 1;
        assert(v@.take(i as int) =~= v@.take(i - 1).push(v@[i - 1]));
    }
    assert(v@.take(i as int) =~= v@);
    r
}

impl InferenceUsageModuleState {
    /// Whether the usage of some account is missing.
    #[verifier::loop_isolation(false)]
    pub fn is_degraded(&self) -> (r: bool)
        ensures
            r == degraded(self@),
    {
        let mut i: usize = 0;
        while i < self.chatgpt_statuses.len()
            invariant
                i <= self.chatgpt_statuses.len(),
                forall|j: int| 0 <= j < i ==> !(#[trigger] self@.chatgpt[j] is None),
            decreases self.chatgpt_statuses.len() - i,
        {
            if self.chatgpt_statuses[i].is_none() {
                assert(self@.chatgpt[i as int] is None);
                return true;
            }
            i += 1;
        }
        let mut k: usize = 0;
        while k < self.claude_statuses.len()
            invariant
                k <= self.claude_statuses.len(),
                forall|j: int| 0 <= j < k ==> #[trigger] self@.claude[j] is Available,
            decreases self.claude_statuses.len() - k,
        {
            match self.claude_statuses[k] {
                ClaudeUsageStatus::Available { .. } => {},
                _ => {
                    assert(!(self@.claude[k as int] is Available));
                    return true;
                },
            }
            k += 1;
        }
        false
    }

    /// The same state again.
    pub fn copy(&self) -> (r: Self)
        ensures
            r@ == self@,
    {
        let mut claude: Vec<ClaudeUsageStatus> = Vec::new();
        let mut i: usize = 0;
        while i < self.claude_statuses.len()
            invariant
                i <= self.claude_statuses.len(),
                claude@ == self.claude_statuses@.take(i as int),
            decreases self.claude_statuses.len() - i,
        {
            claude.push(self.claude_statuses[i]);
            i += 1;
            assert(self.claude_statuses@.take(i as int) =~= self.claude_statuses@.take(i - 1).push(
                self.claude_statuses@[i - 1],
            ));
        }
        let mut chatgpt: Vec<Option<Vec<UsageWindow>>> = Vec::new();
        let mut k: usize = 0;
        while k < self.chatgpt_statuses.len()
            invariant
                k <= self.chatgpt_statuses.len(),
                usages(chatgpt@) == usages(self.chatgpt_statuses@).take(k as int),
            decreases self.chatgpt_statuses.len() - k,
        {
            let ghost before = chatgpt@;
            let entry = match &self.chatgpt_statuses[k] {
                Some(w) => Some(copy_windows(w)),
                None => None,
            };
            chatgpt.push(entry);
            k += 1;
            assert(usages(chatgpt@) =~= usages(before).push(usages(self.chatgpt_statuses@)[k - 1]));
            assert(usages(self.chatgpt_statuses@).take(k as int) =~= usages(
                self.chatgpt_statuses@,
            ).take(k - 1).push(usages(self.chatgpt_statuses@)[k - 1]));
        }
        assert(claude@ =~= self.claude_statuses@);
        assert(usages(chatgpt@) =~= usages(self.chatgpt_statuses@));
        InferenceUsageModuleState { claude_statuses: claude, chatgpt_statuses: chatgpt }
    }
}

// Failures

/// Failure of a provider usage fetch.
#[derive(Clone, Copy, Debug, PartialEq, Eq, Structural)]
pub enum ProviderFetchError {
    /// The credentials are not accepted.
    AuthInvalid,
    /// There were too many requests.
    RateLimited,
    /// Anything else.
    Other,
}

impl ProviderFetchError {
    /// Classifies a token refresh failure of a `ClaudeAccount`, by the status of the reply where
    /// there was one.
    ///
    /// A request the server turned down leaves nothing to retry, the stored credentials are spent.
    /// Anything else may well resolve on its own, and says nothing about them.
    pub fn from_claude_refresh(status: Option<u16>) -> (r: Self)
        ensures
            r == match status {
                Some(s) => if s == 429 {
                    ProviderFetchError::RateLimited
                } else if 400 <= s < 500 {
                    ProviderFetchError::AuthInvalid
                } else {
                    ProviderFetchError::Other
                },
                None => ProviderFetchError::Other,
            },
    {
        match status {
            Some(s) => if s == 429 {
                ProviderFetchError::RateLimited
            } else if 400 <= s && s < 500 {
                ProviderFetchError::AuthInvalid
            } else {
                ProviderFetchError::Other
            },
            None => ProviderFetchError::Other,
        }
    }

    /// Classifies a ChatGPT token refresh failure, by the status of the reply where there was one.
    pub fn from_chatgpt_refresh(status: Option<u16>) -> (r: Self)
        ensures
            r == if status == Some(429u16) {
                ProviderFetchError::RateLimited
            } else {
                ProviderFetchError::Other
            },
    {
        match status {
            Some(429) => ProviderFetchError::RateLimited,
            _ => ProviderFetchError::Other,
        }
    }

    /// Classifies a usage fetch failure, by the status of the reply where there was one.
    pub fn from_usage(status: Option<u16>) -> (r: Self)
        ensures
            r == if status == Some(401u16) {
                ProviderFetchError::AuthInvalid
            } else if status == Some(429u16) {
                ProviderFetchError::RateLimited
            } else {
                ProviderFetchError::Other
            },
    {
        match status {
            Some(401) => ProviderFetchError::AuthInvalid,
            Some(429) => ProviderFetchError::RateLimited,
            _ => ProviderFetchError::Other,
        }
    }
}

// One update of an account

/// The requests of one update of an account: a fetch, and where the credentials are not accepted a
/// refresh of them and a second fetch.
pub struct Attempt<T> {
    /// Mtime of the credentials that the last fetch used.
    pub tried_mtime: Option<i128>,
    /// Whether the credentials were refreshed.
    pub refreshed: bool,
    /// What came out, once there is nothing left to do.
    pub outcome: Option<Result<T, ProviderFetchError>>,
}

impl<T> Attempt<T> {
    /// An update that is about to fetch with the credentials of the given mtime.
    pub fn new(mtime: Option<i128>) -> (r: Self)
        ensures
            r.tried_mtime == mtime,
            !r.refreshed,
            r.outcome is None,
    {
        Attempt { tried_mtime: mtime, refreshed: false, outcome: None }
    }

    /// Takes what a fetch gave; returns whether the credentials are now to be refreshed.
    pub fn on_fetched(&mut self, result: Result<T, ProviderFetchError>) -> (r: bool)
        requires
            old(self).outcome is None,
        ensures
            r == (!old(self).refreshed && result == Err::<T, _>(ProviderFetchError::AuthInvalid)),
            final(self).outcome == if r {
                None
            } else {
                Some(result)
            },
            final(self).refreshed == old(self).refreshed,
            final(self).tried_mtime == old(self).tried_mtime,
    {
        if !self.refreshed {
            if let Err(ProviderFetchError::AuthInvalid) = result {
                return true;
            }
        }
        self.outcome = Some(result);
        false
    }

    /// Takes what a refresh of the credentials gave, and their mtime after it; returns whether
    /// there is now to be another fetch.
    pub fn on_refreshed(
        &mut self,
        result: Result<(), ProviderFetchError>,
        mtime: Option<i128>,
    ) -> (r: bool)
        requires
            old(self).outcome is None,
            !old(self).refreshed,
        ensures
            r == result is Ok,
            match result {
                Ok(_) => {
                    &&& final(self).refreshed
                    &&& final(self).tried_mtime == mtime
                    &&& final(self).outcome is None
                },
                Err(e) => {
                    &&& !final(self).refreshed
                    &&& final(self).tried_mtime == old(self).tried_mtime
                    &&& final(self).outcome == Some(Err::<T, _>(e))
                },
            },
    {
        match result {
            Ok(_) => {
                self.refreshed = true;
                self.tried_mtime = mtime;
                true
            },
            Err(e) => {
                self.outcome = Some(Err(e));
                false
            },
        }
    }
}

// The module

/// Inference API usage module. Times are in nanoseconds from the epoch.
pub struct InferenceUsageModule {
    pub home_path: String,
    /// Name of the provider of the `ClaudeAccount`s, as its addresses and its files have it.
    pub claude_name: String,
    /// State of each credentials file.
    pub claude_accounts: Accounts<ClaudeAccount>,
    /// ChatGPT state of each auth file.
    pub chatgpt_accounts: Accounts<RateLimitBackoff>,
    pub degraded_backoff: Backoff,
    /// Start of the current run of degraded updates.
    pub degraded_since: Option<i128>,
    /// Last state in which every account reported its usage.
    pub last_complete_state: Option<InferenceUsageModuleState>,
}

/// What is displayed of a state that may be missing.
pub open spec fn model_of(state: Option<InferenceUsageModuleState>) -> Option<UsageModel> {
    match state {
        Some(s) => Some(s@),
        None => None,
    }
}

/// Nanoseconds left before the last complete state gets too stale to display, `None` once it is,
/// or where its age cannot be told.
pub open spec fn hold_left(since: i128, now: i128) -> Option<u128> {
    if since <= now <= since + DEGRADED_HOLD_NANOS {
        Some((DEGRADED_HOLD_NANOS - (now - since)) as u128)
    } else {
        None
    }
}

/// Why an update of a `ClaudeAccount` is to be skipped, if it is: the credentials are known not to
/// be accepted, or requests are held back.
pub open spec fn claude_skipped(
    account: Option<ClaudeAccount>,
    mtime: Option<i128>,
    now: i128,
) -> Option<ClaudeUsageStatus> {
    match account {
        None => None,
        Some(a) => if a.auth_failed_mtime is Some && a.auth_failed_mtime == mtime {
            Some(ClaudeUsageStatus::AuthInvalid)
        } else if accounts::held_back(a.rate_limit.skip_until, now) {
            Some(ClaudeUsageStatus::Error)
        } else {
            None
        },
    }
}

/// Whether requests of a ChatGPT account are held back.
pub open spec fn chatgpt_skipped(account: Option<RateLimitBackoff>, now: i128) -> bool {
    match account {
        Some(a) => accounts::held_back(a.skip_until, now),
        None => false,
    }
}

/// What an outcome does to a `ClaudeAccount`, and the status it gives.
pub open spec fn claude_settled(
    before: ClaudeAccount,
    after: ClaudeAccount,
    outcome: Result<(UsageWindow, UsageWindow), ProviderFetchError>,
    tried_mtime: Option<i128>,
    now: i128,
    status: ClaudeUsageStatus,
) -> bool {
    match outcome {
        Ok((h5, d7)) => {
            &&& after.is_fresh()
            &&& status == (ClaudeUsageStatus::Available { h5, d7 })
        },
        Err(ProviderFetchError::AuthInvalid) => {
            &&& after == (ClaudeAccount {
                rate_limit: before.rate_limit,
                auth_failed_mtime: tried_mtime,
            })
            &&& status == ClaudeUsageStatus::AuthInvalid
        },
        Err(ProviderFetchError::RateLimited) => {
            &&& after.auth_failed_mtime == before.auth_failed_mtime
            &&& exists|delay: Option<u128>| #[trigger]
                accounts::hits(before.rate_limit, after.rate_limit, now, delay)
            &&& status == ClaudeUsageStatus::Error
        },
        Err(ProviderFetchError::Other) => after == before && status == ClaudeUsageStatus::Error,
    }
}

/// What an outcome does to what is remembered of a ChatGPT account, and the usage it gives.
pub open spec fn chatgpt_settled(
    before: RateLimitBackoff,
    after: RateLimitBackoff,
    outcome: Result<Seq<UsageWindow>, ProviderFetchError>,
    now: i128,
    usage: Option<Seq<UsageWindow>>,
) -> bool {
    match outcome {
        Ok(windows) => {
            &&& after.is_fresh()
            &&& usage == if windows.len() == 0 {
                None
            } else {
                Some(windows)
            }
        },
        Err(ProviderFetchError::RateLimited) => {
            &&& exists|delay: Option<u128>| #[trigger] accounts::hits(before, after, now, delay)
            &&& usage is None
        },
        Err(_) => after == before && usage is None,
    }
}

pub open spec fn windows_of(outcome: Result<Vec<UsageWindow>, ProviderFetchError>) -> Result<
    Seq<UsageWindow>,
    ProviderFetchError,
> {
    match outcome {
        Ok(v) => Ok(v@),
        Err(e) => Err(e),
    }
}

/// Account that is remembered, or a fresh one.
pub open spec fn claude_before(held: Option<ClaudeAccount>, before: ClaudeAccount) -> bool {
    match held {
        Some(a) => before == a,
        None => before.is_fresh(),
    }
}

/// Account that is remembered, or a fresh one.
pub open spec fn chatgpt_before(held: Option<RateLimitBackoff>, before: RateLimitBackoff) -> bool {
    match held {
        Some(a) => before == a,
        None => before.is_fresh(),
    }
}

impl InferenceUsageModule {
    pub open spec fn wf(&self) -> bool {
        &&& self.claude_accounts.wf()
        &&& self.chatgpt_accounts.wf()
        &&& forall|i: int|
            0 <= i < self.claude_accounts.entries@.len() ==> (
            #[trigger] self.claude_accounts.entries@[i]).1.wf()
        &&& forall|i: int|
            0 <= i < self.chatgpt_accounts.entries@.len() ==> (
            #[trigger] self.chatgpt_accounts.entries@[i]).1.wf()
        &&& self.degraded_backoff.wf()
        &&& match self.degraded_backoff.growth {
            Growth::Endless { factor, min_secs, max_secs } => {
                factor@ == "1.5"@ && min_secs == 3 && max_secs == 180
            },
            _ => false,
        }
        &&& match self.degraded_since {
            Some(t) => accounts::is_time(t),
            None => true,
        }
    }

    /// Whether only what is remembered of accounts differs.
    pub open spec fn same_but_accounts(&self, other: Self) -> bool {
        &&& self.home_path == other.home_path
        &&& self.claude_name == other.claude_name
        &&& self.degraded_backoff == other.degraded_backoff
        &&& self.degraded_since == other.degraded_since
        &&& self.last_complete_state == other.last_complete_state
    }

    /// Whether some account holds the update back at a time.
    pub open spec fn limited_at(&self, now: i128) -> bool {
        ||| exists|i: int|
            0 <= i < self.claude_accounts.entries@.len() && accounts::held_back(
                (#[trigger] self.claude_accounts.entries@[i]).1.rate_limit.skip_until,
                now,
            )
        ||| exists|i: int|
            0 <= i < self.chatgpt_accounts.entries@.len() && accounts::held_back(
                (#[trigger] self.chatgpt_accounts.entries@[i]).1.skip_until,
                now,
            )
    }

    /// Module of the accounts below a home directory, `claude_name` being the name of the provider
    /// of the `ClaudeAccount`s.
    pub fn new(home_path: &str, claude_name: &str) -> (r: Self)
        ensures
            r.wf(),
            r.home_path@ == home_path@,
            r.claude_name@ == claude_name@,
            r.claude_accounts.entries@.len() == 0,
            r.chatgpt_accounts.entries@.len() == 0,
            r.degraded_since is None,
            r.last_complete_state is None,
            r.degraded_backoff.starts_as("1.5"@, 3, 180),
    {
        proof {
            reveal_strlit("1.5");
        }
        InferenceUsageModule {
            home_path: home_path.to_owned(),
            claude_name: claude_name.to_owned(),
            claude_accounts: Accounts::new(),
            chatgpt_accounts: Accounts::new(),
            degraded_backoff: Backoff::new("1.5", 3, 180),
            degraded_since: None,
            last_complete_state: None,
        }
    }

    /// Drops the state of the credentials files missing from `paths`.
    pub fn retain_claude_accounts(&mut self, paths: &Vec<String>)
        requires
            old(self).wf(),
        ensures
            final(self).wf(),
            final(self).same_but_accounts(*old(self)),
            final(self).chatgpt_accounts == old(self).chatgpt_accounts,
            forall|p: Seq<char>| #[trigger]
                final(self).claude_accounts.at(p) == if text::texts(paths@).contains(p) {
                    old(self).claude_accounts.at(p)
                } else {
                    None
                },
    {
        self.claude_accounts.retain(paths);
    }

    /// Drops the state of the auth files missing from `paths`.
    pub fn retain_chatgpt_accounts(&mut self, paths: &Vec<String>)
        requires
            old(self).wf(),
        ensures
            final(self).wf(),
            final(self).same_but_accounts(*old(self)),
            final(self).claude_accounts == old(self).claude_accounts,
            forall|p: Seq<char>| #[trigger]
                final(self).chatgpt_accounts.at(p) == if text::texts(paths@).contains(p) {
                    old(self).chatgpt_accounts.at(p)
                } else {
                    None
                },
    {
        self.chatgpt_accounts.retain(paths);
    }

    /// Whether an account is holding us back at a time.
    #[verifier::loop_isolation(false)]
    pub fn rate_limited_at(&self, now: i128) -> (r: bool)
        ensures
            r == self.limited_at(now),
    {
        let mut i: usize = 0;
        while i < self.claude_accounts.entries.len()
            invariant
                i <= self.claude_accounts.entries.len(),
                forall|j: int|
                    0 <= j < i ==> !accounts::held_back(
                        (#[trigger] self.claude_accounts.entries@[j]).1.rate_limit.skip_until,
                        now,
                    ),
            decreases self.claude_accounts.entries.len() - i,
        {
            if self.claude_accounts.entries[i].1.rate_limit.active_at(now) {
                return true;
            }
            i += 1;
        }
        let mut k: usize = 0;
        while k < self.chatgpt_accounts.entries.len()
            invariant
                k <= self.chatgpt_accounts.entries.len(),
                forall|j: int|
                    0 <= j < k ==> !accounts::held_back(
                        (#[trigger] self.chatgpt_accounts.entries@[j]).1.skip_until,
                        now,
                    ),
            decreases self.chatgpt_accounts.entries.len() - k,
        {
            if self.chatgpt_accounts.entries[k].1.active_at(now) {
                return true;
            }
            k += 1;
        }
        false
    }

    /// Nanoseconds left at a time before the last complete state gets too stale to display, `None`
    /// once it is.
    pub fn degraded_hold_left_at(since: i128, now: i128) -> (r: Option<u128>)
        requires
            accounts::is_time(since),
            accounts::is_time(now),
        ensures
            r == hold_left(since, now),
    {
        if now < since {
            return None;
        }
        let elapsed: u128 = (now - since) as u128;
        if elapsed > DEGRADED_HOLD_NANOS {
            None
        } else {
            Some(DEGRADED_HOLD_NANOS - elapsed)
        }
    }

    /// Time left before the last complete state gets too stale to display, `None` once it is.
    pub fn degraded_hold_left(since: i128) -> (r: Option<u128>)
        requires
            accounts::is_time(since),
        ensures
            exists|now: i128| accounts::is_time(now) && r == #[trigger] hold_left(since, now),
    {
        Self::degraded_hold_left_at(since, wall_clock())
    }

    /// Delay before the next update at a time, shortened while retrying through a degraded update.
    ///
    /// A rate limited account is the one thing worth waiting out, so it holds the update back to
    /// its nominal interval. A held state is dropped in time, which a rate limit would otherwise
    /// postpone. There is no delay only once the growing delays have come to their end.
    pub fn next_delay_at(&mut self, now: i128) -> (r: Option<u128>)
        requires
            old(self).wf(),
            accounts::is_time(now),
        ensures
            final(self).wf(),
            delays(*old(self), *final(self), now, r),
    {
        let limited = self.rate_limited_at(now);
        let delay: u128 = if self.degraded_since.is_some() && !limited {
            match self.degraded_backoff.next() {
                Some(d) => d,
                None => {
                    return None;
                },
            }
        } else {
            self.degraded_backoff.reset();
            UPDATE_INTERVAL_NANOS
        };
        let left = match self.degraded_since {
            Some(since) => if self.last_complete_state.is_some() {
                Self::degraded_hold_left_at(since, now)
            } else {
                None
            },
            None => None,
        };
        let r: u128 = match left {
            Some(left) => {
                let shorter: u128 = if left < delay {
                    left
                } else {
                    delay
                };
                if shorter < DEGRADED_MIN_DELAY_NANOS {
                    DEGRADED_MIN_DELAY_NANOS
                } else {
                    shorter
                }
            },
            None => delay,
        };
        assert(r == capped(delay, held_for(*old(self), now)));
        Some(r)
    }

    /// Delay before the next update.
    pub fn next_delay(&mut self) -> (r: Option<u128>)
        requires
            old(self).wf(),
        ensures
            final(self).wf(),
            exists|now: i128|
                accounts::is_time(now) && #[trigger] delays(*old(self), *final(self), now, r),
    {
        let now: i128 = wall_clock();
        let r = self.next_delay_at(now);
        assert(accounts::is_time(now) && delays(*old(self), *self, now, r));
        r
    }

    /// Status to report of a `ClaudeAccount` without a request, if it is to be skipped: `mtime` is
    /// that of its credentials.
    pub fn claude_skip(&self, path: &str, mtime: Option<i128>, now: i128) -> (r: Option<
        ClaudeUsageStatus,
    >)
        requires
            self.wf(),
        ensures
            r == claude_skipped(self.claude_accounts.at(path@), mtime, now),
    {
        match self.claude_accounts.position(path) {
            None => None,
            Some(i) => {
                let account = &self.claude_accounts.entries[i].1;
                if let Some(failed) = account.auth_failed_mtime {
                    if let Some(m) = mtime {
                        if m == failed {
                            return Some(ClaudeUsageStatus::AuthInvalid);
                        }
                    }
                }
                if account.rate_limit.active_at(now) {
                    Some(ClaudeUsageStatus::Error)
                } else {
                    None
                }
            },
        }
    }

    /// Whether an update of a ChatGPT account is to be skipped.
    pub fn chatgpt_skip(&self, path: &str, now: i128) -> (r: bool)
        requires
            self.wf(),
        ensures
            r == chatgpt_skipped(self.chatgpt_accounts.at(path@), now),
    {
        match self.chatgpt_accounts.position(path) {
            None => false,
            Some(i) => self.chatgpt_accounts.entries[i].1.active_at(now),
        }
    }

    /// Status of a `ClaudeAccount`, from what came out of its requests. Every other account keeps
    /// what is remembered of it.
    pub fn settle_claude(
        &mut self,
        path: &str,
        outcome: Result<(UsageWindow, UsageWindow), ProviderFetchError>,
        tried_mtime: Option<i128>,
        now: i128,
    ) -> (r: ClaudeUsageStatus)
        requires
            old(self).wf(),
            accounts::is_time(now),
        ensures
            final(self).wf(),
            final(self).same_but_accounts(*old(self)),
            final(self).chatgpt_accounts == old(self).chatgpt_accounts,
            forall|p: Seq<char>|
                p != path@ ==> #[trigger] final(self).claude_accounts.at(p)
                    == old(self).claude_accounts.at(p),
            exists|before: ClaudeAccount, after: ClaudeAccount| #[trigger]
                claude_settled(before, after, outcome, tried_mtime, now, r) && claude_before(
                    old(self).claude_accounts.at(path@),
                    before,
                ) && final(self).claude_accounts.at(path@) == Some(after),
    {
        let fresh = ClaudeAccount::new();
        let i: usize = self.claude_accounts.entry(path, fresh);
        let ghost mid = *self;
        let ghost before = self.claude_accounts.entries@[i as int].1;
        assert(before.wf());
        assert(claude_before(old(self).claude_accounts.at(path@), before));
        let slot = &mut self.claude_accounts.entries[i];
        let r = match outcome {
            Ok((h5, d7)) => {
                slot.1.auth_failed_mtime = None;
                slot.1.rate_limit.reset();
                ClaudeUsageStatus::Available { h5, d7 }
            },
            Err(ProviderFetchError::AuthInvalid) => {
                slot.1.auth_failed_mtime = tried_mtime;
                ClaudeUsageStatus::AuthInvalid
            },
            Err(ProviderFetchError::RateLimited) => {
                slot.1.rate_limit.hit_at(now);
                ClaudeUsageStatus::Error
            },
            Err(ProviderFetchError::Other) => ClaudeUsageStatus::Error,
        };
        let ghost after = self.claude_accounts.entries@[i as int].1;
        proof {
            assert(claude_settled(before, after, outcome, tried_mtime, now, r));
            accounts::changed_entry(mid.claude_accounts, self.claude_accounts, i as int);
        }
        r
    }

    /// Usage of a ChatGPT account, from what came out of its requests. Every other account keeps
    /// what is remembered of it.
    pub fn settle_chatgpt(
        &mut self,
        path: &str,
        outcome: Result<Vec<UsageWindow>, ProviderFetchError>,
        now: i128,
    ) -> (r: Option<Vec<UsageWindow>>)
        requires
            old(self).wf(),
            accounts::is_time(now),
        ensures
            final(self).wf(),
            final(self).same_but_accounts(*old(self)),
            final(self).claude_accounts == old(self).claude_accounts,
            forall|p: Seq<char>|
                p != path@ ==> #[trigger] final(self).chatgpt_accounts.at(p)
                    == old(self).chatgpt_accounts.at(p),
            exists|before: RateLimitBackoff, after: RateLimitBackoff| #[trigger]
                chatgpt_settled(
                    before,
                    after,
                    windows_of(outcome),
                    now,
                    usage_of(r),
                ) && chatgpt_before(old(self).chatgpt_accounts.at(path@), before)
                    && final(self).chatgpt_accounts.at(path@) == Some(after),
    {
        let fresh = RateLimitBackoff::new();
        let i: usize = self.chatgpt_accounts.entry(path, fresh);
        let ghost mid = *self;
        let ghost before = self.chatgpt_accounts.entries@[i as int].1;
        let ghost result = windows_of(outcome);
        assert(before.wf());
        assert(chatgpt_before(old(self).chatgpt_accounts.at(path@), before));
        let slot = &mut self.chatgpt_accounts.entries[i];
        let r = match outcome {
            Ok(windows) => {
                slot.1.reset();
                if windows.len() == 0 {
                    None
                } else {
                    Some(windows)
                }
            },
            Err(ProviderFetchError::RateLimited) => {
                slot.1.hit_at(now);
                None
            },
            Err(_) => None,
        };
        let ghost after = self.chatgpt_accounts.entries@[i as int].1;
        proof {
            assert(chatgpt_settled(before, after, result, now, usage_of(r)));
            accounts::changed_entry(mid.chatgpt_accounts, self.chatgpt_accounts, i as int);
        }
        r
    }

    /// State to display after an update.
    ///
    /// Resuming from suspend leaves the network unusable for a few seconds; the last complete
    /// usage is kept on display instead of an error, until it gets too stale to be trusted. `now`
    /// is the time at which a run of degraded updates would start, `later` the time at which the
    /// age of the run is looked at.
    pub fn conclude(&mut self, state: InferenceUsageModuleState, now: i128, later: i128) -> (r:
        InferenceUsageModuleState)
        requires
            old(self).wf(),
            accounts::is_time(now),
            accounts::is_time(later),
        ensures
            final(self).wf(),
            final(self).home_path == old(self).home_path,
            final(self).claude_name == old(self).claude_name,
            final(self).claude_accounts == old(self).claude_accounts,
            final(self).chatgpt_accounts == old(self).chatgpt_accounts,
            final(self).degraded_backoff == old(self).degraded_backoff,
            final(self).degraded_since == since_after(old(self).degraded_since, state@, now),
            model_of(final(self).last_complete_state) == if degraded(state@) {
                model_of(old(self).last_complete_state)
            } else {
                Some(state@)
            },
            r@ == displayed(
                old(self).degraded_since,
                model_of(old(self).last_complete_state),
                state@,
                now,
                later,
            ),
    {
        if !state.is_degraded() {
            self.degraded_since = None;
            self.last_complete_state = Some(state.copy());
            return state;
        }
        let since: i128 = match self.degraded_since {
            Some(since) => since,
            None => now,
        };
        self.degraded_since = Some(since);
        match &self.last_complete_state {
            Some(last) => {
                if Self::degraded_hold_left_at(since, later).is_some() {
                    last.copy()
                } else {
                    state
                }
            },
            None => state,
        }
    }
}

/// Start of the run of degraded updates after an update.
pub open spec fn since_after(since: Option<i128>, state: UsageModel, now: i128) -> Option<i128> {
    if !degraded(state) {
        None
    } else if since is Some {
        since
    } else {
        Some(now)
    }
}

/// State that is displayed after an update.
pub open spec fn displayed(
    since: Option<i128>,
    last_complete: Option<UsageModel>,
    state: UsageModel,
    now: i128,
    later: i128,
) -> UsageModel {
    match (since_after(since, state, now), last_complete) {
        (Some(s), Some(last)) => if hold_left(s, later) is Some {
            last
        } else {
            state
        },
        _ => state,
    }
}

/// Delay before the next update where nothing but what is left of the hold is known of it.
pub open spec fn capped(delay: u128, left: Option<u128>) -> u128 {
    match left {
        Some(left) => {
            let shorter = if left < delay {
                left
            } else {
                delay
            };
            if shorter < DEGRADED_MIN_DELAY_NANOS {
                DEGRADED_MIN_DELAY_NANOS
            } else {
                shorter
            }
        },
        None => delay,
    }
}

/// What is left of the time that a module holds its last complete state.
pub open spec fn held_for(m: InferenceUsageModule, now: i128) -> Option<u128> {
    match m.degraded_since {
        Some(since) => if m.last_complete_state is Some {
            hold_left(since, now)
        } else {
            None
        },
        None => None,
    }
}

/// What waiting for the next update at a time does to a module, and the delay it gives.
pub open spec fn delays(
    before: InferenceUsageModule,
    after: InferenceUsageModule,
    now: i128,
    delay: Option<u128>,
) -> bool {
    &&& after.home_path == before.home_path
    &&& after.claude_name == before.claude_name
    &&& after.claude_accounts == before.claude_accounts
    &&& after.chatgpt_accounts == before.chatgpt_accounts
    &&& after.degraded_since == before.degraded_since
    &&& after.last_complete_state == before.last_complete_state
    &&& after.degraded_backoff.growth == before.degraded_backoff.growth
    &&& if before.degraded_since is Some && !before.limited_at(now) {
        match delay {
            Some(d) => exists|grown: u128| #[trigger]
                backoff::advances(before.degraded_backoff, after.degraded_backoff, grown) && d
                    == capped(grown, held_for(before, now)),
            None => {
                &&& before.degraded_backoff.left() == 0
                &&& after.degraded_backoff.left() == 0
                &&& after.degraded_backoff.base() == before.degraded_backoff.base()
            },
        }
    } else {
        &&& after.degraded_backoff.starts_as("1.5"@, 3, 180)
        &&& delay == Some(capped(UPDATE_INTERVAL_NANOS, held_for(before, now)))
    }
}

/// However an update is delayed, it is retried neither sooner than after three seconds, nor later
/// than after twice the nominal interval.
pub proof fn delays_stay_in_bounds(
    before: InferenceUsageModule,
    after: InferenceUsageModule,
    now: i128,
    delay: u128,
)
    requires
        before.wf(),
        delays(before, after, now, Some(delay)),
    ensures
        DEGRADED_MIN_DELAY_NANOS <= delay <= 2 * UPDATE_INTERVAL_NANOS,
{
}

/// Once no update is degraded, or an account holds the updates back, the retries start over: the
/// next one comes after three to six seconds, or with the end of the hold.
pub proof fn retries_start_over(
    start: InferenceUsageModule,
    reset: InferenceUsageModule,
    now: i128,
    delay: Option<u128>,
    resumed: InferenceUsageModule,
    end: InferenceUsageModule,
    later: i128,
    retry: u128,
)
    requires
        delays(start, reset, now, delay),
        start.degraded_since is None || start.limited_at(now),
        resumed.degraded_backoff == reset.degraded_backoff,
        resumed.degraded_since is Some && !resumed.limited_at(later),
        delays(resumed, end, later, Some(retry)),
    ensures
        3_000_000_000 <= retry < 6_000_000_000,
        end.degraded_backoff.base() == Some(3_000_000_000nat),
{
    let grown = choose|grown: u128| #[trigger]
        backoff::advances(resumed.degraded_backoff, end.degraded_backoff, grown) && retry == capped(
            grown,
            held_for(resumed, later),
        );
    assert(backoff::advances(resumed.degraded_backoff, end.degraded_backoff, grown));
}

/// A held state is dropped in time: the delay ends before the hold does, unless that would be a
/// busy retry.
pub proof fn delays_end_with_the_hold(
    before: InferenceUsageModule,
    after: InferenceUsageModule,
    now: i128,
    delay: u128,
)
    requires
        delays(before, after, now, Some(delay)),
        held_for(before, now) is Some,
    ensures
        delay <= held_for(before, now)->0 || delay == DEGRADED_MIN_DELAY_NANOS,
{
}

/// A complete state is always displayed as it is.
pub proof fn complete_states_are_displayed(
    since: Option<i128>,
    last_complete: Option<UsageModel>,
    state: UsageModel,
    now: i128,
    later: i128,
)
    requires
        !degraded(state),
    ensures
        displayed(since, last_complete, state, now, later) == state,
{
}

/// A run of degraded updates is hidden behind the last complete state for a minute, and no longer.
pub proof fn degraded_states_are_hidden_for_a_minute(
    since: i128,
    last: UsageModel,
    state: UsageModel,
    now: i128,
    later: i128,
)
    requires
        degraded(state),
        since <= later,
    ensures
        displayed(Some(since), Some(last), state, now, later) == if later - since
            <= 60_000_000_000 {
            last
        } else {
            state
        },
{
}

/// Credentials that are not accepted are left alone until their file changes.
pub proof fn spent_credentials_wait_for_a_change(
    before: ClaudeAccount,
    after: ClaudeAccount,
    tried: i128,
    now: i128,
    status: ClaudeUsageStatus,
    later: i128,
    mtime: Option<i128>,
)
    requires
        claude_settled(
            before,
            after,
            Err(ProviderFetchError::AuthInvalid),
            Some(tried),
            now,
            status,
        ),
        !accounts::held_back(before.rate_limit.skip_until, later),
    ensures
        claude_skipped(Some(after), mtime, later) == if mtime == Some(tried) {
            Some(ClaudeUsageStatus::AuthInvalid)
        } else {
            None
        },
{
}

/// An account that answered is asked again at the next update.
pub proof fn answering_accounts_are_asked_again(
    before: ClaudeAccount,
    after: ClaudeAccount,
    windows: (UsageWindow, UsageWindow),
    tried: Option<i128>,
    now: i128,
    status: ClaudeUsageStatus,
    later: i128,
    mtime: Option<i128>,
)
    requires
        claude_settled(before, after, Ok(windows), tried, now, status),
    ensures
        claude_skipped(Some(after), mtime, later) is None,
{
}

// Rendering

/// Color of a quota.
pub open spec fn color_of(quota_left_pct: Double) -> Color {
    if quota_left_pct.is_above(30, 0) {
        Color::Good
    } else if quota_left_pct.is_at_least(10, 0) {
        Color::Notice
    } else {
        Color::Attention
    }
}

/// Slices of the circle that are filled for a percentage, of eight: none for none at all.
pub open spec fn quota_slices(pct: int) -> int {
    if pct == 0 {
        0
    } else {
        1 + (pct - 1) * 7 / 99
    }
}

/// Icon of a percentage: one of its own for none at all, else the circle that is filled in
/// proportion.
pub open spec fn quota_icon(pct: int) -> Seq<char> {
    let slices = quota_slices(pct);
    if slices == 0 {
        "\u{f05d6}"@
    } else if slices == 1 {
        "\u{f0a9e}"@
    } else if slices == 2 {
        "\u{f0a9f}"@
    } else if slices == 3 {
        "\u{f0aa0}"@
    } else if slices == 4 {
        "\u{f0aa1}"@
    } else if slices == 5 {
        "\u{f0aa2}"@
    } else if slices == 6 {
        "\u{f0aa3}"@
    } else if slices == 7 {
        "\u{f0aa4}"@
    } else {
        "\u{f0aa5}"@
    }
}

pub open spec fn quota_text(quota_left_pct: Double) -> Seq<char> {
    markup::colored(
        Palette::OkSolar,
        quota_icon(quota_left_pct.truncated_into(0, 100)),
        color_of(quota_left_pct),
    )
}

pub open spec fn window_text(w: UsageWindow) -> Seq<char> {
    match w.time_left_frac {
        Some(frac) => quota_text(w.quota_left_pct) + markup::colored(
            Palette::OkSolar,
            markup::ramp_icon(markup::ramp_step(frac)),
            color_of(w.quota_left_pct),
        ),
        None => quota_text(w.quota_left_pct),
    }
}

pub open spec fn windows_text(windows: Seq<UsageWindow>) -> Seq<char>
    decreases windows.len(),
{
    if windows.len() == 0 {
        Seq::empty()
    } else {
        windows_text(windows.drop_last()) + window_text(windows.last())
    }
}

pub open spec fn provider_text(
    label: Seq<char>,
    usage: Seq<char>,
    default: bool,
    url: Seq<char>,
) -> Seq<char> {
    if default {
        markup::clickable(
            label.push(' ') + usage,
            PolybarActionType::ClickLeft,
            "firefox --new-tab '"@ + url + "'"@,
        )
    } else {
        usage
    }
}

pub open spec fn warning_text() -> Seq<char> {
    markup::colored(Palette::OkSolar, ICON_WARNING@, Color::Attention)
}

pub open spec fn claude_text(status: ClaudeUsageStatus) -> Seq<char> {
    match status {
        ClaudeUsageStatus::Available { h5, d7 } => window_text(h5) + window_text(d7),
        ClaudeUsageStatus::AuthInvalid => ICON_UNAUTHORIZED@,
        ClaudeUsageStatus::Error => warning_text(),
    }
}

pub open spec fn chatgpt_text(usage: Option<Seq<UsageWindow>>) -> Seq<char> {
    match usage {
        Some(windows) => windows_text(windows),
        None => warning_text(),
    }
}

/// Text of each `ClaudeUsageStatus` account, the default one first.
pub open spec fn claude_texts(name: Seq<char>, statuses: Seq<ClaudeUsageStatus>) -> Seq<Seq<char>> {
    Seq::new(
        statuses.len(),
        |i: int|
            provider_text(ICON_CLAUDE@, claude_text(statuses[i]), i == 0, claude_usage_page(name)),
    )
}

/// Text of each ChatGPT account, the default one first.
pub open spec fn chatgpt_texts(statuses: Seq<Option<Seq<UsageWindow>>>) -> Seq<Seq<char>> {
    Seq::new(
        statuses.len(),
        |i: int| provider_text(ICON_CHATGPT@, chatgpt_text(statuses[i]), i == 0, CHATGPT_USAGE_URL@),
    )
}

/// Page with the usage of a provider of that name.
pub open spec fn claude_usage_page(name: Seq<char>) -> Seq<char> {
    "https://"@ + name + ".ai/settings/usage"@
}

pub open spec fn state_text(name: Seq<char>, state: UsageModel) -> Seq<char> {
    markup::colored(Palette::OkSolar, ICON_INFERENCE_USAGE@, Color::MainIcon) + " "@ + text::joined(
        claude_texts(name, state.claude),
        " "@,
    ) + " "@ + text::joined(chatgpt_texts(state.chatgpt), " "@)
}

fn warning() -> (r: String)
    ensures
        r@ == warning_text(),
{
    markup::style(Palette::OkSolar, ICON_WARNING, Some(Color::Attention), None)
}

impl InferenceUsageModule {
    pub fn quota_color(quota_left_pct: Double) -> (r: Color)
        ensures
            r == color_of(quota_left_pct),
    {
        if quota_left_pct.above(30, 0) {
            Color::Good
        } else if quota_left_pct.at_least(10, 0) {
            Color::Notice
        } else {
            Color::Attention
        }
    }

    pub fn render_quota(quota_left_pct: Double) -> (r: String)
        ensures
            r@ == quota_text(quota_left_pct),
    {
        let pct: i64 = quota_left_pct.truncate_into(0, 100);
        let icon = if pct == 0 {
            "\u{f05d6}"
        } else {
            let slices: i64 = 1 + (pct - 1) * 7 / 99;
            if slices == 1 {
                "\u{f0a9e}"
            } else if slices == 2 {
                "\u{f0a9f}"
            } else if slices == 3 {
                "\u{f0aa0}"
            } else if slices == 4 {
                "\u{f0aa1}"
            } else if slices == 5 {
                "\u{f0aa2}"
            } else if slices == 6 {
                "\u{f0aa3}"
            } else if slices == 7 {
                "\u{f0aa4}"
            } else {
                "\u{f0aa5}"
            }
        };
        markup::style(Palette::OkSolar, icon, Some(Self::quota_color(quota_left_pct)), None)
    }

    /// Renders the quota of a window, followed by the time left before reset where it is running.
    pub fn render_window(window: &UsageWindow) -> (r: String)
        ensures
            r@ == window_text(*window),
    {
        let mut quota = Self::render_quota(window.quota_left_pct);
        if let Some(frac) = window.time_left_frac {
            let ramp = markup::ramp(frac, Self::quota_color(window.quota_left_pct));
            quota.append(ramp.as_str());
        }
        quota
    }

    /// Renders each window quota, followed by the time left before reset for each running window.
    pub fn render_windows(windows: &Vec<UsageWindow>) -> (r: String)
        ensures
            r@ == windows_text(windows@),
    {
        let mut r = String::new();
        let mut i: usize = 0;
        while i < windows.len()
            invariant
                i <= windows.len(),
                r@ == windows_text(windows@.take(i as int)),
            decreases windows.len() - i,
        {
            let w = Self::render_window(&windows[i]);
            r.append(w.as_str());
            i += 1;
            assert(windows@.take(i as int).drop_last() =~= windows@.take(i - 1));
        }
        assert(windows@.take(i as int) =~= windows@);
        r
    }

    /// Markup of the usage of an account; the default one has the label of the provider, and opens
    /// a page.
    pub fn provider_markup(label: &str, usage: &str, default: bool, url: &str) -> (r: String)
        ensures
            r@ == provider_text(label@, usage@, default, url@),
    {
        if !default {
            return usage.to_owned();
        }
        let mut inner = label.to_owned();
        inner.push(' ');
        inner.append(usage);
        let mut command = "firefox --new-tab '".to_owned();
        command.append(url);
        command.append("'");
        markup::action(inner.as_str(), PolybarActionType::ClickLeft, command.as_str())
    }

    /// Prefix of the credentials files, relative to the home directory.
    pub fn claude_token_prefix(&self) -> (r: String)
        ensures
            r@ == ".config/"@ + self.claude_name@ + "/.credentials"@,
    {
        let mut r = ".config/".to_owned();
        r.append(self.claude_name.as_str());
        r.append("/.credentials");
        r
    }

    /// Page with the usage of the `ClaudeAccount`s.
    pub fn claude_usage_url(&self) -> (r: String)
        ensures
            r@ == claude_usage_page(self.claude_name@),
    {
        let mut r = "https://".to_owned();
        r.append(self.claude_name.as_str());
        r.append(".ai/settings/usage");
        r
    }

    fn render_claude(status: ClaudeUsageStatus) -> (r: String)
        ensures
            r@ == claude_text(status),
    {
        match status {
            ClaudeUsageStatus::Available { h5, d7 } => {
                let mut r = Self::render_window(&h5);
                let d = Self::render_window(&d7);
                r.append(d.as_str());
                r
            },
            ClaudeUsageStatus::AuthInvalid => ICON_UNAUTHORIZED.to_owned(),
            ClaudeUsageStatus::Error => warning(),
        }
    }
}

impl RenderablePolybarModule for InferenceUsageModule {
    type State = InferenceUsageModuleState;

    open spec fn renderable(&self, state: &InferenceUsageModuleState) -> bool {
        true
    }

    open spec fn rendered(&self, state: &InferenceUsageModuleState) -> Seq<char> {
        state_text(self.claude_name@, state@)
    }

    fn can_render(&self, state: &InferenceUsageModuleState) -> (r: bool) {
        true
    }

    fn render(&self, state: &InferenceUsageModuleState) -> (r: String) {
        let ghost name = self.claude_name@;
        let url = self.claude_usage_url();
        let mut claude: Vec<String> = Vec::new();
        let mut i: usize = 0;
        assert(text::texts(claude@) =~= claude_texts(name, state@.claude).take(0));
        while i < state.claude_statuses.len()
            invariant
                i <= state.claude_statuses.len(),
                url@ == claude_usage_page(name),
                text::texts(claude@) == claude_texts(name, state@.claude).take(i as int),
            decreases state.claude_statuses.len() - i,
        {
            let usage = Self::render_claude(state.claude_statuses[i]);
            claude.push(
                Self::provider_markup(ICON_CLAUDE, usage.as_str(), i == 0, url.as_str()),
            );
            i += 1;
            assert(claude_texts(name, state@.claude).take(i as int) =~= claude_texts(
                name,
                state@.claude,
            ).take(i - 1).push(claude_texts(name, state@.claude)[i - 1]));
        }
        let mut chatgpt: Vec<String> = Vec::new();
        let mut k: usize = 0;
        assert(text::texts(chatgpt@) =~= chatgpt_texts(state@.chatgpt).take(0));
        while k < state.chatgpt_statuses.len()
            invariant
                k <= state.chatgpt_statuses.len(),
                text::texts(chatgpt@) == chatgpt_texts(state@.chatgpt).take(k as int),
            decreases state.chatgpt_statuses.len() - k,
        {
            let usage = match &state.chatgpt_statuses[k] {
                Some(windows) => Self::render_windows(windows),
                None => warning(),
            };
            chatgpt.push(
                Self::provider_markup(ICON_CHATGPT, usage.as_str(), k == 0, CHATGPT_USAGE_URL),
            );
            k += 1;
            assert(chatgpt_texts(state@.chatgpt).take(k as int) =~= chatgpt_texts(
                state@.chatgpt,
            ).take(k - 1).push(chatgpt_texts(state@.chatgpt)[k - 1]));
        }
        assert(text::texts(claude@) =~= claude_texts(name, state@.claude));
        assert(text::texts(chatgpt@) =~= chatgpt_texts(state@.chatgpt));
        let mut r = markup::style(
            Palette::OkSolar,
            ICON_INFERENCE_USAGE,
            Some(Color::MainIcon),
            None,
        );
        let c = text::join(&claude, " ");
        let g = text::join(&chatgpt, " ");
        r.append(" ");
        r.append(c.as_str());
        r.append(" ");
        r.append(g.as_str());
        r
    }
}

/// The quota icon never gets emptier while there is more quota left, and it is empty only where
/// nothing is left.
pub proof fn more_quota_fills_more(a: int, b: int)
    requires
        0 <= a <= b <= 100,
    ensures
        0 <= quota_slices(a) <= quota_slices(b) <= 8,
        quota_slices(a) == 0 <==> a == 0,
        quota_slices(a) == 8 <==> a == 100,
{
}

// What is shown of a quota

/// The color of a quota is good above 30 percent, a warning below 10, and in between from 10 on.
pub proof fn little_quota_is_marked(quota_left_pct: Double)
    requires
        !quota_left_pct.is_nan(),
    ensures
        color_of(quota_left_pct) == Color::Good <==> quota_left_pct.units() > 30 * pow2(1074),
        color_of(quota_left_pct) == Color::Notice <==> 10 * pow2(1074) <= quota_left_pct.units()
            <= 30 * pow2(1074),
        color_of(quota_left_pct) == Color::Attention <==> quota_left_pct.units() < 10 * pow2(1074),
{
    lemma2_to64();
    lemma_pow2_pos(1074);
    let u = quota_left_pct.units();
    assert(u * pow2(0) == u) by (nonlinear_arith)
        requires
            pow2(0) == 1,
    ;
}

/// The circles follow one another in the font, one for each slice; without any quota there is an
/// icon of its own. The slices are equal, up to the whole percent.
pub proof fn circles_fill_up(pct: int)
    requires
        0 <= pct <= 100,
    ensures
        quota_icon(0) == "\u{f05d6}"@,
        pct > 0 ==> quota_icon(pct) == seq![(0xf0a9d + quota_slices(pct)) as char],
        pct > 0 ==> 99 * (quota_slices(pct) - 1) <= 7 * (pct - 1) < 99 * quota_slices(pct),
{
    reveal_strlit("\u{f0a9e}");
    reveal_strlit("\u{f0a9f}");
    reveal_strlit("\u{f0aa0}");
    reveal_strlit("\u{f0aa1}");
    reveal_strlit("\u{f0aa2}");
    reveal_strlit("\u{f0aa3}");
    reveal_strlit("\u{f0aa4}");
    reveal_strlit("\u{f0aa5}");
    assert(pct > 0 ==> quota_icon(pct) =~= seq![(0xf0a9d + quota_slices(pct)) as char]);
}

/// A window shows its quota, and where it runs a bar of the same color for the time that is left;
/// the windows of an account stand one behind the other.
pub proof fn windows_stand_in_a_row(a: Seq<UsageWindow>, b: Seq<UsageWindow>, w: UsageWindow)
    ensures
        windows_text(a + b) == windows_text(a) + windows_text(b),
        windows_text(seq![w]) == window_text(w),
        w.time_left_frac is None ==> window_text(w) == markup::colored(
            Palette::OkSolar,
            quota_icon(w.quota_left_pct.truncated_into(0, 100)),
            color_of(w.quota_left_pct),
        ),
        w.time_left_frac matches Some(frac) ==> window_text(w) == markup::colored(
            Palette::OkSolar,
            quota_icon(w.quota_left_pct.truncated_into(0, 100)),
            color_of(w.quota_left_pct),
        ) + markup::colored(
            Palette::OkSolar,
            markup::ramp_icon(markup::ramp_step(frac)),
            color_of(w.quota_left_pct),
        ),
    decreases b.len(),
{
    reveal_with_fuel(windows_text, 2);
    assert(seq![w].drop_last() =~= Seq::<UsageWindow>::empty());
    assert(windows_text(seq![w]) =~= window_text(w));
    if b.len() == 0 {
        assert(a + b =~= a);
        assert(windows_text(a) + windows_text(b) =~= windows_text(a));
    } else {
        windows_stand_in_a_row(a, b.drop_last(), w);
        assert((a + b).drop_last() =~= a + b.drop_last());
        assert(windows_text(a + b) =~= windows_text(a) + windows_text(b));
    }
}

/// Only the first account of a provider has its icon and opens its page.
pub proof fn the_first_account_opens_the_page(
    name: Seq<char>,
    state: UsageModel,
    i: int,
)
    ensures
        0 <= i < state.claude.len() ==> claude_texts(name, state.claude)[i] == if i == 0 {
            markup::clickable(
                ICON_CLAUDE@ + " "@ + claude_text(state.claude[0]),
                PolybarActionType::ClickLeft,
                "firefox --new-tab '"@ + ("https://"@ + name + ".ai/settings/usage"@) + "'"@,
            )
        } else {
            claude_text(state.claude[i])
        },
        0 <= i < state.chatgpt.len() ==> chatgpt_texts(state.chatgpt)[i] == if i == 0 {
            markup::clickable(
                ICON_CHATGPT@ + " "@ + chatgpt_text(state.chatgpt[0]),
                PolybarActionType::ClickLeft,
                "firefox --new-tab '"@ + CHATGPT_USAGE_URL@ + "'"@,
            )
        } else {
            chatgpt_text(state.chatgpt[i])
        },
        claude_texts(name, state.claude).len() == state.claude.len(),
        chatgpt_texts(state.chatgpt).len() == state.chatgpt.len(),
{
    reveal_strlit(" ");
    assert(forall|s: Seq<char>, t: Seq<char>| #[trigger] (s.push(' ') + t) =~= s + " "@ + t);
}

/// A state is complete exactly if every account reported its usage.
pub proof fn complete_states_have_all_usages(state: UsageModel)
    ensures
        !degraded(state) <==> (forall|i: int|
            0 <= i < state.chatgpt.len() ==> #[trigger] state.chatgpt[i] is Some) && (forall|i: int|
            0 <= i < state.claude.len() ==> #[trigger] state.claude[i] is Available),
{
}

/// A run of degraded updates starts with the first of them, and ends with the first complete one.
pub proof fn runs_start_with_the_first_update(
    since: Option<i128>,
    state: UsageModel,
    now: i128,
    earlier: i128,
)
    ensures
        !degraded(state) ==> since_after(since, state, now) is None,
        degraded(state) ==> since_after(None, state, now) == Some(now),
        degraded(state) ==> since_after(Some(earlier), state, now) == Some(earlier),
{
}

/// The last complete state is held for a minute from the start of the run, and not at all where the
/// start lies ahead.
pub proof fn states_are_held_for_a_minute(since: i128, now: i128)
    ensures
        hold_left(since, now) is Some <==> 0 <= now - since <= 60_000_000_000,
        hold_left(since, now) matches Some(left) ==> left + (now - since) == 60_000_000_000,
{
}

/// A delay ends with the hold where that comes first, but is never below three seconds then.
pub proof fn delays_end_with_the_shorter(delay: u128, left: u128)
    ensures
        capped(delay, None) == delay,
        left <= 3_000_000_000 || delay <= 3_000_000_000 ==> capped(delay, Some(left))
            == 3_000_000_000,
        3_000_000_000 <= left <= delay ==> capped(delay, Some(left)) == left,
        3_000_000_000 <= delay <= left ==> capped(delay, Some(left)) == delay,
{
}

/// An account is left alone while its credentials are those that were not accepted, or while its
/// requests are held back, and only then.
pub proof fn accounts_are_left_alone_for_a_reason(
    a: ClaudeAccount,
    mtime: Option<i128>,
    now: i128,
    limit: RateLimitBackoff,
)
    ensures
        claude_skipped(None, mtime, now) is None,
        mtime is Some && a.auth_failed_mtime == mtime ==> claude_skipped(Some(a), mtime, now)
            == Some(ClaudeUsageStatus::AuthInvalid),
        (mtime is None || a.auth_failed_mtime != mtime) && (a.rate_limit.skip_until matches Some(t)
            && now < t) ==> claude_skipped(Some(a), mtime, now) == Some(ClaudeUsageStatus::Error),
        (mtime is None || a.auth_failed_mtime != mtime) && !(a.rate_limit.skip_until matches Some(t)
            && now < t) ==> claude_skipped(Some(a), mtime, now) is None,
        chatgpt_skipped(Some(limit), now) <==> (limit.skip_until matches Some(t) && now < t),
        !chatgpt_skipped(None, now),
{
}

/// A fetch that succeeded gives the usage, one with credentials that are not accepted says so, and
/// any other is an error; only a rate limit holds the next one back.
pub proof fn outcomes_give_statuses(
    before: ClaudeAccount,
    after: ClaudeAccount,
    outcome: Result<(UsageWindow, UsageWindow), ProviderFetchError>,
    tried_mtime: Option<i128>,
    now: i128,
    status: ClaudeUsageStatus,
)
    requires
        claude_settled(before, after, outcome, tried_mtime, now, status),
    ensures
        outcome is Ok <==> status is Available,
        outcome matches Ok(w) ==> status == (ClaudeUsageStatus::Available { h5: w.0, d7: w.1 })
            && after.auth_failed_mtime is None && after.rate_limit.skip_until is None,
        outcome == Err::<(UsageWindow, UsageWindow), _>(ProviderFetchError::AuthInvalid)
            <==> status == ClaudeUsageStatus::AuthInvalid,
        status == ClaudeUsageStatus::AuthInvalid ==> after.auth_failed_mtime == tried_mtime
            && after.rate_limit == before.rate_limit,
        status == ClaudeUsageStatus::Error ==> after.auth_failed_mtime == before.auth_failed_mtime,
        outcome == Err::<(UsageWindow, UsageWindow), _>(ProviderFetchError::Other) ==> after
            == before,
{
}

/// A fetch that succeeded with any window gives its usage, and any other none; only a rate limit
/// holds the next one back.
pub proof fn outcomes_give_usages(
    before: RateLimitBackoff,
    after: RateLimitBackoff,
    outcome: Result<Seq<UsageWindow>, ProviderFetchError>,
    now: i128,
    usage: Option<Seq<UsageWindow>>,
)
    requires
        chatgpt_settled(before, after, outcome, now, usage),
    ensures
        usage is Some <==> outcome is Ok && outcome->Ok_0.len() > 0,
        usage matches Some(w) ==> outcome == Ok::<_, ProviderFetchError>(w),
        outcome is Ok ==> after.skip_until is None,
        outcome matches Err(e) ==> (e != ProviderFetchError::RateLimited ==> after == before),
{
}

/// While every account reports, an update comes every three minutes, and the retries start over.
pub proof fn complete_updates_come_every_three_minutes(
    before: InferenceUsageModule,
    after: InferenceUsageModule,
    now: i128,
    delay: Option<u128>,
)
    requires
        before.degraded_since is None,
        delays(before, after, now, delay),
    ensures
        delay == Some(180_000_000_000u128),
        after.degraded_backoff.base() is None,
{
}

/// The update is held back exactly while the requests of some account are.
pub proof fn any_account_holds_the_update_back(m: InferenceUsageModule, now: i128)
    ensures
        m.limited_at(now) <==> (exists|i: int|
            0 <= i < m.claude_accounts.entries@.len() && ((
            #[trigger] m.claude_accounts.entries@[i]).1.rate_limit.skip_until matches Some(t) && now
                < t)) || (exists|i: int|
            0 <= i < m.chatgpt_accounts.entries@.len() && ((
            #[trigger] m.chatgpt_accounts.entries@[i]).1.skip_until matches Some(t) && now < t)),
{
    if m.limited_at(now) {
        if exists|i: int|
            0 <= i < m.claude_accounts.entries@.len() && accounts::held_back(
                (#[trigger] m.claude_accounts.entries@[i]).1.rate_limit.skip_until,
                now,
            ) {
            let i = choose|i: int|
                0 <= i < m.claude_accounts.entries@.len() && accounts::held_back(
                    (#[trigger] m.claude_accounts.entries@[i]).1.rate_limit.skip_until,
                    now,
                );
            assert(m.claude_accounts.entries@[i].1.rate_limit.skip_until is Some);
        } else {
            let i = choose|i: int|
                0 <= i < m.chatgpt_accounts.entries@.len() && accounts::held_back(
                    (#[trigger] m.chatgpt_accounts.entries@[i]).1.skip_until,
                    now,
                );
            assert(m.chatgpt_accounts.entries@[i].1.skip_until is Some);
        }
    }
}

/// What was remembered of an account is what an outcome starts from, and nothing where nothing was.
pub proof fn remembered_accounts_go_on(
    held: ClaudeAccount,
    before: ClaudeAccount,
    limit: RateLimitBackoff,
    after: RateLimitBackoff,
)
    ensures
        claude_before(Some(held), before) <==> before == held,
        claude_before(None, before) ==> before.auth_failed_mtime is None
            && before.rate_limit.skip_until is None,
        chatgpt_before(Some(limit), after) <==> after == limit,
        chatgpt_before(None, after) ==> after.skip_until is None,
{
}

/// A module holds its last complete state where it has one, for what is left of a minute from the
/// start of the run of degraded updates.
pub proof fn only_complete_states_are_held(m: InferenceUsageModule, now: i128)
    ensures
        m.last_complete_state is None || m.degraded_since is None ==> held_for(m, now) is None,
        m.last_complete_state is Some && m.degraded_since is Some ==> held_for(m, now) == if 0 <= now
            - m.degraded_since->0 <= 60_000_000_000 {
            Some((60_000_000_000 - (now - m.degraded_since->0)) as u128)
        } else {
            None
        },
{
}

}
