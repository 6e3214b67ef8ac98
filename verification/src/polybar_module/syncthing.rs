//! Folders and devices of Syncthing.

use vstd::prelude::*;

use crate::markup;
use crate::markup::PolybarActionType;
use crate::numeral;
use crate::polybar_module::RenderablePolybarModule;
use crate::text;
use crate::theme::{Color, Palette, ICON_WARNING};

verus! {

broadcast use crate::text::texts_push;

/// Seconds after which a request for events is answered without any.
pub const REST_EVENT_TIMEOUT_SECS: u64 = 60 * 60;

/// Seconds after which any other request has failed.
pub const TCP_LOCAL_TIMEOUT_SECS: u64 = 5;

// Addresses

#[verifier::external_type_specification]
#[verifier::external_body]
pub struct ExUrl(url::Url);

/// Text of an address.
pub uninterp spec fn url_text(url: url::Url) -> Seq<char>;

/// Text of the address that a text stands for: what `url::Url::parse` reads.
pub uninterp spec fn url_parsed(s: Seq<char>) -> Option<Seq<char>>;

/// Text of a reference resolved against an address: what `url::Url::join` gives.
pub uninterp spec fn url_joined(base: Seq<char>, reference: Seq<char>) -> Option<Seq<char>>;

/// Text of an address with one more pair in its query: what `append_pair` of the serializer that
/// `url::Url::query_pairs_mut` gives leaves.
pub uninterp spec fn url_with_pair(url: Seq<char>, key: Seq<char>, value: Seq<char>) -> Seq<char>;

/// `url::Url::parse`: the address that a text stands for; nothing where it is none. How it is read
/// is not stated.
#[verifier::external_body]
fn parse_url(s: &str) -> (r: Option<url::Url>)
    ensures
        match r {
            Some(u) => url_parsed(s@) == Some(url_text(u)),
            None => url_parsed(s@) is None,
        },
{
    url::Url::parse(s).ok()
}

/// `url::Url::join`: a reference resolved against an address; nothing where that is no address. How
/// it is resolved is not stated.
#[verifier::external_body]
fn join_url(base: &url::Url, reference: &str) -> (r: Option<url::Url>)
    ensures
        match r {
            Some(u) => url_joined(url_text(*base), reference@) == Some(url_text(u)),
            None => url_joined(url_text(*base), reference@) is None,
        },
{
    base.join(reference).ok()
}

/// Whether a pair can be added to an address. Positions in it have 32 bits: those of where the query
/// begins and of where the fragment does. A pair takes three bytes at most for each of its own, and
/// two signs.
pub open spec fn can_append(url: Seq<char>, key: Seq<char>, value: Seq<char>) -> bool {
    if url.contains('#') {
        text::byte_len(url) + 3 * text::byte_len(key) + 3 * text::byte_len(value) + 3 <= u32::MAX
    } else {
        url.contains('?') || text::byte_len(url) <= u32::MAX
    }
}

/// `append_pair` on `url::Url::query_pairs_mut`: the address with one more pair in its query. How
/// the pair is encoded is not stated.
#[verifier::external_body]
fn append_pair(url: &mut url::Url, key: &str, value: &str)
    requires
        can_append(url_text(*old(url)), key@, value@),
    ensures
        url_text(*final(url)) == url_with_pair(url_text(*old(url)), key@, value@),
{
    url.query_pairs_mut().append_pair(key, value);
}

/// `url::Url::as_str`: the text of an address.
#[verifier::external_body]
fn write_url(url: &url::Url) -> (r: String)
    ensures
        r@ == url_text(*url),
{
    url.as_str().to_owned()
}

/// An address with more pairs in its query, one after the other; nothing where a pair cannot be
/// added.
pub open spec fn with_pairs(url: Option<Seq<char>>, pairs: Seq<(Seq<char>, Seq<char>)>) -> Option<
    Seq<char>,
>
    decreases pairs.len(),
{
    if pairs.len() == 0 {
        url
    } else {
        match with_pairs(url, pairs.drop_last()) {
            Some(u) => if can_append(u, pairs.last().0, pairs.last().1) {
                Some(url_with_pair(u, pairs.last().0, pairs.last().1))
            } else {
                None
            },
            None => None,
        }
    }
}

pub open spec fn pair_views(pairs: Seq<(String, String)>) -> Seq<(Seq<char>, Seq<char>)> {
    Seq::new(pairs.len(), |i: int| (pairs[i].0@, pairs[i].1@))
}

fn has_char(s: &str, c: char) -> (r: bool)
    ensures
        r == s@.contains(c),
{
    for d in it: s.chars()
        invariant
            it.seq() == s@,
            forall|j: int| 0 <= j < it.index() ==> s@[j] != c,
    {
        if d == c {
            assert(s@[it.index() as int] == c);
            return true;
        }
    }
    false
}

fn is_appendable(url: &str, key: &str, value: &str) -> (r: bool)
    ensures
        r == can_append(url@, key@, value@),
{
    let len: u128 = text::len_bytes(url) as u128;
    if has_char(url, '#') {
        len + 3 * text::len_bytes(key) as u128 + 3 * text::len_bytes(value) as u128 + 3
            <= u32::MAX as u128
    } else {
        has_char(url, '?') || len <= u32::MAX as u128
    }
}

/// Text of an address with more pairs in its query.
#[verifier::loop_isolation(false)]
fn with_params(url: Option<url::Url>, pairs: &Vec<(String, String)>) -> (r: Option<String>)
    ensures
        view_of(r) == with_pairs(
            match url {
                Some(u) => Some(url_text(u)),
                None => None,
            },
            pair_views(pairs@),
        ),
{
    let ghost all = pair_views(pairs@);
    let mut url = match url {
        Some(u) => u,
        None => {
            proof {
                no_pairs_without_address(all);
            }
            return None;
        },
    };
    let ghost start = url_text(url);
    let mut i: usize = 0;
    while i < pairs.len()
        invariant
            i <= pairs.len(),
            all == pair_views(pairs@),
            Some(url_text(url)) == with_pairs(Some(start), all.take(i as int)),
        decreases pairs.len() - i,
    {
        assert(all.take(i + 1).drop_last() =~= all.take(i as int));
        assert(all.take(i + 1).last() == (pairs[i as int].0@, pairs[i as int].1@));
        let text = write_url(&url);
        if !is_appendable(text.as_str(), pairs[i].0.as_str(), pairs[i].1.as_str()) {
            proof {
                a_missing_address_stays_missing(Some(start), all, i + 1);
            }
            return None;
        }
        append_pair(&mut url, pairs[i].0.as_str(), pairs[i].1.as_str());
        i += 1;
    }
    assert(all.take(i as int) =~= all);
    Some(write_url(&url))
}

proof fn no_pairs_without_address(pairs: Seq<(Seq<char>, Seq<char>)>)
    ensures
        with_pairs(None, pairs) is None,
    decreases pairs.len(),
{
    if pairs.len() > 0 {
        no_pairs_without_address(pairs.drop_last());
    }
}

proof fn a_missing_address_stays_missing(
    url: Option<Seq<char>>,
    pairs: Seq<(Seq<char>, Seq<char>)>,
    k: int,
)
    requires
        0 <= k <= pairs.len(),
        with_pairs(url, pairs.take(k)) is None,
    ensures
        with_pairs(url, pairs) is None,
    decreases pairs.len() - k,
{
    if k < pairs.len() {
        assert(pairs.take(k + 1).drop_last() =~= pairs.take(k));
        a_missing_address_stays_missing(url, pairs, k + 1);
    } else {
        assert(pairs.take(k) =~= pairs);
    }
}

pub open spec fn view_of(s: Option<String>) -> Option<Seq<char>> {
    match s {
        Some(t) => Some(t@),
        None => None,
    }
}

/// Address of a call of the REST interface, without pairs in its query.
pub open spec fn call_address(path: Seq<char>) -> Option<Seq<char>> {
    match url_parsed("http://127.0.0.1:8384/rest/"@) {
        Some(base) => url_joined(base, path),
        None => None,
    }
}

/// Address of a call of the REST interface.
pub fn rest_url(path: &str, params: &Vec<(String, String)>) -> (r: Option<String>)
    ensures
        view_of(r) == with_pairs(call_address(path@), pair_views(params@)),
{
    let url = match parse_url("http://127.0.0.1:8384/rest/") {
        Some(base) => join_url(&base, path),
        None => None,
    };
    with_params(url, params)
}

/// Pairs in the query for events: those after the last one, of the given types, and how long to
/// wait for one.
pub open spec fn event_pairs(last_event_id: u64, types: Seq<Seq<char>>) -> Seq<
    (Seq<char>, Seq<char>),
> {
    seq![
        ("since"@, numeral::decimal_text(last_event_id as nat)),
        ("events"@, text::joined(types, ","@)),
        ("timeout"@, numeral::decimal_text(3605)),
    ]
}

// Counts

#[derive(Clone, Copy, Debug, PartialEq, Eq, Structural)]
pub struct SyncthingModuleState {
    pub folder_count: usize,
    pub device_connected_count: usize,
    pub device_syncing_to_count: usize,
    pub folders_syncing_down_count: usize,
    pub remote_device_count: usize,
}

/// What a device still needs.
#[derive(Clone, Copy, Debug, PartialEq, Eq, Structural)]
pub struct DbCompletion {
    pub need_bytes: u64,
    pub need_items: u64,
    pub need_deletes: u64,
}

/// Outcome of asking what a device needs.
#[derive(Clone, Copy, Debug, PartialEq, Eq, Structural)]
pub enum CompletionReply {
    Completion(DbCompletion),
    /// The request was answered with another status than success.
    Status(u16),
}

/// A request was answered with another status than success.
#[derive(Clone, Copy, Debug, PartialEq, Eq, Structural)]
pub struct HttpStatus {
    pub code: u16,
}

pub open spec fn needs_anything(c: DbCompletion) -> bool {
    c.need_bytes > 0 || c.need_items > 0 || c.need_deletes > 0
}

/// Number of devices that still need something; paused devices are not found. Any other status is
/// an error.
pub open spec fn syncing_count(replies: Seq<CompletionReply>) -> Result<nat, HttpStatus>
    decreases replies.len(),
{
    if replies.len() == 0 {
        Ok(0)
    } else {
        match syncing_count(replies.drop_last()) {
            Err(e) => Err(e),
            Ok(n) => match replies.last() {
                CompletionReply::Completion(c) => Ok(
                    if needs_anything(c) {
                        n + 1
                    } else {
                        n
                    },
                ),
                CompletionReply::Status(code) => if code == 404 {
                    Ok(n)
                } else {
                    Err(HttpStatus { code })
                },
            },
        }
    }
}

proof fn syncing_fails_early(replies: Seq<CompletionReply>, k: int)
    requires
        0 <= k <= replies.len(),
        syncing_count(replies.take(k)) is Err,
    ensures
        syncing_count(replies) == syncing_count(replies.take(k)),
    decreases replies.len() - k,
{
    if k < replies.len() {
        assert(replies.take(k + 1).drop_last() =~= replies.take(k));
        syncing_fails_early(replies, k + 1);
    } else {
        assert(replies.take(k) =~= replies);
    }
}

/// A paused device changes nothing.
pub proof fn paused_devices_need_nothing(replies: Seq<CompletionReply>)
    ensures
        syncing_count(replies.push(CompletionReply::Status(404))) == syncing_count(replies),
{
    assert(replies.push(CompletionReply::Status(404)).drop_last() =~= replies);
}

/// Counts the devices that still need something.
pub fn count_syncing(replies: &Vec<CompletionReply>) -> (r: Result<usize, HttpStatus>)
    ensures
        match (r, syncing_count(replies@)) {
            (Ok(a), Ok(b)) => a == b,
            (Err(a), Err(b)) => a == b,
            _ => false,
        },
{
    let mut n: usize = 0;
    let mut i: usize = 0;
    while i < replies.len()
        invariant
            i <= replies.len(),
            n <= i,
            syncing_count(replies@.take(i as int)) == Ok::<nat, HttpStatus>(n as nat),
        decreases replies.len() - i,
    {
        assert(replies@.take(i + 1).drop_last() =~= replies@.take(i as int));
        assert(replies@.take(i + 1).last() == replies@[i as int]);
        match replies[i] {
            CompletionReply::Completion(c) => {
                if c.need_bytes > 0 || c.need_items > 0 || c.need_deletes > 0 {
                    n += 1;
                }
            },
            CompletionReply::Status(code) => {
                if code != 404 {
                    proof {
                        syncing_fails_early(replies@, i + 1);
                    }
                    return Err(HttpStatus { code });
                }
            },
        }
        i += 1;
    }
    assert(replies@.take(i as int) =~= replies@);
    Ok(n)
}

/// Number of devices that are connected.
pub open spec fn connected_count(connected: Seq<bool>) -> nat
    decreases connected.len(),
{
    if connected.len() == 0 {
        0
    } else {
        connected_count(connected.drop_last()) + if connected.last() {
            1nat
        } else {
            0nat
        }
    }
}

fn count_connected(connected: &Vec<bool>) -> (r: usize)
    ensures
        r == connected_count(connected@),
{
    let mut n: usize = 0;
    let mut i: usize = 0;
    while i < connected.len()
        invariant
            i <= connected.len(),
            n <= i,
            n == connected_count(connected@.take(i as int)),
        decreases connected.len() - i,
    {
        assert(connected@.take(i + 1).drop_last() =~= connected@.take(i as int));
        if connected[i] {
            n += 1;
        }
        i += 1;
    }
    assert(connected@.take(i as int) =~= connected@);
    n
}

// The module

/// The last event, and the folders that are being downloaded, each once.
pub struct SyncthingModule {
    pub last_event_id: u64,
    pub folders_syncing_down: Vec<String>,
}

/// An event, as far as it is of interest: its number, and the folders of a progress of downloads.
pub struct SyncthingEvent {
    pub id: u64,
    pub downloading: Option<Vec<String>>,
}

pub open spec fn all_distinct(v: Seq<Seq<char>>) -> bool {
    forall|i: int, j: int| 0 <= i < j < v.len() ==> #[trigger] v[i] != #[trigger] v[j]
}

/// Whether two lists hold the same texts.
pub open spec fn same_texts(a: Seq<Seq<char>>, b: Seq<Seq<char>>) -> bool {
    forall|t: Seq<char>| #[trigger] a.contains(t) <==> b.contains(t)
}

fn distinct(v: &Vec<String>) -> (r: Vec<String>)
    ensures
        all_distinct(text::texts(r@)),
        same_texts(text::texts(r@), text::texts(v@)),
{
    let ghost all = text::texts(v@);
    let mut r: Vec<String> = Vec::new();
    let mut i: usize = 0;
    assert(text::texts(r@) =~= Seq::empty());
    while i < v.len()
        invariant
            i <= v.len(),
            all == text::texts(v@),
            all_distinct(text::texts(r@)),
            same_texts(text::texts(r@), all.take(i as int)),
        decreases v.len() - i,
    {
        let ghost before = text::texts(r@);
        let ghost x = v[i as int]@;
        assert(all[i as int] == x);
        assert(all.take(i + 1) =~= all.take(i as int).push(x));
        let known = text::contains_text(&r, v[i].as_str());
        if !known {
            r.push(v[i].clone());
            assert forall|a: int, b: int| 0 <= a < b < text::texts(r@).len() implies #[trigger]
                text::texts(r@)[a] != #[trigger] text::texts(r@)[b] by {
                if b == before.len() {
                    assert(before.contains(before[a]));
                }
            }
        }
        assert forall|t: Seq<char>| #[trigger] text::texts(r@).contains(t) <==> all.take(
            i + 1,
        ).contains(t) by {
            let now = text::texts(r@);
            let seen = all.take(i as int);
            if now.contains(t) {
                let k = choose|k: int| 0 <= k < now.len() && now[k] == t;
                if k < before.len() {
                    assert(before[k] == t);
                    assert(before.contains(t));
                    assert(seen.contains(t));
                    let j = choose|j: int| 0 <= j < seen.len() && seen[j] == t;
                    assert(all.take(i + 1)[j] == t);
                } else {
                    assert(all.take(i + 1)[i as int] == t);
                }
            }
            if all.take(i + 1).contains(t) {
                let more = all.take(i + 1);
                let j = choose|j: int| 0 <= j < more.len() && more[j] == t;
                if j < i {
                    assert(seen[j] == t);
                    assert(seen.contains(t));
                    assert(before.contains(t));
                    let k = choose|k: int| 0 <= k < before.len() && before[k] == t;
                    assert(now[k] == t);
                } else {
                    if known {
                        let k = choose|k: int| 0 <= k < before.len() && before[k] == t;
                        assert(now[k] == t);
                    } else {
                        assert(now[before.len() as int] == t);
                    }
                }
            }
        }
        i += 1;
    }
    assert(all.take(i as int) =~= all);
    r
}

impl SyncthingModule {
    pub open spec fn wf(&self) -> bool {
        all_distinct(text::texts(self.folders_syncing_down@))
    }

    pub fn new() -> (r: Self)
        ensures
            r.wf(),
            r.last_event_id == 0,
            r.folders_syncing_down@ == Seq::<String>::empty(),
    {
        SyncthingModule { last_event_id: 0, folders_syncing_down: Vec::new() }
    }

    /// Address of the request for the events after the last one.
    pub fn events_url(&self, types: &Vec<String>) -> (r: Option<String>)
        ensures
            view_of(r) == with_pairs(
                url_parsed("http://127.0.0.1:8384/rest/events"@),
                event_pairs(self.last_event_id, text::texts(types@)),
            ),
    {
        let mut params: Vec<(String, String)> = Vec::new();
        params.push(("since".to_owned(), numeral::decimal(self.last_event_id)));
        params.push(("events".to_owned(), text::join(types, ",")));
        params.push(
            (
                "timeout".to_owned(),
                numeral::decimal(REST_EVENT_TIMEOUT_SECS + TCP_LOCAL_TIMEOUT_SECS),
            ),
        );
        assert(pair_views(params@) =~= event_pairs(self.last_event_id, text::texts(types@)));
        with_params(parse_url("http://127.0.0.1:8384/rest/events"), &params)
    }

    /// Types of the events that are waited for.
    pub fn event_types() -> (r: Vec<String>)
        ensures
            text::texts(r@) == seq![
                "DeviceConnected"@,
                "DeviceDisconnected"@,
                "DownloadProgress"@,
                "RemoteDownloadProgress"@,
            ],
    {
        let mut r: Vec<String> = Vec::new();
        r.push("DeviceConnected".to_owned());
        r.push("DeviceDisconnected".to_owned());
        r.push("DownloadProgress".to_owned());
        r.push("RemoteDownloadProgress".to_owned());
        assert(text::texts(r@) =~= seq![
            "DeviceConnected"@,
            "DeviceDisconnected"@,
            "DownloadProgress"@,
            "RemoteDownloadProgress"@,
        ]);
        r
    }

    /// Takes an event: a progress of downloads replaces the folders that are being downloaded.
    pub fn on_event(&mut self, event: SyncthingEvent)
        requires
            old(self).wf(),
        ensures
            final(self).wf(),
            final(self).last_event_id == event.id,
            match event.downloading {
                Some(folders) => same_texts(
                    text::texts(final(self).folders_syncing_down@),
                    text::texts(folders@),
                ),
                None => final(self).folders_syncing_down == old(self).folders_syncing_down,
            },
    {
        if let Some(folders) = event.downloading {
            self.folders_syncing_down = distinct(&folders);
        }
        self.last_event_id = event.id;
    }

    /// State from the numbers of folders and devices of the configuration, from which devices are
    /// connected, and from what the connected ones need. One of the devices is this one.
    pub fn try_update(
        &self,
        folders: usize,
        devices: usize,
        connected: &Vec<bool>,
        replies: &Vec<CompletionReply>,
    ) -> (r: Result<SyncthingModuleState, HttpStatus>)
        requires
            devices > 0,
        ensures
            match (r, syncing_count(replies@)) {
                (Ok(s), Ok(n)) => {
                    &&& s.folder_count == folders
                    &&& s.device_connected_count == connected_count(connected@)
                    &&& s.device_syncing_to_count == n
                    &&& s.folders_syncing_down_count == self.folders_syncing_down@.len()
                    &&& s.remote_device_count == devices - 1
                },
                (Err(a), Err(b)) => a == b,
                _ => false,
            },
    {
        let device_syncing_to_count: usize = match count_syncing(replies) {
            Ok(n) => n,
            Err(e) => {
                return Err(e);
            },
        };
        Ok(
            SyncthingModuleState {
                folder_count: folders,
                device_connected_count: count_connected(connected),
                device_syncing_to_count,
                folders_syncing_down_count: self.folders_syncing_down.len(),
                remote_device_count: devices - 1,
            },
        )
    }
}

pub open spec fn state_text(state: SyncthingModuleState) -> Seq<char> {
    markup::styled(Palette::SolarizedDark, "\u{f12d6}"@, Some(Color::MainIcon), None) + " \u{e968} "@
        + numeral::decimal_text(state.folder_count as nat) + " \u{e974} "@ + numeral::decimal_text(
        state.device_connected_count as nat,
    ) + "/"@ + numeral::decimal_text(state.remote_device_count as nat) + " \u{e932}"@
        + numeral::decimal_text(state.folders_syncing_down_count as nat) + " \u{e935}"@
        + numeral::decimal_text(state.device_syncing_to_count as nat)
}

fn append_count(r: &mut String, n: usize)
    ensures
        final(r)@ == old(r)@ + numeral::decimal_text(n as nat),
{
    let d = numeral::decimal(n as u64);
    r.append(d.as_str());
}

impl RenderablePolybarModule for SyncthingModule {
    type State = Option<SyncthingModuleState>;

    open spec fn renderable(&self, state: &Option<SyncthingModuleState>) -> bool {
        true
    }

    open spec fn rendered(&self, state: &Option<SyncthingModuleState>) -> Seq<char> {
        match state {
            Some(s) => markup::clickable(
                state_text(*s),
                PolybarActionType::ClickLeft,
                "firefox --new-tab 'http://127.0.0.1:8384/'"@,
            ),
            None => markup::styled(
                Palette::SolarizedDark,
                ICON_WARNING@,
                Some(Color::Attention),
                None,
            ),
        }
    }

    fn can_render(&self, state: &Option<SyncthingModuleState>) -> (r: bool) {
        true
    }

    fn render(&self, state: &Option<SyncthingModuleState>) -> (r: String) {
        match state {
            Some(s) => {
                let mut t = markup::style(
                    Palette::SolarizedDark,
                    "\u{f12d6}",
                    Some(Color::MainIcon),
                    None,
                );
                t.append(" \u{e968} ");
                append_count(&mut t, s.folder_count);
                t.append(" \u{e974} ");
                append_count(&mut t, s.device_connected_count);
                t.append("/");
                append_count(&mut t, s.remote_device_count);
                t.append(" \u{e932}");
                append_count(&mut t, s.folders_syncing_down_count);
                t.append(" \u{e935}");
                append_count(&mut t, s.device_syncing_to_count);
                markup::action(
                    t.as_str(),
                    PolybarActionType::ClickLeft,
                    "firefox --new-tab 'http://127.0.0.1:8384/'",
                )
            },
            None => markup::style(
                Palette::SolarizedDark,
                ICON_WARNING,
                Some(Color::Attention),
                None,
            ),
        }
    }
}

/// A device that answered is counted exactly if it needs bytes, items or deletions; one that was not
/// found is not, and any other status is an error.
pub proof fn devices_in_need_are_counted(
    replies: Seq<CompletionReply>,
    c: DbCompletion,
    code: u16,
)
    ensures
        syncing_count(replies.push(CompletionReply::Completion(c))) == match syncing_count(
            replies,
        ) {
            Ok(n) => Ok::<nat, HttpStatus>(
                if c.need_bytes == 0 && c.need_items == 0 && c.need_deletes == 0 {
                    n
                } else {
                    n + 1
                },
            ),
            Err(e) => Err(e),
        },
        code != 404 && syncing_count(replies) is Ok ==> syncing_count(
            replies.push(CompletionReply::Status(code)),
        ) == Err::<nat, _>(HttpStatus { code }),
        syncing_count(Seq::empty()) == Ok::<nat, HttpStatus>(0),
{
    assert(replies.push(CompletionReply::Completion(c)).drop_last() =~= replies);
    assert(replies.push(CompletionReply::Status(code)).drop_last() =~= replies);
}

/// The devices that are connected are counted, in whatever order they come.
pub proof fn connections_are_counted(connected: Seq<bool>)
    ensures
        connected_count(connected) == connected.to_multiset().count(true),
    decreases connected.len(),
{
    broadcast use vstd::seq_lib::group_to_multiset_ensures;

    if connected.len() > 0 {
        connections_are_counted(connected.drop_last());
        assert(connected.drop_last().push(connected.last()) =~= connected);
    }
}

/// Pairs are added to an address one after the other.
pub proof fn pairs_are_added_in_order(
    url: Seq<char>,
    pairs: Seq<(Seq<char>, Seq<char>)>,
    key: Seq<char>,
    value: Seq<char>,
)
    ensures
        with_pairs(Some(url), Seq::empty()) == Some(url),
        with_pairs(Some(url), pairs.push((key, value))) == match with_pairs(Some(url), pairs) {
            Some(u) => if can_append(u, key, value) {
                Some(url_with_pair(u, key, value))
            } else {
                None
            },
            None => None,
        },
{
    assert(pairs.push((key, value)).drop_last() =~= pairs);
}

/// The events that are asked for are those after the last one, of the types that are named, and the
/// answer may take an hour and a few seconds.
pub proof fn events_are_asked_for(last_event_id: u64, types: Seq<Seq<char>>)
    ensures
        event_pairs(last_event_id, types) == seq![
            ("since"@, numeral::decimal_text(last_event_id as nat)),
            ("events"@, text::joined(types, seq![','])),
            ("timeout"@, numeral::decimal_text(60 * 60 + 5)),
        ],
{
    reveal_strlit(",");
    assert(","@ =~= seq![',']);
}

/// Calls go to the local service.
pub proof fn calls_go_to_the_local_service(path: Seq<char>)
    ensures
        url_parsed("http://127.0.0.1:8384/rest/"@) matches Some(base) ==> call_address(path)
            == url_joined(base, path),
        url_parsed("http://127.0.0.1:8384/rest/"@) is None ==> call_address(path) is None,
{
}

}
