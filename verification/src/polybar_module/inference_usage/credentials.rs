//! Files with credentials, and the requests made with them.
//!
//! The files belong to other programs and hold more than is known here: an update of one replaces
//! the tokens in it, and keeps the rest.

use vstd::prelude::*;

use crate::polybar_module::inference_usage::UsageWindow;
use crate::text;

verus! {

pub const CLAUDE_OAUTH_CLIENT_ID: &'static str = "9d1c250a-e61b-44d9-88ed-5944d1962f5e";

pub const CODEX_OAUTH_CLIENT_ID: &'static str = "app_EMoamEEZ73f0CkXaXp7hrann";

pub const CODEX_USER_AGENT: &'static str = "codex_cli_rs/0.144.6";

pub const CLAUDE_USAGE_API_URL: &'static str = "https://api.anthropic.com/api/oauth/usage";

pub const CHATGPT_USAGE_API_URL: &'static str = "https://chatgpt.com/backend-api/wham/usage";

pub const CODEX_TOKEN_URL: &'static str = "https://auth.openai.com/oauth/token";

// JSON values

#[verifier::external_type_specification]
#[verifier::external_body]
pub struct ExValue(serde_json::Value);

/// Fields of a JSON object; none for any other value.
pub uninterp spec fn json_fields(v: serde_json::Value) -> Option<Map<Seq<char>, serde_json::Value>>;

/// Text of a JSON string; none for any other value.
pub uninterp spec fn json_text(v: serde_json::Value) -> Option<Seq<char>>;

/// Value that a JSON text stands for; none for any other text.
pub uninterp spec fn json_of(s: Seq<char>) -> Option<serde_json::Value>;

/// JSON text of a value, as bytes.
pub uninterp spec fn json_bytes(v: serde_json::Value) -> Seq<u8>;

/// JSON string with a text.
pub uninterp spec fn json_string(s: Seq<char>) -> serde_json::Value;

/// JSON number.
pub uninterp spec fn json_integer(n: u64) -> serde_json::Value;

/// `serde_json::from_str`: the value that a text stands for, which is named, as is whether there is
/// one.
#[verifier::external_body]
fn parse_json(s: &str) -> (r: Option<serde_json::Value>)
    ensures
        r == json_of(s@),
{
    serde_json::from_str(s).ok()
}

/// `serde_json::to_vec`: the text of a value, which is named; every value has one.
#[verifier::external_body]
fn write_json(v: &serde_json::Value) -> (r: Option<Vec<u8>>)
    ensures
        match r {
            Some(b) => b@ == json_bytes(*v),
            None => false,
        },
{
    serde_json::to_vec(v).ok()
}

/// `serde_json::Value::is_object`: whether there are fields.
#[verifier::external_body]
fn is_object(v: &serde_json::Value) -> (r: bool)
    ensures
        r == json_fields(*v) is Some,
{
    v.is_object()
}

/// `serde_json::Value::get`: the field of that name, where there are fields and it is one of them.
#[verifier::external_body]
fn get_field<'a>(v: &'a serde_json::Value, key: &str) -> (r: Option<&'a serde_json::Value>)
    ensures
        match r {
            Some(x) => json_fields(*v) is Some && json_fields(*v)->0.contains_key(key@)
                && json_fields(*v)->0[key@] == *x,
            None => json_fields(*v) is None || !json_fields(*v)->0.contains_key(key@),
        },
{
    v.get(key)
}

/// `serde_json::Value::as_str`: the text of a string.
#[verifier::external_body]
fn get_text(v: &serde_json::Value) -> (r: Option<&str>)
    ensures
        match r {
            Some(s) => json_text(*v) == Some(s@),
            None => json_text(*v) is None,
        },
{
    v.as_str()
}

/// `serde_json::Value::clone`: the same value.
#[verifier::external_body]
fn clone_value(v: &serde_json::Value) -> (r: serde_json::Value)
    ensures
        r == *v,
{
    v.clone()
}

/// `serde_json::Value::from` of a text: the string with it.
#[verifier::external_body]
fn string_value(s: &str) -> (r: serde_json::Value)
    ensures
        r == json_string(s@),
        json_text(r) == Some(s@),
{
    serde_json::Value::from(s.to_owned())
}

/// `serde_json::Value::from` of an integer: the number.
#[verifier::external_body]
fn integer_value(n: u64) -> (r: serde_json::Value)
    ensures
        r == json_integer(n),
{
    serde_json::Value::from(n)
}

/// `serde_json::Map::insert`: adds a field to an object, or replaces it; the others stay.
#[verifier::external_body]
fn set_field(v: &mut serde_json::Value, key: &str, field: serde_json::Value)
    requires
        json_fields(*old(v)) is Some,
    ensures
        json_fields(*final(v)) == Some(json_fields(*old(v))->0.insert(key@, field)),
{
    v.as_object_mut().unwrap().insert(key.to_owned(), field);
}

// Updates

/// Why a file with credentials cannot be updated.
#[derive(Clone, Copy, Debug, PartialEq, Eq, Structural)]
pub enum CredentialsError {
    /// It is not JSON.
    Json,
    /// The object with the tokens is missing.
    Section,
}

/// New tokens for a `ClaudeOauth` object.
#[derive(Debug, PartialEq, Eq)]
pub struct ClaudeTokenResponse {
    pub access_token: String,
    pub refresh_token: Option<String>,
    /// Seconds until the access token expires.
    pub expires_in: u64,
}

/// New Codex tokens.
#[derive(Debug, PartialEq, Eq)]
pub struct CodexTokenResponse {
    pub id_token: Option<String>,
    pub access_token: Option<String>,
    pub refresh_token: Option<String>,
}

/// Fields of an object of a file.
pub open spec fn section_of(doc: serde_json::Value, section: Seq<char>) -> Option<
    Map<Seq<char>, serde_json::Value>,
> {
    match json_fields(doc) {
        Some(m) => if m.contains_key(section) {
            json_fields(m[section])
        } else {
            None
        },
        None => None,
    }
}

/// Whether an object holds a token under a name.
pub open spec fn holds_token(
    fields: Map<Seq<char>, serde_json::Value>,
    key: Seq<char>,
    token: Seq<char>,
) -> bool {
    fields.contains_key(key) && json_text(fields[key]) == Some(token)
}

/// An object with a token under a name, where there is one.
pub open spec fn with_token(
    fields: Map<Seq<char>, serde_json::Value>,
    key: Seq<char>,
    token: Option<String>,
) -> Map<Seq<char>, serde_json::Value> {
    match token {
        Some(t) => fields.insert(key, json_string(t@)),
        None => fields,
    }
}

/// A `ClaudeOauth` object with new tokens.
pub open spec fn with_claude_tokens(
    fields: Map<Seq<char>, serde_json::Value>,
    tok: ClaudeTokenResponse,
    now_ms: u64,
) -> Map<Seq<char>, serde_json::Value> {
    with_token(
        fields.insert("accessToken"@, json_string(tok.access_token@)).insert(
            "expiresAt"@,
            json_integer((now_ms + tok.expires_in * 1000) as u64),
        ),
        "refreshToken"@,
        tok.refresh_token,
    )
}

/// A Codex tokens object with new tokens.
pub open spec fn with_codex_tokens(
    fields: Map<Seq<char>, serde_json::Value>,
    tok: CodexTokenResponse,
) -> Map<Seq<char>, serde_json::Value> {
    with_token(
        with_token(
            with_token(fields, "access_token"@, tok.access_token),
            "refresh_token"@,
            tok.refresh_token,
        ),
        "id_token"@,
        tok.id_token,
    )
}

/// Whether a file differs from another in one object alone, which has the given fields.
pub open spec fn with_section(
    doc: serde_json::Value,
    updated: serde_json::Value,
    section: Seq<char>,
    fields: Map<Seq<char>, serde_json::Value>,
) -> bool {
    exists|object: serde_json::Value|
        json_fields(object) == Some(fields) && json_fields(updated) == Some(
            #[trigger] json_fields(doc)->0.insert(section, object),
        )
}

/// What comes of storing tokens in a file, `fields` being those of the object once they are stored:
/// nothing where the file holds another refresh token by now.
pub open spec fn stored(
    data: Seq<char>,
    section: Seq<char>,
    refresh_key: Seq<char>,
    refresh_token: Seq<char>,
    fields: Map<Seq<char>, serde_json::Value>,
    r: Result<Option<Vec<u8>>, CredentialsError>,
) -> bool {
    match json_of(data) {
        None => r == Err::<Option<Vec<u8>>, _>(CredentialsError::Json),
        Some(doc) => match section_of(doc, section) {
            None => r == Err::<Option<Vec<u8>>, _>(CredentialsError::Section),
            Some(m) => if !holds_token(m, refresh_key, refresh_token) {
                r == Ok::<Option<Vec<u8>>, CredentialsError>(None)
            } else {
                exists|updated: serde_json::Value| #[trigger]
                    with_section(doc, updated, section, fields) && (r matches Ok(Some(v)) && v@
                        == json_bytes(updated))
            },
        },
    }
}

/// Whether the object of a file holds a token under a name.
fn section_holds(
    doc: &serde_json::Value,
    section: &str,
    key: &str,
    token: &str,
) -> (r: Result<bool, CredentialsError>)
    ensures
        match section_of(*doc, section@) {
            Some(m) => r == Ok::<bool, CredentialsError>(holds_token(m, key@, token@)),
            None => r == Err::<bool, _>(CredentialsError::Section),
        },
{
    match get_field(doc, section) {
        None => Err(CredentialsError::Section),
        Some(object) => {
            if !is_object(object) {
                return Err(CredentialsError::Section);
            }
            match get_field(object, key) {
                None => Ok(false),
                Some(held) => match get_text(held) {
                    None => Ok(false),
                    Some(t) => Ok(text::same(t, token)),
                },
            }
        },
    }
}

/// Adds a token to an object under a name, where there is one.
fn set_token(v: &mut serde_json::Value, key: &str, token: &Option<String>)
    requires
        json_fields(*old(v)) is Some,
    ensures
        json_fields(*final(v)) == Some(with_token(json_fields(*old(v))->0, key@, *token)),
{
    if let Some(t) = token {
        set_field(v, key, string_value(t.as_str()));
    }
}

/// Whether a file holds a refresh token in one of its objects.
pub open spec fn is_held(
    data: Seq<char>,
    section: Seq<char>,
    refresh_key: Seq<char>,
    refresh_token: Seq<char>,
) -> bool {
    json_of(data) matches Some(doc) && (section_of(doc, section) matches Some(m) && holds_token(
        m,
        refresh_key,
        refresh_token,
    ))
}

/// Whether the time at which new tokens expire can be told.
pub open spec fn expiry_fits(tok: ClaudeTokenResponse, now_ms: u64) -> bool {
    now_ms + tok.expires_in * 1000 <= u64::MAX
}

/// What comes of storing new tokens in credentials.
pub open spec fn claude_stored(
    data: Seq<char>,
    refresh_token: Seq<char>,
    tok: ClaudeTokenResponse,
    now_ms: u64,
    r: Result<Option<Vec<u8>>, CredentialsError>,
) -> bool {
    let m = section_of(json_of(data)->0, "claudeAiOauth"@)->0;
    stored(
        data,
        "claudeAiOauth"@,
        "refreshToken"@,
        refresh_token,
        with_claude_tokens(m, tok, now_ms),
        r,
    )
}

/// The credentials `data` with `tok` stored in them, where `refresh_token` is still the one they
/// hold; nothing where they were refreshed by another writer. The time is in milliseconds from the
/// epoch.
pub fn apply_claude_token(
    data: &str,
    refresh_token: &str,
    tok: &ClaudeTokenResponse,
    now_ms: u64,
) -> (r: Result<Option<Vec<u8>>, CredentialsError>)
    requires
        is_held(data@, "claudeAiOauth"@, "refreshToken"@, refresh_token@) ==> expiry_fits(
            *tok,
            now_ms,
        ),
    ensures
        claude_stored(data@, refresh_token@, *tok, now_ms, r),
{
    let mut doc = match parse_json(data) {
        Some(doc) => doc,
        None => {
            return Err(CredentialsError::Json);
        },
    };
    let ghost before = doc;
    match section_holds(&doc, "claudeAiOauth", "refreshToken", refresh_token) {
        Err(e) => {
            return Err(e);
        },
        Ok(false) => {
            return Ok(None);
        },
        Ok(true) => {},
    }
    let mut oauth = match get_field(&doc, "claudeAiOauth") {
        Some(object) => clone_value(object),
        None => {
            return Err(CredentialsError::Section);
        },
    };
    let ghost m = json_fields(oauth)->0;
    set_field(&mut oauth, "accessToken", string_value(tok.access_token.as_str()));
    set_field(&mut oauth, "expiresAt", integer_value(now_ms + tok.expires_in * 1000));
    set_token(&mut oauth, "refreshToken", &tok.refresh_token);
    let ghost object = oauth;
    set_field(&mut doc, "claudeAiOauth", oauth);
    assert(json_fields(object) == Some(with_claude_tokens(m, *tok, now_ms)));
    assert(with_section(before, doc, "claudeAiOauth"@, with_claude_tokens(m, *tok, now_ms)));
    Ok(write_json(&doc))
}

/// The credentials `data` with `tok` stored in them, as `apply_claude_token` does it; nothing where
/// they would have to tell a time of expiry that cannot be told.
pub fn checked_apply_claude_token(
    data: &str,
    refresh_token: &str,
    tok: &ClaudeTokenResponse,
    now_ms: u64,
) -> (r: Option<Result<Option<Vec<u8>>, CredentialsError>>)
    ensures
        match r {
            Some(x) => claude_stored(data@, refresh_token@, *tok, now_ms, x),
            None => true,
        },
        r is None <==> {
            &&& is_held(data@, "claudeAiOauth"@, "refreshToken"@, refresh_token@)
            &&& !expiry_fits(*tok, now_ms)
        },
{
    let expires_at: u128 = now_ms as u128 + tok.expires_in as u128 * 1000;
    if expires_at > u64::MAX as u128 {
        if let Some(doc) = parse_json(data) {
            if let Ok(true) = section_holds(&doc, "claudeAiOauth", "refreshToken", refresh_token) {
                return None;
            }
        }
    }
    Some(apply_claude_token(data, refresh_token, tok, now_ms))
}

/// The auth file `data` with `tok` stored in it, where `refresh_token` is still the one it holds;
/// nothing where it was replaced by another writer.
pub fn apply_chatgpt_token(data: &str, refresh_token: &str, tok: &CodexTokenResponse) -> (r: Result<
    Option<Vec<u8>>,
    CredentialsError,
>)
    ensures
        ({
            let m = section_of(json_of(data@)->0, "tokens"@)->0;
            stored(
                data@,
                "tokens"@,
                "refresh_token"@,
                refresh_token@,
                with_codex_tokens(m, *tok),
                r,
            )
        }),
{
    let mut doc = match parse_json(data) {
        Some(doc) => doc,
        None => {
            return Err(CredentialsError::Json);
        },
    };
    let ghost before = doc;
    match section_holds(&doc, "tokens", "refresh_token", refresh_token) {
        Err(e) => {
            return Err(e);
        },
        Ok(false) => {
            return Ok(None);
        },
        Ok(true) => {},
    }
    let mut tokens = match get_field(&doc, "tokens") {
        Some(object) => clone_value(object),
        None => {
            return Err(CredentialsError::Section);
        },
    };
    let ghost m = json_fields(tokens)->0;
    set_token(&mut tokens, "access_token", &tok.access_token);
    set_token(&mut tokens, "refresh_token", &tok.refresh_token);
    set_token(&mut tokens, "id_token", &tok.id_token);
    let ghost object = tokens;
    set_field(&mut doc, "tokens", tokens);
    assert(json_fields(object) == Some(with_codex_tokens(m, *tok)));
    assert(with_section(before, doc, "tokens"@, with_codex_tokens(m, *tok)));
    Ok(write_json(&doc))
}

/// Everything that a file holds beside the object with the tokens survives an update of it.
pub proof fn other_sections_survive(
    doc: serde_json::Value,
    updated: serde_json::Value,
    section: Seq<char>,
    fields: Map<Seq<char>, serde_json::Value>,
    other: Seq<char>,
)
    requires
        json_fields(doc) is Some,
        with_section(doc, updated, section, fields),
        other != section,
    ensures
        json_fields(updated) is Some,
        json_fields(updated)->0.contains_key(other) == json_fields(doc)->0.contains_key(other),
        json_fields(doc)->0.contains_key(other) ==> json_fields(updated)->0[other] == json_fields(
            doc,
        )->0[other],
{
}

/// The object of a file has the given fields after an update.
pub proof fn the_section_is_updated(
    doc: serde_json::Value,
    updated: serde_json::Value,
    section: Seq<char>,
    fields: Map<Seq<char>, serde_json::Value>,
)
    requires
        with_section(doc, updated, section, fields),
    ensures
        section_of(updated, section) == Some(fields),
{
}

/// Everything that a `ClaudeOauth` object holds beside the tokens survives a refresh.
pub proof fn other_claude_fields_survive(
    fields: Map<Seq<char>, serde_json::Value>,
    tok: ClaudeTokenResponse,
    now_ms: u64,
    key: Seq<char>,
)
    requires
        key != "accessToken"@,
        key != "expiresAt"@,
        key != "refreshToken"@ || tok.refresh_token is None,
    ensures
        with_claude_tokens(fields, tok, now_ms).contains_key(key) == fields.contains_key(key),
        fields.contains_key(key) ==> with_claude_tokens(fields, tok, now_ms)[key] == fields[key],
{
}

/// Everything that a Codex tokens object holds beside the tokens of a response survives a refresh.
pub proof fn other_codex_fields_survive(
    fields: Map<Seq<char>, serde_json::Value>,
    tok: CodexTokenResponse,
    key: Seq<char>,
)
    requires
        key != "access_token"@ || tok.access_token is None,
        key != "refresh_token"@ || tok.refresh_token is None,
        key != "id_token"@ || tok.id_token is None,
    ensures
        with_codex_tokens(fields, tok).contains_key(key) == fields.contains_key(key),
        fields.contains_key(key) ==> with_codex_tokens(fields, tok)[key] == fields[key],
{
}

// Requests

/// Fields read from a credentials file.
#[derive(Debug, PartialEq, Eq)]
pub struct ClaudeOauth {
    pub access_token: String,
    pub refresh_token: String,
    pub scopes: Vec<String>,
    /// OAuth client the tokens were minted by, absent for the built-in one.
    pub client_id: Option<String>,
}

/// Request for new tokens for a `ClaudeOauth` object.
#[derive(Debug, PartialEq, Eq)]
pub struct ClaudeTokenRequest {
    pub grant_type: String,
    pub refresh_token: String,
    pub client_id: String,
    pub scope: String,
}

/// Builds the refresh request that credentials call for.
///
/// The refresh token is bound to the client that minted it, which the credentials name when it is
/// not the built-in one.
pub fn claude_token_request(oauth: ClaudeOauth) -> (r: ClaudeTokenRequest)
    ensures
        r.grant_type@ == "refresh_token"@,
        r.refresh_token@ == oauth.refresh_token@,
        r.client_id@ == match oauth.client_id {
            Some(id) => id@,
            None => CLAUDE_OAUTH_CLIENT_ID@,
        },
        r.scope@ == text::joined(text::texts(oauth.scopes@), " "@),
{
    let scope = text::join(&oauth.scopes, " ");
    let client_id = match oauth.client_id {
        Some(id) => id,
        None => CLAUDE_OAUTH_CLIENT_ID.to_owned(),
    };
    ClaudeTokenRequest {
        grant_type: "refresh_token".to_owned(),
        refresh_token: oauth.refresh_token,
        client_id,
        scope,
    }
}

/// Request for new Codex tokens.
#[derive(Debug, PartialEq, Eq)]
pub struct CodexTokenRequest {
    pub client_id: String,
    pub grant_type: String,
    pub refresh_token: String,
}

/// Builds the refresh request for a Codex refresh token.
pub fn codex_token_request(refresh_token: &str) -> (r: CodexTokenRequest)
    ensures
        r.client_id@ == CODEX_OAUTH_CLIENT_ID@,
        r.grant_type@ == "refresh_token"@,
        r.refresh_token@ == refresh_token@,
{
    CodexTokenRequest {
        client_id: CODEX_OAUTH_CLIENT_ID.to_owned(),
        grant_type: "refresh_token".to_owned(),
        refresh_token: refresh_token.to_owned(),
    }
}

/// Where new tokens for a `ClaudeOauth` object are requested, `name` being that of the provider.
pub fn claude_token_url(name: &str) -> (r: String)
    ensures
        r@ == "https://platform."@ + name@ + ".com/v1/oauth/token"@,
{
    let mut r = "https://platform.".to_owned();
    r.append(name);
    r.append(".com/v1/oauth/token");
    r
}

/// Value of the header that hands an access token over.
pub fn bearer(access_token: &str) -> (r: String)
    ensures
        r@ == "Bearer "@ + access_token@,
{
    let mut r = "Bearer ".to_owned();
    r.append(access_token);
    r
}

// Windows

/// A rate limit window as the ChatGPT backend reports it.
#[derive(Clone, Copy, Debug, PartialEq, Eq, Structural)]
pub struct ReportedWindow {
    /// Duration of the window.
    pub limit_window_seconds: u64,
    pub usage: UsageWindow,
}

/// Windows of different durations come out in the same order, whichever of them is the primary one;
/// there is one for each that is active, and nothing of it is lost.
pub proof fn windows_are_ordered_by_duration(
    primary: Option<ReportedWindow>,
    secondary: Option<ReportedWindow>,
)
    ensures
        match (primary, secondary) {
            (Some(p), Some(s)) => p.limit_window_seconds != s.limit_window_seconds ==> ordered(
                primary,
                secondary,
            ) == ordered(secondary, primary),
            _ => ordered(primary, secondary) == ordered(secondary, primary),
        },
        ordered(primary, secondary).len() == (if primary is Some {
            1int
        } else {
            0
        }) + (if secondary is Some {
            1int
        } else {
            0
        }),
        primary matches Some(p) ==> ordered(primary, secondary).contains(p.usage),
        secondary matches Some(s) ==> ordered(primary, secondary).contains(s.usage),
{
    let r = ordered(primary, secondary);
    match (primary, secondary) {
        (Some(p), Some(s)) => {
            if s.limit_window_seconds < p.limit_window_seconds {
                assert(r[0] == s.usage && r[1] == p.usage);
            } else {
                assert(r[0] == p.usage && r[1] == s.usage);
            }
        },
        (Some(p), None) => {
            assert(r[0] == p.usage);
        },
        (None, Some(s)) => {
            assert(r[0] == s.usage);
        },
        (None, None) => {},
    }
}

/// The windows that are active, ordered by increasing duration.
pub open spec fn ordered(
    primary: Option<ReportedWindow>,
    secondary: Option<ReportedWindow>,
) -> Seq<UsageWindow> {
    match (primary, secondary) {
        (Some(p), Some(s)) => if s.limit_window_seconds < p.limit_window_seconds {
            seq![s.usage, p.usage]
        } else {
            seq![p.usage, s.usage]
        },
        (Some(p), None) => seq![p.usage],
        (None, Some(s)) => seq![s.usage],
        (None, None) => Seq::empty(),
    }
}

/// Each active rate limit window, ordered by increasing window duration.
pub fn extract_chatgpt_windows(
    primary: Option<ReportedWindow>,
    secondary: Option<ReportedWindow>,
) -> (r: Vec<UsageWindow>)
    ensures
        r@ == ordered(primary, secondary),
{
    let mut r: Vec<UsageWindow> = Vec::new();
    match (primary, secondary) {
        (Some(p), Some(s)) => {
            if s.limit_window_seconds < p.limit_window_seconds {
                r.push(s.usage);
                r.push(p.usage);
            } else {
                r.push(p.usage);
                r.push(s.usage);
            }
        },
        (Some(p), None) => {
            r.push(p.usage);
        },
        (None, Some(s)) => {
            r.push(s.usage);
        },
        (None, None) => {},
    }
    assert(r@ =~= ordered(primary, secondary));
    r
}

// Files

/// A text with the characters that a glob pattern gives a meaning in brackets.
pub open spec fn glob_escaped(s: Seq<char>) -> Seq<char>
    decreases s.len(),
{
    if s.len() == 0 {
        s
    } else {
        let before = glob_escaped(s.drop_last());
        let c = s.last();
        if c == '?' || c == '*' || c == '[' || c == ']' {
            before.push('[').push(c).push(']')
        } else {
            before.push(c)
        }
    }
}

/// `glob::Pattern::escape`: each of `?`, `*`, `[` and `]` is put in brackets.
#[verifier::external_body]
fn escape_glob(s: &str) -> (r: String)
    ensures
        r@ == glob_escaped(s@),
{
    glob::Pattern::escape(s)
}

/// Pattern of the files of the extra accounts. The home directory is escaped, it would otherwise be
/// a glob pattern of its own.
pub fn extra_account_pattern(home: &str, prefix: &str) -> (r: String)
    ensures
        r@ == glob_escaped(home@) + "/"@ + prefix@ + "-*.json"@,
{
    let mut r = escape_glob(home);
    r.append("/");
    r.append(prefix);
    r.append("-*.json");
    r
}

/// The `<prefix>.json` file of the default account, followed by the files found of the extra ones.
///
/// The default path is listed whether it exists or not.
pub fn account_paths(home: &str, prefix: &str, extra: Vec<String>) -> (r: Vec<String>)
    ensures
        text::texts(r@) == seq![home@ + "/"@ + prefix@ + ".json"@] + text::texts(extra@),
{
    let mut default = home.to_owned();
    default.append("/");
    default.append(prefix);
    default.append(".json");
    let mut r: Vec<String> = Vec::new();
    let ghost found = extra@;
    let mut extra = extra;
    r.push(default);
    r.append(&mut extra);
    assert(text::texts(r@) =~= seq![home@ + "/"@ + prefix@ + ".json"@] + text::texts(found));
    r
}

/// The window of the shorter duration comes first.
pub proof fn the_shorter_window_comes_first(p: ReportedWindow, s: ReportedWindow)
    ensures
        p.limit_window_seconds < s.limit_window_seconds ==> ordered(Some(p), Some(s)) == seq![
            p.usage,
            s.usage,
        ] && ordered(Some(s), Some(p)) == seq![p.usage, s.usage],
        p.limit_window_seconds == s.limit_window_seconds ==> ordered(Some(p), Some(s)) == seq![
            p.usage,
            s.usage,
        ],
        ordered(Some(p), None) == seq![p.usage],
        ordered(None, Some(s)) == seq![s.usage],
        ordered(None, None) == Seq::<UsageWindow>::empty(),
{
}

/// The new tokens are stored under their names, with the time at which they expire; a refresh token
/// that did not come is kept.
pub proof fn new_tokens_are_stored(
    fields: Map<Seq<char>, serde_json::Value>,
    tok: ClaudeTokenResponse,
    now_ms: u64,
)
    requires
        now_ms + tok.expires_in * 1000 <= u64::MAX,
    ensures
        ({
            let after = with_claude_tokens(fields, tok, now_ms);
            &&& after.contains_key("accessToken"@) && after["accessToken"@] == json_string(
                tok.access_token@,
            )
            &&& after.contains_key("expiresAt"@) && after["expiresAt"@] == json_integer(
                (now_ms + 1000 * tok.expires_in) as u64,
            )
            &&& tok.refresh_token matches Some(t) ==> after.contains_key("refreshToken"@)
                && after["refreshToken"@] == json_string(t@)
        }),
{
    reveal_strlit("accessToken");
    reveal_strlit("expiresAt");
    reveal_strlit("refreshToken");
    assert("accessToken"@[0] == 'a' && "expiresAt"@[0] == 'e' && "refreshToken"@[0] == 'r');
}

/// Each of the new tokens that came is stored under its name.
pub proof fn new_codex_tokens_are_stored(
    fields: Map<Seq<char>, serde_json::Value>,
    tok: CodexTokenResponse,
)
    ensures
        ({
            let after = with_codex_tokens(fields, tok);
            &&& tok.access_token matches Some(t) ==> after.contains_key("access_token"@)
                && after["access_token"@] == json_string(t@)
            &&& tok.refresh_token matches Some(t) ==> after.contains_key("refresh_token"@)
                && after["refresh_token"@] == json_string(t@)
            &&& tok.id_token matches Some(t) ==> after.contains_key("id_token"@)
                && after["id_token"@] == json_string(t@)
        }),
{
    reveal_strlit("access_token");
    reveal_strlit("refresh_token");
    reveal_strlit("id_token");
    assert("access_token"@[0] == 'a' && "refresh_token"@[0] == 'r' && "id_token"@[0] == 'i');
}

/// A file is written anew exactly if it still holds the refresh token that was used, and then its
/// object has the new fields; it is an error exactly if it is not JSON or lacks the object.
pub proof fn only_the_used_token_is_replaced(
    data: Seq<char>,
    section: Seq<char>,
    refresh_key: Seq<char>,
    refresh_token: Seq<char>,
    fields: Map<Seq<char>, serde_json::Value>,
    r: Result<Option<Vec<u8>>, CredentialsError>,
)
    requires
        stored(data, section, refresh_key, refresh_token, fields, r),
    ensures
        r is Ok && r->Ok_0 is Some <==> is_held(data, section, refresh_key, refresh_token),
        r == Err::<Option<Vec<u8>>, _>(CredentialsError::Json) <==> json_of(data) is None,
        r == Err::<Option<Vec<u8>>, _>(CredentialsError::Section) <==> (json_of(data) matches Some(
            doc,
        ) && section_of(doc, section) is None),
        r matches Ok(Some(v)) ==> exists|updated: serde_json::Value|
            v@ == #[trigger] json_bytes(updated) && section_of(updated, section) == Some(fields),
        is_held(data, section, refresh_key, refresh_token) ==> (json_of(data) matches Some(doc) && (
        json_fields(doc) matches Some(m) && m.contains_key(section) && (json_fields(m[section])
            matches Some(n) && n.contains_key(refresh_key) && json_text(n[refresh_key]) == Some(
            refresh_token,
        )))),
{
    if is_held(data, section, refresh_key, refresh_token) {
        let doc = json_of(data)->0;
        let updated = choose|updated: serde_json::Value| #[trigger]
            with_section(doc, updated, section, fields) && (r matches Ok(Some(v)) && v@
                == json_bytes(updated));
        the_section_is_updated(doc, updated, section, fields);
        assert(r->Ok_0->0@ == json_bytes(updated));
    }
}

/// The characters that a pattern gives a meaning are put in brackets, one by one, and no others.
pub proof fn special_characters_are_bracketed(a: Seq<char>, b: Seq<char>, c: char)
    ensures
        glob_escaped(a + b) == glob_escaped(a) + glob_escaped(b),
        c == '?' || c == '*' || c == '[' || c == ']' ==> glob_escaped(seq![c]) == seq!['[', c, ']'],
        c != '?' && c != '*' && c != '[' && c != ']' ==> glob_escaped(seq![c]) == seq![c],
    decreases b.len(),
{
    reveal_with_fuel(glob_escaped, 2);
    let e = Seq::<char>::empty();
    assert(seq![c].drop_last() =~= e);
    assert(e.push('[').push(c).push(']') =~= seq!['[', c, ']']);
    assert(e.push(c) =~= seq![c]);
    if b.len() == 0 {
        assert(a + b =~= a);
        assert(glob_escaped(a) + glob_escaped(b) =~= glob_escaped(a));
    } else {
        special_characters_are_bracketed(a, b.drop_last(), c);
        assert((a + b).drop_last() =~= a + b.drop_last());
        assert(glob_escaped(a + b) =~= glob_escaped(a) + glob_escaped(b));
    }
}

}
