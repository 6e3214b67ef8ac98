//! Usage of inference providers.

use polybar_modules::double::Double;
use polybar_modules::markup::{Markup, PolybarActionType};
use polybar_modules::polybar_module::inference_usage::accounts::{
    Accounts, ClaudeAccount, RateLimitBackoff, RATE_LIMIT_MAX_DELAY_SECS, RATE_LIMIT_MIN_DELAY_SECS,
};
use polybar_modules::polybar_module::inference_usage::credentials::{
    account_paths, apply_chatgpt_token, apply_claude_token, bearer, checked_apply_claude_token, claude_token_request,
    claude_token_url, codex_token_request, extra_account_pattern, extract_chatgpt_windows,
    ClaudeOauth, ClaudeTokenRequest, ClaudeTokenResponse, CodexTokenResponse, CredentialsError,
    ReportedWindow, CLAUDE_OAUTH_CLIENT_ID, CODEX_OAUTH_CLIENT_ID,
};
use polybar_modules::polybar_module::inference_usage::lock::{
    release, ClaudeLockAttempt, ClaudeLockParams, Creation, LockStep, Release,
};
use polybar_modules::polybar_module::inference_usage::{
    Attempt, ClaudeUsageStatus, InferenceUsageModule, InferenceUsageModuleState,
    ProviderFetchError, UsageWindow, CHATGPT_USAGE_URL, DEGRADED_HOLD_NANOS,
    DEGRADED_MIN_DELAY_NANOS, ICON_CHATGPT, ICON_CLAUDE, ICON_INFERENCE_USAGE, ICON_UNAUTHORIZED,
    UPDATE_INTERVAL_NANOS,
};
use polybar_modules::polybar_module::RenderablePolybarModule;
use polybar_modules::theme::{Color, ICON_WARNING};

const SECOND: i128 = 1_000_000_000;

/// Some time in nanoseconds from the epoch.
const NOW: i128 = 1_778_778_600 * SECOND;

fn double(x: f64) -> Double {
    Double::from_bits(x.to_bits())
}

fn module() -> InferenceUsageModule {
    InferenceUsageModule::new("/home/user", "acme")
}

fn usage_window(quota_left_pct: f64, time_left_frac: f64) -> UsageWindow {
    UsageWindow {
        quota_left_pct: double(quota_left_pct),
        time_left_frac: Some(double(time_left_frac)),
    }
}

fn complete_state() -> InferenceUsageModuleState {
    InferenceUsageModuleState {
        claude_statuses: vec![ClaudeUsageStatus::Available {
            h5: usage_window(50.0, 0.5),
            d7: usage_window(50.0, 0.5),
        }],
        chatgpt_statuses: vec![Some(vec![usage_window(50.0, 0.5)])],
    }
}

fn degraded_state() -> InferenceUsageModuleState {
    InferenceUsageModuleState {
        claude_statuses: vec![ClaudeUsageStatus::Error],
        chatgpt_statuses: vec![None],
    }
}

fn json(s: &str) -> serde_json::Value {
    serde_json::from_str(s).unwrap()
}

fn json_of(bytes: &[u8]) -> serde_json::Value {
    serde_json::from_slice(bytes).unwrap()
}

/// Credentials containing fields unknown to the library.
fn claude_credentials(access_token: &str, refresh_token: &str, expires_at: u64) -> serde_json::Value {
    json(&format!(
        r#"{{
            "claudeAiOauth": {{
                "accessToken": "{access_token}",
                "refreshToken": "{refresh_token}",
                "expiresAt": {expires_at},
                "refreshTokenExpiresAt": 1800000000000,
                "scopes": ["user:inference", "user:profile"],
                "subscriptionType": "max",
                "rateLimitTier": "default_max",
                "clientId": "00000000-0000-4000-8000-000000000000"
            }},
            "someFutureKey": {{"nested": [1, 2]}}
        }}"#
    ))
}

fn claude_token_response() -> ClaudeTokenResponse {
    ClaudeTokenResponse {
        access_token: "new-access".to_owned(),
        refresh_token: Some("new-refresh".to_owned()),
        expires_in: 3600,
    }
}

fn oauth(client_id: Option<&str>) -> ClaudeOauth {
    ClaudeOauth {
        access_token: "old-access".to_owned(),
        refresh_token: "old-refresh".to_owned(),
        scopes: vec!["user:inference".to_owned(), "user:profile".to_owned()],
        client_id: client_id.map(str::to_owned),
    }
}

#[test]
fn test_claude_token_request() {
    // A refresh token is bound to the client that minted it, which the credentials name
    assert_eq!(
        claude_token_request(oauth(Some("00000000-0000-4000-8000-000000000000"))),
        ClaudeTokenRequest {
            grant_type: "refresh_token".to_owned(),
            refresh_token: "old-refresh".to_owned(),
            client_id: "00000000-0000-4000-8000-000000000000".to_owned(),
            scope: "user:inference user:profile".to_owned(),
        }
    );
    // Credentials minted by the built-in client name none
    assert_eq!(
        claude_token_request(oauth(None)).client_id,
        CLAUDE_OAUTH_CLIENT_ID
    );
}

#[test]
fn test_apply_claude_token() {
    let now_ms = 1_778_778_600_000;
    let data = claude_credentials("old-access", "old-refresh", 1).to_string();
    let written = apply_claude_token(&data, "old-refresh", &claude_token_response(), now_ms)
        .unwrap()
        .unwrap();
    let expires_at = now_ms + 3_600_000;
    // Everything the file holds survives the refresh, known to us or not
    assert_eq!(
        json_of(&written),
        claude_credentials("new-access", "new-refresh", expires_at)
    );

    // A response rotating nothing leaves the stored refresh token in place
    let data = String::from_utf8(written).unwrap();
    let written = apply_claude_token(
        &data,
        "new-refresh",
        &ClaudeTokenResponse {
            access_token: "newer-access".to_owned(),
            refresh_token: None,
            expires_in: 3600,
        },
        now_ms,
    )
    .unwrap()
    .unwrap();
    assert_eq!(
        json_of(&written),
        claude_credentials("newer-access", "new-refresh", expires_at)
    );
}

#[test]
fn test_apply_claude_token_discards_response_of_a_rotated_token() {
    // Another writer refreshed the credentials while our own request was in flight
    let data = claude_credentials("other-access", "other-refresh", 2).to_string();
    assert_eq!(
        apply_claude_token(&data, "old-refresh", &claude_token_response(), 0),
        Ok(None)
    );
}

#[test]
fn credentials_without_tokens_cannot_be_updated() {
    let tok = claude_token_response();
    for (data, expected) in [
        ("{", CredentialsError::Json),
        ("[]", CredentialsError::Section),
        ("{}", CredentialsError::Section),
        (r#"{"claudeAiOauth": "text"}"#, CredentialsError::Section),
    ] {
        assert_eq!(apply_claude_token(data, "r", &tok, 0), Err(expected));
    }
    for (data, expected) in [
        ("nothing", CredentialsError::Json),
        ("3", CredentialsError::Section),
        (r#"{"tokens": null}"#, CredentialsError::Section),
    ] {
        assert_eq!(apply_chatgpt_token(data, "r", &codex_token_response()), Err(expected));
    }
    // A refresh token that is no text is not the one that was used
    assert_eq!(
        apply_claude_token(r#"{"claudeAiOauth": {"refreshToken": 3}}"#, "3", &tok, 0),
        Ok(None)
    );
    assert_eq!(
        apply_claude_token(r#"{"claudeAiOauth": {}}"#, "", &tok, 0),
        Ok(None)
    );
}

/// Auth file containing fields unknown to the library.
fn codex_auth(access_token: &str, refresh_token: &str, id_token: &str) -> serde_json::Value {
    json(&format!(
        r#"{{
            "OPENAI_API_KEY": null,
            "tokens": {{
                "id_token": "{id_token}",
                "access_token": "{access_token}",
                "refresh_token": "{refresh_token}",
                "account_id": "00000000-0000-4000-8000-000000000000"
            }},
            "last_refresh": "2026-05-14T17:10:00.000Z",
            "someFutureKey": {{"nested": [1, 2]}}
        }}"#
    ))
}

fn codex_token_response() -> CodexTokenResponse {
    CodexTokenResponse {
        id_token: Some("new.id.token".to_owned()),
        access_token: Some("new-access".to_owned()),
        refresh_token: Some("new-refresh".to_owned()),
    }
}

#[test]
fn test_apply_chatgpt_token() {
    let data = codex_auth("old-access", "old-refresh", "header.payload.signature").to_string();
    let written = apply_chatgpt_token(&data, "old-refresh", &codex_token_response())
        .unwrap()
        .unwrap();
    // Everything the file holds survives the refresh, known to us or not
    assert_eq!(
        json_of(&written),
        codex_auth("new-access", "new-refresh", "new.id.token")
    );

    // A response rotating nothing leaves the stored refresh and id tokens in place
    let data = String::from_utf8(written).unwrap();
    let written = apply_chatgpt_token(
        &data,
        "new-refresh",
        &CodexTokenResponse {
            id_token: None,
            access_token: Some("newer-access".to_owned()),
            refresh_token: None,
        },
    )
    .unwrap()
    .unwrap();
    assert_eq!(
        json_of(&written),
        codex_auth("newer-access", "new-refresh", "new.id.token")
    );
}

#[test]
fn test_apply_chatgpt_token_discards_response_of_a_rotated_token() {
    // A login replaced the auth file while our own request was in flight
    let data = codex_auth("other-access", "other-refresh", "header.payload.signature").to_string();
    assert_eq!(
        apply_chatgpt_token(&data, "old-refresh", &codex_token_response()),
        Ok(None)
    );
}

#[test]
fn requests_hand_the_tokens_over() {
    assert_eq!(bearer("abc"), "Bearer abc");
    assert_eq!(claude_token_url("acme"), "https://platform.acme.com/v1/oauth/token");
    let request = codex_token_request("old-refresh");
    assert_eq!(request.client_id, CODEX_OAUTH_CLIENT_ID);
    assert_eq!(request.grant_type, "refresh_token");
    assert_eq!(request.refresh_token, "old-refresh");
}

#[test]
fn test_claude_lock_waits_for_its_holder() {
    let params = ClaudeLockParams::storage();
    assert_eq!(params.dir, ".storage-write.lock");
    let mut attempt = ClaudeLockAttempt::new();
    // The lock is waited out rather than written through
    for _ in 0..10 {
        let step = attempt.on_create(Creation::Exists(Some(0)), params.stale);
        assert!(matches!(step, LockStep::Wait(100_000_000..=1_000_000_000)));
    }
    assert_eq!(attempt.on_create(Creation::Exists(Some(0)), params.stale), LockStep::Busy);

    let mut attempt = ClaudeLockAttempt::new();
    assert_eq!(
        attempt.on_create(Creation::Exists(None), params.stale),
        LockStep::Wait(100_000_000)
    );
    assert_eq!(attempt.on_create(Creation::Created, params.stale), LockStep::Held);
    assert_eq!(attempt.on_create(Creation::Failed, params.stale), LockStep::Fail);
}

#[test]
fn test_claude_lock_leaves_a_taken_over_lock_alone() {
    assert_eq!(release(17, Some(17)), Release::Remove);
    assert_eq!(release(17, Some(18)), Release::Leave);
    assert_eq!(release(17, None), Release::Unknown);
}

#[test]
fn test_claude_lock_steals_abandoned_lock() {
    let params = ClaudeLockParams::storage();
    let abandoned = Creation::Exists(Some(params.stale + 1));
    let mut attempt = ClaudeLockAttempt::new();
    assert_eq!(attempt.on_create(abandoned, params.stale), LockStep::Steal);
    // Steals at most once
    assert_eq!(attempt.on_create(abandoned, params.stale), LockStep::Wait(100_000_000));

    let mut attempt = ClaudeLockAttempt::new();
    let fresh = Creation::Exists(Some(params.stale));
    assert_eq!(attempt.on_create(fresh, params.stale), LockStep::Wait(100_000_000));
    assert!(ClaudeLockAttempt::stale(Some(16), 15));
    assert!(!ClaudeLockAttempt::stale(None, 15));
    assert_eq!(ClaudeLockParams::refresh().heartbeat, Some(5_000_000_000));
}

#[test]
fn test_account_paths() {
    // A provider with no credentials file at all still has its default account
    assert_eq!(
        account_paths("/home/user", ".credentials", vec![]),
        vec!["/home/user/.credentials.json".to_owned()]
    );
    // Default first, extra accounts after it
    assert_eq!(
        account_paths(
            "/home/user",
            ".credentials",
            vec![
                "/home/user/.credentials-perso.json".to_owned(),
                "/home/user/.credentials-work.json".to_owned(),
            ]
        ),
        vec![
            "/home/user/.credentials.json".to_owned(),
            "/home/user/.credentials-perso.json".to_owned(),
            "/home/user/.credentials-work.json".to_owned(),
        ]
    );
    let pattern = extra_account_pattern("/home/[user]*?", module().claude_token_prefix().as_str());
    assert_eq!(
        pattern,
        "/home/[[]user[]][*][?]/.config/acme/.credentials-*.json"
    );
    let pattern = glob::Pattern::new(&pattern).unwrap();
    assert!(pattern.matches("/home/[user]*?/.config/acme/.credentials-work.json"));
    assert!(!pattern.matches("/home/u*?/.config/acme/.credentials-work.json"));
    assert!(!pattern.matches("/home/[user]*?/.config/acme/.credentials.json"));
}

#[test]
fn test_claude_state_is_per_account() {
    let mut module = module();
    let failed = Some(7);
    let auth_failed: Result<(UsageWindow, UsageWindow), _> = Err(ProviderFetchError::AuthInvalid);
    assert_eq!(
        module.settle_claude("failed.json", auth_failed, failed, NOW),
        ClaudeUsageStatus::AuthInvalid
    );
    assert_eq!(
        module.settle_claude("limited.json", Err(ProviderFetchError::RateLimited), None, NOW),
        ClaudeUsageStatus::Error
    );

    // A skipped account leaves the others alone
    assert_eq!(
        module.claude_skip("failed.json", failed, NOW),
        Some(ClaudeUsageStatus::AuthInvalid)
    );
    assert_eq!(module.claude_skip("failed.json", Some(8), NOW), None);
    assert_eq!(module.claude_skip("failed.json", None, NOW), None);
    assert_eq!(
        module.claude_skip("limited.json", None, NOW),
        Some(ClaudeUsageStatus::Error)
    );
    assert_eq!(module.claude_skip("limited.json", None, NOW + 7201 * SECOND), None);
    assert_eq!(module.claude_skip("other.json", failed, NOW), None);
    assert_eq!(
        module.settle_claude("other.json", Err(ProviderFetchError::Other), None, NOW),
        ClaudeUsageStatus::Error
    );
    assert!(module.claude_accounts.position("other.json").is_some());

    // An account that answers is forgiven
    let h5 = usage_window(50.0, 0.5);
    let d7 = usage_window(60.0, 0.5);
    assert_eq!(
        module.settle_claude("limited.json", Ok((h5, d7)), None, NOW),
        ClaudeUsageStatus::Available { h5, d7 }
    );
    assert_eq!(module.claude_skip("limited.json", None, NOW), None);
}

#[test]
fn test_chatgpt_state_is_per_account() {
    let mut module = module();
    assert_eq!(
        module.settle_chatgpt("limited.json", Err(ProviderFetchError::RateLimited), NOW),
        None
    );
    assert!(module.chatgpt_skip("limited.json", NOW));
    assert!(!module.chatgpt_skip("limited.json", NOW + 7201 * SECOND));

    // A skipped account leaves the others alone, which an entry of their own attests
    assert!(!module.chatgpt_skip("other.json", NOW));
    assert_eq!(
        module.settle_chatgpt("other.json", Err(ProviderFetchError::AuthInvalid), NOW),
        None
    );
    assert!(module.chatgpt_accounts.position("other.json").is_some());

    // No window at all is no usage
    assert_eq!(module.settle_chatgpt("limited.json", Ok(vec![]), NOW), None);
    assert!(!module.chatgpt_skip("limited.json", NOW));
    let windows = vec![usage_window(50.0, 0.5)];
    assert_eq!(
        module.settle_chatgpt("limited.json", Ok(windows.clone()), NOW),
        Some(windows)
    );
}

#[test]
fn test_update_discovers_accounts_and_prunes_deleted() {
    let mut module = module();
    let limited: Result<(UsageWindow, UsageWindow), _> = Err(ProviderFetchError::RateLimited);
    for path in ["work.json", "deleted.json"] {
        module.settle_claude(path, limited, None, NOW);
        module.settle_chatgpt(path, Err(ProviderFetchError::RateLimited), NOW);
    }
    let paths = vec!["default.json".to_owned(), "work.json".to_owned()];
    module.retain_claude_accounts(&paths);
    module.retain_chatgpt_accounts(&paths);
    // A deleted credentials file takes its state with it
    assert!(module.claude_accounts.position("deleted.json").is_none());
    assert!(module.chatgpt_accounts.position("deleted.json").is_none());
    assert_eq!(module.claude_accounts.entries.len(), 1);
    // A live one keeps its backoff, which no update of its own would set back
    assert!(module.claude_accounts.position("work.json").is_some());
    assert!(module.rate_limited_at(NOW));
    assert!(!module.rate_limited_at(NOW + 7201 * SECOND));
    let state = degraded_state();
    assert_eq!(module.conclude(state, NOW, NOW), degraded_state());
}

#[test]
fn accounts_are_found_by_path() {
    let mut accounts: Accounts<u8> = Accounts::new();
    assert_eq!(accounts.entry("a", 1), 0);
    assert_eq!(accounts.entry("b", 2), 1);
    assert_eq!(accounts.entry("a", 3), 0);
    assert_eq!(accounts.entries[0].1, 1);
    accounts.retain(&vec!["b".to_owned(), "c".to_owned()]);
    assert_eq!(accounts.entries, vec![("b".to_owned(), 2)]);
    assert_eq!(accounts.position("a"), None);
    assert!(ClaudeAccount::new().auth_failed_mtime.is_none());
}

#[test]
fn an_update_refreshes_at_most_once() {
    // Accepted at once
    let mut attempt: Attempt<u8> = Attempt::new(Some(1));
    assert!(!attempt.on_fetched(Ok(5)));
    assert_eq!(attempt.outcome, Some(Ok(5)));

    // Not accepted, refreshed, and still not accepted
    let mut attempt: Attempt<u8> = Attempt::new(Some(1));
    assert!(attempt.on_fetched(Err(ProviderFetchError::AuthInvalid)));
    assert_eq!(attempt.outcome, None);
    assert!(attempt.on_refreshed(Ok(()), Some(2)));
    assert!(!attempt.on_fetched(Err(ProviderFetchError::AuthInvalid)));
    assert_eq!(attempt.outcome, Some(Err(ProviderFetchError::AuthInvalid)));
    assert_eq!(attempt.tried_mtime, Some(2));

    // A failed refresh is what came out
    let mut attempt: Attempt<u8> = Attempt::new(Some(1));
    assert!(attempt.on_fetched(Err(ProviderFetchError::AuthInvalid)));
    assert!(!attempt.on_refreshed(Err(ProviderFetchError::RateLimited), Some(2)));
    assert_eq!(attempt.outcome, Some(Err(ProviderFetchError::RateLimited)));
    assert_eq!(attempt.tried_mtime, Some(1));

    // Other failures are not worth a refresh
    let mut attempt: Attempt<u8> = Attempt::new(None);
    assert!(!attempt.on_fetched(Err(ProviderFetchError::Other)));
    assert_eq!(attempt.outcome, Some(Err(ProviderFetchError::Other)));
}

#[test]
fn test_render_quota() {
    for (quota_left_pct, expected) in [
        (0.0, "%{F#d56500}\u{f05d6}%{F-}"),
        (1.0, "%{F#d56500}\u{f0a9e}%{F-}"),
        (5.0, "%{F#d56500}\u{f0a9e}%{F-}"),
        (10.0, "%{F#ac8300}\u{f0a9e}%{F-}"),
        (20.0, "%{F#ac8300}\u{f0a9f}%{F-}"),
        (30.0, "%{F#ac8300}\u{f0aa0}%{F-}"),
        (40.0, "%{F#819500}\u{f0aa0}%{F-}"),
        (50.0, "%{F#819500}\u{f0aa1}%{F-}"),
        (60.0, "%{F#819500}\u{f0aa2}%{F-}"),
        (70.0, "%{F#819500}\u{f0aa2}%{F-}"),
        (80.0, "%{F#819500}\u{f0aa3}%{F-}"),
        (90.0, "%{F#819500}\u{f0aa4}%{F-}"),
        (100.0, "%{F#819500}\u{f0aa5}%{F-}"),
    ] {
        assert_eq!(InferenceUsageModule::render_quota(double(quota_left_pct)), expected);
    }
}

/// Asserts that `state` renders with the given usage for each account of each provider.
fn assert_render(state: &InferenceUsageModuleState, [claude, chatgpt]: [&[&str]; 2]) {
    let provider = |label: &str, usages: &[&str], url: &str| {
        let (default, extra) = usages.split_first().unwrap();
        let mut r = Markup::new(&format!("{label} {default}"))
            .action(
                PolybarActionType::ClickLeft,
                &format!("firefox --new-tab '{url}'"),
            )
            .into_string();
        for usage in extra {
            r.push(' ');
            r.push_str(usage);
        }
        r
    };
    let module = module();
    assert_eq!(module.claude_usage_url(), "https://acme.ai/settings/usage");
    assert_eq!(
        module.render(state),
        [
            Markup::new(ICON_INFERENCE_USAGE)
                .fg(Color::MainIcon)
                .into_string(),
            provider(ICON_CLAUDE, claude, "https://acme.ai/settings/usage"),
            provider(ICON_CHATGPT, chatgpt, CHATGPT_USAGE_URL),
        ]
        .join(" ")
    );
}

#[test]
fn test_render_accounts() {
    let att_warn = Markup::new(ICON_WARNING)
        .fg(Color::Attention)
        .into_string();

    // Extra accounts render after the default one, space separated
    let state = InferenceUsageModuleState {
        claude_statuses: vec![
            ClaudeUsageStatus::Available {
                h5: usage_window(50.0, 0.75),
                d7: usage_window(80.0, 0.9),
            },
            ClaudeUsageStatus::AuthInvalid,
        ],
        chatgpt_statuses: vec![
            Some(vec![usage_window(81.0, 0.5)]),
            None,
            Some(vec![usage_window(20.0, 0.3)]),
        ],
    };
    assert_render(
        &state,
        [
            &[
                "%{F#819500}\u{f0aa1}%{F-}%{F#819500}▆%{F-}%{F#819500}\u{f0aa3}%{F-}%{F#819500}█%{F-}",
                ICON_UNAUTHORIZED,
            ],
            &[
                "%{F#819500}\u{f0aa3}%{F-}%{F#819500}▄%{F-}",
                &att_warn,
                "%{F#ac8300}\u{f0a9f}%{F-}%{F#ac8300}▃%{F-}",
            ],
        ],
    );
}

#[test]
fn inference_usage_test_render() {
    let att_warn = Markup::new(ICON_WARNING)
        .fg(Color::Attention)
        .into_string();

    let state = InferenceUsageModuleState {
        claude_statuses: vec![ClaudeUsageStatus::Available {
            h5: usage_window(50.0, 0.75),
            d7: usage_window(80.0, 0.9),
        }],
        chatgpt_statuses: vec![Some(vec![usage_window(81.0, 0.5), usage_window(90.0, 1.0)])],
    };
    assert_render(
        &state,
        [
            &["%{F#819500}\u{f0aa1}%{F-}%{F#819500}▆%{F-}%{F#819500}\u{f0aa3}%{F-}%{F#819500}█%{F-}"],
            &["%{F#819500}\u{f0aa3}%{F-}%{F#819500}▄%{F-}%{F#819500}\u{f0aa4}%{F-}%{F#819500}█%{F-}"],
        ],
    );

    // All errors
    let state = InferenceUsageModuleState {
        claude_statuses: vec![ClaudeUsageStatus::Error],
        chatgpt_statuses: vec![None],
    };
    assert_render(&state, [&[&att_warn], &[&att_warn]]);

    let state = InferenceUsageModuleState {
        claude_statuses: vec![ClaudeUsageStatus::Available {
            h5: usage_window(95.0, 0.125),
            d7: usage_window(95.0, 0.4),
        }],
        chatgpt_statuses: vec![Some(vec![usage_window(95.0, 0.0), usage_window(95.0, 0.6)])],
    };
    assert_render(
        &state,
        [
            &["%{F#819500}\u{f0aa4}%{F-}%{F#819500}▁%{F-}%{F#819500}\u{f0aa4}%{F-}%{F#819500}▄%{F-}"],
            &["%{F#819500}\u{f0aa4}%{F-}%{F#819500}▁%{F-}%{F#819500}\u{f0aa4}%{F-}%{F#819500}▅%{F-}"],
        ],
    );

    // Credentials not accepted
    let state = InferenceUsageModuleState {
        claude_statuses: vec![ClaudeUsageStatus::AuthInvalid],
        chatgpt_statuses: vec![Some(vec![usage_window(20.0, 0.3), usage_window(5.0, 0.8)])],
    };
    assert_render(
        &state,
        [
            &[ICON_UNAUTHORIZED],
            &["%{F#ac8300}\u{f0a9f}%{F-}%{F#ac8300}▃%{F-}%{F#d56500}\u{f0a9e}%{F-}%{F#d56500}▇%{F-}"],
        ],
    );

    // Short window not running yet: full quota, no reset bar
    let state = InferenceUsageModuleState {
        claude_statuses: vec![ClaudeUsageStatus::Available {
            h5: UsageWindow {
                quota_left_pct: double(100.0),
                time_left_frac: None,
            },
            d7: usage_window(80.0, 0.9),
        }],
        chatgpt_statuses: vec![None],
    };
    assert_render(
        &state,
        [
            &["%{F#819500}\u{f0aa5}%{F-}%{F#819500}\u{f0aa3}%{F-}%{F#819500}█%{F-}"],
            &[&att_warn],
        ],
    );

    // ChatGPT with a single window renders a single quota icon, still with its reset bar
    let state = InferenceUsageModuleState {
        claude_statuses: vec![ClaudeUsageStatus::Error],
        chatgpt_statuses: vec![Some(vec![usage_window(82.0, 1.0)])],
    };
    assert_render(
        &state,
        [&[&att_warn], &["%{F#819500}\u{f0aa3}%{F-}%{F#819500}█%{F-}"]],
    );
}

fn reported(used_percent: f64, limit_window_seconds: u64, reset_after_seconds: u64) -> ReportedWindow {
    ReportedWindow {
        limit_window_seconds,
        usage: usage_window(
            100.0 - used_percent,
            (reset_after_seconds as f64 / limit_window_seconds as f64).clamp(0.0, 1.0),
        ),
    }
}

#[test]
fn test_extract_chatgpt_windows_single() {
    assert_eq!(
        extract_chatgpt_windows(Some(reported(18.0, 604_800, 567_359)), None),
        vec![usage_window(82.0, 567_359.0 / 604_800.0)]
    );
    assert_eq!(
        extract_chatgpt_windows(None, Some(reported(18.0, 604_800, 567_359))),
        vec![usage_window(82.0, 567_359.0 / 604_800.0)]
    );
}

#[test]
fn test_extract_chatgpt_windows_both_sorted_by_duration() {
    // The weekly window comes first; output must be ordered by increasing duration
    let weekly = reported(10.0, 604_800, 302_400);
    let short = reported(19.0, 18_000, 4_500);
    let expected = vec![usage_window(81.0, 0.25), usage_window(90.0, 0.5)];
    assert_eq!(extract_chatgpt_windows(Some(weekly), Some(short)), expected);
    assert_eq!(extract_chatgpt_windows(Some(short), Some(weekly)), expected);
}

#[test]
fn test_extract_chatgpt_windows_none() {
    assert_eq!(extract_chatgpt_windows(None, None), Vec::new());
}

#[test]
fn test_is_degraded() {
    let available = || ClaudeUsageStatus::Available {
        h5: usage_window(50.0, 0.5),
        d7: usage_window(50.0, 0.5),
    };
    let complete = InferenceUsageModuleState {
        claude_statuses: vec![available()],
        chatgpt_statuses: vec![Some(vec![usage_window(50.0, 0.5)])],
    };
    assert!(!complete.is_degraded());

    for state in [
        InferenceUsageModuleState {
            claude_statuses: vec![ClaudeUsageStatus::AuthInvalid],
            ..complete.copy()
        },
        // A single failing account is enough
        InferenceUsageModuleState {
            claude_statuses: vec![available(), ClaudeUsageStatus::Error],
            ..complete.copy()
        },
        InferenceUsageModuleState {
            chatgpt_statuses: vec![Some(vec![usage_window(50.0, 0.5)]), None],
            ..complete.copy()
        },
    ] {
        assert!(state.is_degraded());
    }
}

#[test]
fn test_next_delay_shortened_while_degraded() {
    // Jitter can double each computed delay
    let base_range = DEGRADED_MIN_DELAY_NANOS..(2 * DEGRADED_MIN_DELAY_NANOS);
    let mut module = module();
    assert_eq!(module.next_delay_at(NOW), Some(UPDATE_INTERVAL_NANOS));

    module.degraded_since = Some(NOW);
    assert!(base_range.contains(&module.next_delay_at(NOW).unwrap()));
    // Grows, then converges back to the nominal interval instead of drifting further away
    let mut delay = 0;
    for _ in 0..5 {
        delay = module.next_delay_at(NOW).unwrap();
    }
    assert!(delay > base_range.end);
    for _ in 0..20 {
        delay = module.next_delay_at(NOW).unwrap();
    }
    assert!((UPDATE_INTERVAL_NANOS..(2 * UPDATE_INTERVAL_NANOS)).contains(&delay));

    // Complete again: back to the nominal interval, and the backoff restarts from its floor
    module.degraded_since = None;
    assert_eq!(module.next_delay_at(NOW), Some(UPDATE_INTERVAL_NANOS));
    module.degraded_since = Some(NOW);
    assert!(base_range.contains(&module.next_delay_at(NOW).unwrap()));
    // The clock is read where no time is given
    assert!(module.next_delay().unwrap() >= DEGRADED_MIN_DELAY_NANOS);
}

#[test]
fn test_next_delay_nominal_while_rate_limited() {
    // Either provider throttling us holds the update back, they answer 429 for the same reason
    for claude in [true, false] {
        let mut module = module();
        module.degraded_since = Some(NOW);
        if claude {
            module.settle_claude("account", Err(ProviderFetchError::RateLimited), None, NOW);
        } else {
            module.settle_chatgpt("account", Err(ProviderFetchError::RateLimited), NOW);
        }
        assert_eq!(module.next_delay_at(NOW), Some(UPDATE_INTERVAL_NANOS));
        assert_eq!(module.next_delay_at(NOW), Some(UPDATE_INTERVAL_NANOS));

        // Once it stops, the backoff resumes from its floor rather than mid-curve
        if claude {
            module.claude_accounts.entries[0].1.rate_limit.reset();
        } else {
            module.chatgpt_accounts.entries[0].1.reset();
        }
        let delay = module.next_delay_at(NOW).unwrap();
        assert!((DEGRADED_MIN_DELAY_NANOS..(2 * DEGRADED_MIN_DELAY_NANOS)).contains(&delay));
    }
}

#[test]
fn test_next_delay_capped_by_degraded_hold() {
    let hold = DEGRADED_HOLD_NANOS as i128;
    let mut limited = module();
    limited.degraded_since = Some(NOW);
    limited.last_complete_state = Some(complete_state());

    // A rate limit stretches the interval past the hold, the held state still expires on time
    limited.settle_claude("account", Err(ProviderFetchError::RateLimited), None, NOW);
    assert_eq!(limited.next_delay_at(NOW), Some(DEGRADED_HOLD_NANOS));

    // A hold about to run out does not collapse the delay into a busy retry
    limited.degraded_since = Some(NOW - (hold - SECOND));
    assert_eq!(limited.next_delay_at(NOW), Some(DEGRADED_MIN_DELAY_NANOS));

    // Once the hold has run out there is nothing left to expire early
    limited.degraded_since = Some(NOW - 2 * hold);
    assert_eq!(limited.next_delay_at(NOW), Some(UPDATE_INTERVAL_NANOS));

    // Neither is there when no complete state is being held
    limited.degraded_since = Some(NOW);
    limited.last_complete_state = None;
    assert_eq!(limited.next_delay_at(NOW), Some(UPDATE_INTERVAL_NANOS));

    // An escalated retry is capped too, its ceiling is above the hold even without a rate limit
    let mut ordinary = module();
    ordinary.degraded_since = Some(NOW - hold / 2);
    ordinary.last_complete_state = Some(complete_state());
    let mut delay = None;
    for _ in 0..20 {
        delay = ordinary.next_delay_at(NOW);
    }
    assert_eq!(delay, Some(DEGRADED_HOLD_NANOS / 2));
}

#[test]
fn test_degraded_hold_left_none_when_clock_moves_backwards() {
    // A hold starting in the future has an unknown age, it does not get to count as fresh
    let future_start = NOW + UPDATE_INTERVAL_NANOS as i128;
    assert_eq!(InferenceUsageModule::degraded_hold_left_at(future_start, NOW), None);
    assert_eq!(InferenceUsageModule::degraded_hold_left_at(NOW, NOW), Some(DEGRADED_HOLD_NANOS));
    assert_eq!(
        InferenceUsageModule::degraded_hold_left_at(NOW - 60 * SECOND, NOW),
        Some(0)
    );
    assert_eq!(InferenceUsageModule::degraded_hold_left_at(NOW - 60 * SECOND - 1, NOW), None);
    // The clock is far past the epoch
    assert_eq!(InferenceUsageModule::degraded_hold_left(0), None);
}

#[test]
fn degraded_updates_are_hidden_for_a_minute() {
    let mut module = module();
    assert_eq!(module.conclude(degraded_state(), NOW, NOW), degraded_state());
    assert_eq!(module.degraded_since, Some(NOW));
    assert_eq!(module.conclude(complete_state(), NOW, NOW), complete_state());
    assert_eq!(module.degraded_since, None);
    assert_eq!(module.last_complete_state, Some(complete_state()));
    assert_eq!(module.conclude(degraded_state(), NOW, NOW + 1), complete_state());
    let later = NOW + 60 * SECOND;
    assert_eq!(module.conclude(degraded_state(), later, later), complete_state());
    assert_eq!(module.degraded_since, Some(NOW));
    assert_eq!(module.conclude(degraded_state(), later, later + 1), degraded_state());
    assert_eq!(module.last_complete_state, Some(complete_state()));
}

#[test]
fn test_provider_fetch_error_from_claude_refresh() {
    // Whichever way the server words it, a rejected refresh means the credentials are spent
    for status in 400..500 {
        if status != 429 {
            assert_eq!(
                ProviderFetchError::from_claude_refresh(Some(status)),
                ProviderFetchError::AuthInvalid
            );
        }
    }
    assert_eq!(
        ProviderFetchError::from_claude_refresh(Some(429)),
        ProviderFetchError::RateLimited
    );
    // A server or transport failure says nothing about the credentials
    for status in [Some(500), Some(503), None] {
        assert_eq!(
            ProviderFetchError::from_claude_refresh(status),
            ProviderFetchError::Other
        );
    }
}

#[test]
fn failures_are_told_by_status() {
    let (invalid, limited, other) = (
        ProviderFetchError::AuthInvalid,
        ProviderFetchError::RateLimited,
        ProviderFetchError::Other,
    );
    for (status, usage, refresh) in [
        (Some(401), invalid, other),
        (Some(429), limited, limited),
        (Some(400), other, other),
        (Some(500), other, other),
        (None, other, other),
    ] {
        assert_eq!(ProviderFetchError::from_usage(status), usage);
        assert_eq!(ProviderFetchError::from_chatgpt_refresh(status), refresh);
    }
}

#[test]
fn test_rate_limit_backoff() {
    let min = u128::from(RATE_LIMIT_MIN_DELAY_SECS) * 1_000_000_000;
    let max = u128::from(RATE_LIMIT_MAX_DELAY_SECS) * 1_000_000_000;
    let mut backoff = RateLimitBackoff::new();
    assert!(!backoff.active());

    // Jitter can double each computed delay
    let delay = backoff.hit().unwrap();
    assert!((min..(2 * min)).contains(&delay));
    assert!(backoff.active());

    // Consecutive rate limits escalate, up to the ceiling
    assert!(backoff.hit().unwrap() > delay);
    let mut escalated = 0;
    for _ in 0..10 {
        escalated = backoff.hit().unwrap();
    }
    assert!((max..(2 * max)).contains(&escalated));

    backoff.reset();
    assert!(!backoff.active());
    let delay = backoff.hit_at(NOW).unwrap();
    assert!((min..(2 * min)).contains(&delay));
    assert!(backoff.active_at(NOW + delay as i128 - 1));
    assert!(!backoff.active_at(NOW + delay as i128));
}

#[test]
fn rate_limits_double_up_to_an_hour() {
    let minute: u128 = 60_000_000_000;
    let mut backoff = RateLimitBackoff::new();
    for _ in 0..2 {
        let mut last = 0;
        for minutes in [5, 10, 20, 40, 60, 60, 60] {
            let delay = backoff.hit_at(NOW).unwrap();
            assert!((minutes * minute..2 * minutes * minute).contains(&delay));
            assert!(minutes == 60 || delay > last);
            last = delay;
        }
        backoff.reset();
    }
}

#[test]
fn expiries_matter_only_where_they_are_stored() {
    let tok = ClaudeTokenResponse {
        expires_in: u64::MAX / 1000,
        ..claude_token_response()
    };
    let data = r#"{"claudeAiOauth": {"refreshToken": "r"}}"#;
    assert_eq!(checked_apply_claude_token(data, "r", &tok, 1000), None);
    assert_eq!(checked_apply_claude_token(data, "other", &tok, 1000), Some(Ok(None)));
    assert_eq!(apply_claude_token(data, "other", &tok, 1000), Ok(None));
    assert_eq!(
        checked_apply_claude_token("{", "r", &tok, 1000),
        Some(Err(CredentialsError::Json))
    );
    let written = checked_apply_claude_token(data, "r", &claude_token_response(), 1000);
    assert!(matches!(written, Some(Ok(Some(_)))));
    assert_eq!(
        written,
        Some(apply_claude_token(data, "r", &claude_token_response(), 1000))
    );
}
