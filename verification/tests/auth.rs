use gallerynet::auth::{extract_token, AuthConfig};
use gallerynet::session::{
    auth_status, login_reply, logout, register_login_attempt, request_authenticated,
    MAX_LOGIN_ATTEMPTS, RATE_LIMIT_WINDOW_SECS,
};

fn test_config() -> AuthConfig {
    AuthConfig {
        password: "test_password".to_string(),
        secret: [1u8; 32].to_vec(),
        generation: 0,
    }
}

#[test]
fn verify_password_correct() {
    let config = test_config();
    assert!(config.verify_password("test_password"));
}

#[test]
fn verify_password_wrong() {
    let config = test_config();
    assert!(!config.verify_password("wrong_password"));
}

#[test]
fn verify_password_different_length() {
    let config = test_config();
    assert!(!config.verify_password("short"));
    assert!(!config.verify_password("this_is_a_much_longer_password_than_expected"));
}

#[test]
fn token_generation_and_verification() {
    let config = test_config();
    let token = config.generate_token();
    assert!(config.verify_token(&token));
}

#[test]
fn token_invalidation_after_bump() {
    let mut config = test_config();
    let token_before = config.generate_token();
    assert!(config.verify_token(&token_before));

    config.invalidate_sessions();

    // Old token no longer valid
    assert!(!config.verify_token(&token_before));

    // New token works
    let token_after = config.generate_token();
    assert!(config.verify_token(&token_after));
}

#[test]
fn invalid_token_rejected() {
    let config = test_config();
    assert!(!config.verify_token("not_hex"));
    assert!(!config.verify_token("deadbeef"));
    assert!(!config.verify_token(""));
}

#[test]
fn token_is_lower_hex_hmac() {
    let config = test_config();
    let token = config.generate_token();
    assert_eq!(token.len(), 64);
    assert!(token.chars().all(|c| c.is_ascii_digit() || ('a'..='f').contains(&c)));
    // upper-case hex of the same bytes is accepted too (hex decoding is case-insensitive)
    assert!(config.verify_token(&token.to_uppercase()));
}

#[test]
fn new_config_has_fresh_secret() {
    let a = AuthConfig::new("pw".to_string());
    assert_eq!(a.password, "pw");
    assert_eq!(a.secret.len(), 32);
    assert_eq!(a.generation, 0);
}

#[test]
fn generation_wraps_around() {
    let mut config = test_config();
    config.generation = u64::MAX;
    config.invalidate_sessions();
    assert_eq!(config.generation, 0);
}

#[test]
fn cookie_token_extraction() {
    assert_eq!(extract_token("gallery_session=abc"), Some("abc".to_string()));
    assert_eq!(
        extract_token("theme=dark;  gallery_session=abc123 ; other=1"),
        Some("abc123".to_string())
    );
    assert_eq!(extract_token("theme=dark"), None);
    assert_eq!(extract_token(""), None);
    assert_eq!(
        extract_token("gallery_session=first; gallery_session=second"),
        Some("first".to_string())
    );
}

#[test]
fn rate_limit_allows_ten_attempts_per_window() {
    let mut attempts = 0u32;
    for _ in 0..MAX_LOGIN_ATTEMPTS {
        let out = register_login_attempt(attempts, 10);
        assert!(out.allowed);
        assert!(!out.restart_window);
        attempts = out.attempts;
    }
    assert_eq!(attempts, 10);
    let refused = register_login_attempt(attempts, 299);
    assert!(!refused.allowed);
    assert_eq!(refused.attempts, 10);
    // at exactly the window length the window still holds
    assert!(!register_login_attempt(attempts, RATE_LIMIT_WINDOW_SECS).allowed);
    // after the window the counter starts again
    let again = register_login_attempt(attempts, RATE_LIMIT_WINDOW_SECS + 1);
    assert!(again.allowed);
    assert!(again.restart_window);
    assert_eq!(again.attempts, 1);
}

#[test]
fn login_replies() {
    let cfg = Some(test_config());
    let ok = login_reply(true, &cfg, "test_password");
    assert_eq!(ok.status, 200);
    assert!(ok.error.is_none());
    let cookie = ok.set_cookie.unwrap();
    let token = test_config().generate_token();
    assert_eq!(
        cookie,
        format!(
            "gallery_session={}; Path=/; HttpOnly; SameSite=Strict; Secure; Max-Age=2592000",
            token
        )
    );

    let wrong = login_reply(true, &cfg, "nope");
    assert_eq!(wrong.status, 401);
    assert_eq!(wrong.error.as_deref(), Some("Invalid password"));
    assert!(wrong.set_cookie.is_none());

    let limited = login_reply(false, &cfg, "test_password");
    assert_eq!(limited.status, 429);
    assert_eq!(limited.error.as_deref(), Some("Too many login attempts. Try again later."));

    let open = login_reply(true, &None, "anything");
    assert_eq!(open.status, 200);
    assert!(open.set_cookie.is_none());
    assert!(open.error.is_none());
}

#[test]
fn login_cookie_authenticates_until_logout() {
    let mut cfg = Some(test_config());
    let reply = login_reply(true, &cfg, "test_password");
    let set_cookie = reply.set_cookie.unwrap();
    let sent_back = set_cookie.split(';').next().unwrap().to_string();
    assert!(request_authenticated(&cfg, Some(&sent_back)));
    let status = auth_status(&cfg, Some(&sent_back));
    assert_eq!(status.status, 200);
    assert!(status.authenticated);
    assert!(status.required);

    let cleared = logout(&mut cfg);
    assert_eq!(cleared, "gallery_session=; Path=/; HttpOnly; SameSite=Strict; Secure; Max-Age=0");
    assert_eq!(cfg.as_ref().unwrap().generation, 1);
    assert!(!request_authenticated(&cfg, Some(&sent_back)));
    let status = auth_status(&cfg, Some(&sent_back));
    assert_eq!(status.status, 401);
    assert!(!status.authenticated);
}

#[test]
fn no_password_means_open_access() {
    let mut none: Option<AuthConfig> = None;
    assert!(request_authenticated(&none, None));
    let s = auth_status(&none, None);
    assert_eq!(s.status, 200);
    assert!(s.authenticated);
    assert!(!s.required);
    assert_eq!(logout(&mut none), "gallery_session=; Path=/; HttpOnly; SameSite=Strict; Secure; Max-Age=0");
    assert!(none.is_none());
}

#[test]
fn missing_cookie_is_unauthenticated() {
    let cfg = Some(test_config());
    assert!(!request_authenticated(&cfg, None));
    assert!(!request_authenticated(&cfg, Some("theme=dark")));
    assert_eq!(auth_status(&cfg, None).status, 401);
}
