//! Login, logout and session checks: the decisions behind the auth endpoints.
use vstd::prelude::*;

use crate::auth::{
    extract_token, is_hex_char, law_hex_round_trip, law_issued_token_accepted,
    session_token_in_cookie, AuthConfig,
};
use crate::filenames::{is_white_space, trim, trim_end, trim_start};
use crate::text::{decimal, decimal_chars, push_chars, push_str, split_on};

verus! {

/// Maximum login attempts per IP within the rate-limit window.
pub const MAX_LOGIN_ATTEMPTS: u32 = 10;

/// Rate-limit window duration in seconds.
pub const RATE_LIMIT_WINDOW_SECS: u64 = 300;

/// Lifetime of a session cookie in seconds (30 days).
pub const SESSION_MAX_AGE_SECS: u64 = 60 * 60 * 24 * 30;

/// Outcome of one login attempt against the per-IP counter.
pub struct AttemptOutcome {
    /// The attempt may go on to the password check.
    pub allowed: bool,
    /// The counter after the attempt.
    pub attempts: u32,
    /// The window restarts now (it had run out).
    pub restart_window: bool,
}

/// One attempt: a window older than `RATE_LIMIT_WINDOW_SECS` starts afresh;
/// an attempt is allowed while fewer than `MAX_LOGIN_ATTEMPTS` were counted,
/// and only allowed attempts count. Gives `(allowed, counter after)`.
pub open spec fn attempt_step(attempts: u32, elapsed_secs: u64) -> (bool, u32) {
    let a: u32 = if elapsed_secs > RATE_LIMIT_WINDOW_SECS {
        0
    } else {
        attempts
    };
    if a >= MAX_LOGIN_ATTEMPTS {
        (false, a)
    } else {
        (true, (a + 1) as u32)
    }
}

/// Registers a login attempt from an address that has made `attempts`
/// attempts in a window opened `elapsed_secs` seconds ago (a first attempt
/// comes with `0, 0`).
pub fn register_login_attempt(attempts: u32, elapsed_secs: u64) -> (res: AttemptOutcome)
    ensures
        (res.allowed, res.attempts) == attempt_step(attempts, elapsed_secs),
        res.restart_window == (elapsed_secs > RATE_LIMIT_WINDOW_SECS),
{
    let restart = elapsed_secs > RATE_LIMIT_WINDOW_SECS;
    let a: u32 = if restart {
        0
    } else {
        attempts
    };
    if a >= MAX_LOGIN_ATTEMPTS {
        AttemptOutcome { allowed: false, attempts: a, restart_window: restart }
    } else {
        AttemptOutcome { allowed: true, attempts: a + 1, restart_window: restart }
    }
}

/// Number of attempts allowed, in order, for attempts made `times[i]` seconds
/// after the window opened, starting from `attempts`.
pub open spec fn allowed_count(attempts: u32, times: Seq<u64>) -> nat
    decreases times.len(),
{
    if times.len() == 0 {
        0
    } else {
        let (ok, next) = attempt_step(attempts, times[0]);
        (if ok {
            1nat
        } else {
            0nat
        }) + allowed_count(next, times.drop_first())
    }
}

/// No address gets more than `MAX_LOGIN_ATTEMPTS` attempts through within
/// one window, however many it makes.
pub proof fn law_attempts_bounded_per_window(attempts: u32, times: Seq<u64>)
    requires
        attempts <= MAX_LOGIN_ATTEMPTS,
        forall|i: int| 0 <= i < times.len() ==> times[i] <= RATE_LIMIT_WINDOW_SECS,
    ensures
        attempts + allowed_count(attempts, times) <= MAX_LOGIN_ATTEMPTS,
    decreases times.len(),
{
    if times.len() > 0 {
        let (ok, next) = attempt_step(attempts, times[0]);
        assert forall|i: int| 0 <= i < times.drop_first().len() implies times.drop_first()[i]
            <= RATE_LIMIT_WINDOW_SECS by {
            assert(times.drop_first()[i] == times[i + 1]);
        }
        law_attempts_bounded_per_window(next, times.drop_first());
    }
}

/// An attempt after the window has run out opens a fresh one, whatever was
/// counted before: it is allowed and counted as the first of the new window.
pub proof fn law_expired_window_starts_afresh(attempts: u32, elapsed_secs: u64)
    requires
        elapsed_secs > RATE_LIMIT_WINDOW_SECS,
    ensures
        attempt_step(attempts, elapsed_secs) == (true, 1u32),
{
}

/// Inside the window an attempt is allowed exactly while fewer than
/// `MAX_LOGIN_ATTEMPTS` were counted; an allowed attempt adds one to the
/// count and a refused one leaves it.
pub proof fn law_attempt_inside_window(attempts: u32, elapsed_secs: u64)
    requires
        elapsed_secs <= RATE_LIMIT_WINDOW_SECS,
    ensures
        attempt_step(attempts, elapsed_secs).0 == (attempts < MAX_LOGIN_ATTEMPTS),
        attempt_step(attempts, elapsed_secs).0 ==> attempt_step(attempts, elapsed_secs).1 == attempts
            + 1,
        !attempt_step(attempts, elapsed_secs).0 ==> attempt_step(attempts, elapsed_secs).1 == attempts,
{
}

/// The `Set-Cookie` value that carries a session token.
pub open spec fn session_cookie(token: Seq<char>) -> Seq<char> {
    "gallery_session="@ + token + "; Path=/; HttpOnly; SameSite=Strict; Secure; Max-Age="@
        + decimal(SESSION_MAX_AGE_SECS as nat)
}

/// The `Set-Cookie` value that clears the session cookie.
pub open spec fn cleared_cookie() -> Seq<char> {
    "gallery_session=; Path=/; HttpOnly; SameSite=Strict; Secure; Max-Age=0"@
}

/// Message of a refused attempt over the limit.
pub open spec fn too_many_attempts_message() -> Seq<char> {
    "Too many login attempts. Try again later."@
}

/// Message of a wrong password.
pub open spec fn invalid_password_message() -> Seq<char> {
    "Invalid password"@
}

/// Answer to a login request.
pub struct LoginReply {
    pub status: u16,
    /// `Set-Cookie` value, on a successful login with a password configured.
    pub set_cookie: Option<String>,
    /// Error text of the JSON body; `None` means the body reports success.
    pub error: Option<String>,
}

/// `(status, cookie, error)` of a login reply.
pub open spec fn login_answer(allowed: bool, auth: Option<AuthConfig>, password: Seq<char>) -> (
    u16,
    Option<Seq<char>>,
    Option<Seq<char>>,
) {
    if !allowed {
        (429, None, Some(too_many_attempts_message()))
    } else {
        match auth {
            None => (200, None, None),
            Some(cfg) => if cfg.password@ == password {
                (200, Some(session_cookie(cfg.current_token())), None)
            } else {
                (401, None, Some(invalid_password_message()))
            },
        }
    }
}

pub open spec fn opt_view(o: Option<String>) -> Option<Seq<char>> {
    match o {
        Some(s) => Some(s@),
        None => None,
    }
}

fn text(s: &str) -> (r: String)
    ensures
        r@ == s@,
{
    let mut r = String::new();
    push_str(&mut r, s);
    r
}

/// The reply to a login with `password`, after the rate limiter said
/// whether the attempt is `allowed`. Without a configured password every
/// allowed login succeeds.
pub fn login_reply(allowed: bool, auth: &Option<AuthConfig>, password: &str) -> (r: LoginReply)
    ensures
        (r.status, opt_view(r.set_cookie), opt_view(r.error)) == login_answer(
            allowed,
            *auth,
            password@,
        ),
{
    if !allowed {
        return LoginReply {
            status: 429,
            set_cookie: None,
            error: Some(text("Too many login attempts. Try again later.")),
        };
    }
    match auth {
        None => LoginReply { status: 200, set_cookie: None, error: None },
        Some(cfg) => {
            if cfg.verify_password(password) {
                let token = cfg.generate_token();
                let mut cookie = String::new();
                push_str(&mut cookie, "gallery_session=");
                push_str(&mut cookie, token.as_str());
                push_str(&mut cookie, "; Path=/; HttpOnly; SameSite=Strict; Secure; Max-Age=");
                let age = decimal_chars(SESSION_MAX_AGE_SECS);
                push_chars(&mut cookie, &age);
                proof {
                    assert(cookie@ =~= session_cookie(cfg.current_token()));
                }
                LoginReply { status: 200, set_cookie: Some(cookie), error: None }
            } else {
                LoginReply { status: 401, set_cookie: None, error: Some(text("Invalid password")) }
            }
        },
    }
}

/// Logs out: every session issued so far stops being accepted (when a
/// password is configured), and the reply clears the cookie.
pub fn logout(auth: &mut Option<AuthConfig>) -> (cookie: String)
    ensures
        cookie@ == cleared_cookie(),
        match *old(auth) {
            None => *final(auth) is None,
            Some(c) => match *final(auth) {
                Some(d) => d.password == c.password && d.secret == c.secret && d.generation as int
                    == (c.generation as int + 1) % 0x1_0000_0000_0000_0000,
                None => false,
            },
        },
{
    match auth {
        Some(cfg) => cfg.invalidate_sessions(),
        None => {},
    }
    text("gallery_session=; Path=/; HttpOnly; SameSite=Strict; Secure; Max-Age=0")
}

/// A request with this `Cookie` header (if any) is authenticated: no password
/// is configured, or its session cookie carries a token the configuration accepts.
pub open spec fn authenticated(auth: Option<AuthConfig>, cookie_header: Option<Seq<char>>) -> bool {
    match auth {
        None => true,
        Some(cfg) => match cookie_header {
            Some(h) => match session_token_in_cookie(h) {
                Some(t) => cfg.accepts(t),
                None => false,
            },
            None => false,
        },
    }
}

/// Whether a request carrying `cookie_header` may reach a protected endpoint;
/// when it may not, the answer is 401.
pub fn request_authenticated(auth: &Option<AuthConfig>, cookie_header: Option<&str>) -> (ok: bool)
    ensures
        ok == authenticated(
            *auth,
            match cookie_header {
                Some(h) => Some(h@),
                None => None,
            },
        ),
{
    match auth {
        None => true,
        Some(cfg) => match cookie_header {
            Some(h) => match extract_token(h) {
                Some(t) => cfg.verify_token(t.as_str()),
                None => false,
            },
            None => false,
        },
    }
}

/// Answer of the session check endpoint.
pub struct AuthStatus {
    pub status: u16,
    pub authenticated: bool,
    /// A password is configured.
    pub required: bool,
}

/// The session check: 200 when authenticated, else 401; `required` tells
/// whether a password is configured.
pub fn auth_status(auth: &Option<AuthConfig>, cookie_header: Option<&str>) -> (s: AuthStatus)
    ensures
        s.authenticated == authenticated(
            *auth,
            match cookie_header {
                Some(h) => Some(h@),
                None => None,
            },
        ),
        s.status == (if s.authenticated {
            200u16
        } else {
            401u16
        }),
        s.required == auth.is_some(),
{
    let ok = request_authenticated(auth, cookie_header);
    AuthStatus { status: if ok {
        200
    } else {
        401
    }, authenticated: ok, required: auth.is_some() }
}

proof fn lemma_split_without_separator(s: Seq<char>, sep: char)
    requires
        forall|i: int| 0 <= i < s.len() ==> s[i] != sep,
    ensures
        split_on(s, sep) == seq![s],
    decreases s.len(),
{
    if s.len() == 0 {
        assert(s =~= Seq::<char>::empty());
    } else {
        let t = s.drop_last();
        assert forall|i: int| 0 <= i < t.len() implies t[i] != sep by {
            assert(t[i] == s[i]);
        }
        lemma_split_without_separator(t, sep);
        assert(s[s.len() - 1] != sep);
        assert(t.push(s.last()) =~= s);
        assert(split_on(s, sep) =~= seq![s]);
    }
}

proof fn lemma_trim_unchanged(s: Seq<char>)
    requires
        s.len() > 0,
        !is_white_space(s[0]),
        !is_white_space(s.last()),
    ensures
        trim(s) == s,
{
    assert(trim_start(s) == s);
    assert(trim_end(s) == s);
}

/// The `Cookie` header a browser sends back after a successful login.
pub open spec fn returned_cookie(token: Seq<char>) -> Seq<char> {
    "gallery_session="@ + token
}

/// A successful login hands out the current session token in its cookie, and
/// a request that sends that cookie back is authenticated (until the next
/// logout bumps the generation).
pub proof fn law_login_cookie_authenticates(cfg: AuthConfig, password: Seq<char>)
    requires
        cfg.password@ == password,
    ensures
        login_answer(true, Some(cfg), password).1 == Some(session_cookie(cfg.current_token())),
        authenticated(Some(cfg), Some(returned_cookie(cfg.current_token()))),
{
    let token = cfg.current_token();
    law_hex_round_trip(cfg.session_tag());
    reveal_strlit("gallery_session=");
    let h = returned_cookie(token);
    let prefix = "gallery_session="@;
    assert(h.len() == prefix.len() + token.len());
    assert forall|i: int| 0 <= i < h.len() implies h[i] != ';' && (i == h.len() - 1
        ==> !is_white_space(h[i])) by {
        if i < prefix.len() {
            assert(h[i] == prefix[i]);
        } else {
            assert(h[i] == token[i - prefix.len()]);
            assert(is_hex_char(token[i - prefix.len()]));
        }
    }
    lemma_split_without_separator(h, ';');
    assert(h[0] == 'g');
    lemma_trim_unchanged(h);
    assert(h.subrange(0, prefix.len() as int) =~= prefix);
    assert(h.subrange(prefix.len() as int, h.len() as int) =~= token);
    assert(seq![h].drop_first() =~= Seq::<Seq<char>>::empty());
    law_issued_token_accepted(cfg);
}

} // verus!
