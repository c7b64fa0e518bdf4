//! Password check and signed session tokens.
//!
//! A session token is the lower-case hex encoding of
//! HMAC-SHA256(secret, password bytes ++ generation as 8 little-endian bytes).
//! Bumping the generation invalidates every token issued before.
use vstd::prelude::*;

use crate::filenames::{trim, trim_chars};
use crate::text::{
    chars_range, char_views, has_prefix, split_chars, split_on, starts_with_chars, str_chars,
    string_from_chars,
};

verus! {

broadcast use vstd::utf8::group_utf8_lib;

/// HMAC-SHA256 of `msg` under `key`.
pub uninterp spec fn hmac_sha256(key: Seq<u8>, msg: Seq<u8>) -> Seq<u8>;

/// `hmac::Hmac<sha2::Sha256>`: keyed with `key` (`new_from_slice`, which accepts keys
/// of any length), fed `msg` (`update`), tag taken (`finalize`). The tag is named,
/// not described: it depends on `key` and `msg` only. It is 32 bytes long,
/// the output size of SHA-256.
#[verifier::external_body]
fn hmac_sha256_tag(key: &[u8], msg: &[u8]) -> (tag: Vec<u8>)
    ensures
        tag@ == hmac_sha256(key@, msg@),
        tag@.len() == 32,
{
    let mut mac = <hmac::Hmac<sha2::Sha256> as hmac::Mac>::new_from_slice(key).expect(
        "HMAC can take key of any size",
    );
    hmac::Mac::update(&mut mac, msg);
    hmac::Mac::finalize(mac).into_bytes().to_vec()
}

/// Lower-case hex digit of `v < 16`.
pub open spec fn hex_digit_lower(v: nat) -> char {
    if v < 10 {
        ((48 + v) as u32) as char
    } else {
        ((87 + v) as u32) as char
    }
}

/// Lower-case hex encoding, two digits per byte, high nibble first (`hex::encode`).
pub open spec fn hex_lower(b: Seq<u8>) -> Seq<char>
    decreases b.len(),
{
    if b.len() == 0 {
        Seq::empty()
    } else {
        hex_lower(b.drop_last()) + seq![
            hex_digit_lower((b.last() / 16) as nat),
            hex_digit_lower((b.last() % 16) as nat),
        ]
    }
}

/// `c` is a hex digit, either case.
pub open spec fn is_hex_char(c: char) -> bool {
    ('0' <= c && c <= '9') || ('a' <= c && c <= 'f') || ('A' <= c && c <= 'F')
}

/// Value of the hex digit `c`.
pub open spec fn hex_val(c: char) -> nat {
    if '0' <= c && c <= '9' {
        (c as u32 - 48) as nat
    } else if 'a' <= c && c <= 'f' {
        (c as u32 - 87) as nat
    } else {
        (c as u32 - 55) as nat
    }
}

/// `hex::decode` accepts `s`: an even number of characters, all hex digits.
pub open spec fn hex_decodable(s: Seq<char>) -> bool {
    s.len() % 2 == 0 && forall|i: int| 0 <= i < s.len() ==> is_hex_char(#[trigger] s[i])
}

/// The bytes that `hex::decode` makes of `s`.
pub open spec fn hex_decoded(s: Seq<char>) -> Seq<u8> {
    Seq::new((s.len() / 2) as nat, |i: int| (hex_val(s[2 * i]) * 16 + hex_val(s[2 * i + 1])) as u8)
}

/// `hex::encode`: lower-case hex, two digits per byte.
#[verifier::external_body]
fn hex_encode(bytes: &[u8]) -> (s: String)
    ensures
        s@ == hex_lower(bytes@),
{
    hex::encode(bytes)
}

/// `hex::decode`: `Some` of the decoded bytes when `s` has an even number of
/// characters, all hex digits of either case; `None` otherwise.
#[verifier::external_body]
fn hex_decode(s: &str) -> (res: Option<Vec<u8>>)
    ensures
        res is Some <==> hex_decodable(s@),
        res matches Some(v) ==> v@ == hex_decoded(s@),
{
    hex::decode(s).ok()
}

/// A fresh 32-byte secret from the thread-local random generator
/// (`rand::RngCore::fill_bytes` on `rand::thread_rng()`); nothing is stated of its bytes.
#[verifier::external_body]
fn random_secret() -> (secret: Vec<u8>)
    ensures
        secret@.len() == 32,
{
    let mut secret = [0u8; 32];
    rand::RngCore::fill_bytes(&mut rand::thread_rng(), &mut secret);
    secret.to_vec()
}

/// `g` as `k` little-endian bytes.
pub open spec fn le_bytes(g: nat, k: nat) -> Seq<u8>
    decreases k,
{
    if k == 0 {
        Seq::empty()
    } else {
        seq![(g % 256) as u8] + le_bytes(g / 256, (k - 1) as nat)
    }
}

/// The bytes signed for a session: the password in UTF-8, then the generation
/// as 8 little-endian bytes.
pub open spec fn session_message(password: Seq<char>, generation: u64) -> Seq<u8> {
    vstd::utf8::encode_utf8(password) + le_bytes(generation as nat, 8)
}

/// Shared auth configuration.
pub struct AuthConfig {
    /// The password users must provide to log in.
    pub password: String,
    /// A random secret key used to sign session tokens (generated at startup).
    pub secret: Vec<u8>,
    /// Session generation counter — bumped on logout to invalidate all existing tokens.
    pub generation: u64,
}

impl AuthConfig {
    /// The tag that session tokens of the current generation carry.
    pub open spec fn session_tag(&self) -> Seq<u8> {
        hmac_sha256(self.secret@, session_message(self.password@, self.generation))
    }

    /// The token issued for the current generation.
    pub open spec fn current_token(&self) -> Seq<char> {
        hex_lower(self.session_tag())
    }

    /// `token` is accepted: it decodes as hex to the current session tag.
    pub open spec fn accepts(&self, token: Seq<char>) -> bool {
        hex_decodable(token) && hex_decoded(token) == self.session_tag()
    }

    /// A configuration for `password` with a fresh random secret and generation 0.
    pub fn new(password: String) -> (cfg: Self)
        ensures
            cfg.password@ == password@,
            cfg.secret@.len() == 32,
            cfg.generation == 0,
    {
        AuthConfig { password, secret: random_secret(), generation: 0 }
    }

    /// Constant-time password verification using XOR fold.
    pub fn verify_password(&self, candidate: &str) -> (ok: bool)
        ensures
            ok == (self.password@ == candidate@),
    {
        let a = self.password.as_str().as_bytes();
        let b = candidate.as_bytes();
        if a.len() != b.len() {
            // Still do work to avoid leaking length via timing,
            // but always return false for different lengths.
            let _ = or_fold(a);
            proof {
                assert(a@.len() != b@.len());
            }
            return false;
        }
        let same = bytes_eq_constant_time(a, b);
        proof {
            if a@ == b@ {
                vstd::utf8::encode_utf8_decode_utf8(self.password@);
                vstd::utf8::encode_utf8_decode_utf8(candidate@);
            }
        }
        same
    }

    /// Generate a session token (HMAC of the password + generation with the server secret).
    /// Token is invalidated on server restart (new secret) or explicit logout (bumped generation).
    pub fn generate_token(&self) -> (token: String)
        ensures
            token@ == self.current_token(),
            token@.len() == 64,
    {
        let tag = self.current_tag();
        proof {
            lemma_hex_lower_shape(tag@);
        }
        hex_encode(tag.as_slice())
    }

    /// Verify a session token (constant-time comparison).
    pub fn verify_token(&self, token: &str) -> (ok: bool)
        ensures
            ok == self.accepts(token@),
            ok ==> hex_decoded(token@).len() == 32,
    {
        let expected = self.current_tag();
        match hex_decode(token) {
            Some(token_bytes) => {
                token_bytes.len() == expected.len() && bytes_eq_constant_time(
                    token_bytes.as_slice(),
                    expected.as_slice(),
                )
            },
            None => false,
        }
    }

    /// Invalidate all existing sessions by bumping the generation counter.
    pub fn invalidate_sessions(&mut self)
        ensures
            final(self).password == old(self).password,
            final(self).secret == old(self).secret,
            final(self).generation as int == (old(self).generation as int + 1) % 0x1_0000_0000_0000_0000,
    {
        self.generation = self.generation.wrapping_add(1);
    }

    fn current_tag(&self) -> (tag: Vec<u8>)
        ensures
            tag@ == self.session_tag(),
            tag@.len() == 32,
    {
        let mut msg: Vec<u8> = Vec::new();
        let pw = self.password.as_str().as_bytes();
        append_bytes(&mut msg, pw);
        let gen_bytes = le_bytes_exec(self.generation);
        append_bytes(&mut msg, gen_bytes.as_slice());
        hmac_sha256_tag(self.secret.as_slice(), msg.as_slice())
    }
}

fn append_bytes(v: &mut Vec<u8>, s: &[u8])
    ensures
        final(v)@ == old(v)@ + s@,
{
    let ghost start = v@;
    let mut i: usize = 0;
    while i < s.len()
        invariant
            i <= s@.len(),
            v@ == start + s@.take(i as int),
        decreases s@.len() - i,
    {
        v.push(s[i]);
        proof {
            assert(s@.take(i + 1) =~= s@.take(i as int).push(s@[i as int]));
            assert(start + s@.take(i + 1) =~= (start + s@.take(i as int)).push(s@[i as int]));
        }
        i = i + 1;
    }
    proof {
        assert(s@.take(s@.len() as int) =~= s@);
    }
}

fn le_bytes_exec(g: u64) -> (res: Vec<u8>)
    ensures
        res@ == le_bytes(g as nat, 8),
{
    let mut res: Vec<u8> = Vec::new();
    let mut rest: u64 = g;
    let mut i: u64 = 0;
    while i < 8
        invariant
            i <= 8,
            res@ + le_bytes(rest as nat, (8 - i) as nat) == le_bytes(g as nat, 8),
        decreases 8 - i,
    {
        let byte = (rest % 256) as u8;
        proof {
            let k = (8 - i) as nat;
            assert(le_bytes(rest as nat, k) == seq![byte] + le_bytes((rest / 256) as nat, (k
                - 1) as nat));
            assert(res@.push(byte) + le_bytes((rest / 256) as nat, (k - 1) as nat) =~= res@ + (
            seq![byte] + le_bytes((rest / 256) as nat, (k - 1) as nat)));
        }
        res.push(byte);
        rest = rest / 256;
        i = i + 1;
    }
    proof {
        assert(res@ + Seq::<u8>::empty() =~= res@);
    }
    res
}

/// Bitwise OR of all the bytes of `s` (0 for no bytes).
pub open spec fn or_all(s: Seq<u8>) -> u8
    decreases s.len(),
{
    if s.len() == 0 {
        0
    } else {
        or_all(s.drop_last()) | s.last()
    }
}

/// Bitwise OR of all bytes (work done whatever the outcome, for even timing).
fn or_fold(a: &[u8]) -> (r: u8)
    ensures
        r == or_all(a@),
{
    let mut acc: u8 = 0;
    let mut i: usize = 0;
    while i < a.len()
        invariant
            i <= a@.len(),
            acc == or_all(a@.take(i as int)),
        decreases a@.len() - i,
    {
        proof {
            assert(a@.take(i + 1).drop_last() =~= a@.take(i as int));
        }
        acc = acc | a[i];
        i = i + 1;
    }
    proof {
        assert(a@.take(i as int) =~= a@);
    }
    acc
}

/// Equality of two byte strings of equal length, folding the XOR of every
/// pair of bytes so that the time taken does not depend on where they differ.
fn bytes_eq_constant_time(a: &[u8], b: &[u8]) -> (eq: bool)
    requires
        a@.len() == b@.len(),
    ensures
        eq == (a@ == b@),
{
    let mut acc: u8 = 0;
    let mut i: usize = 0;
    while i < a.len()
        invariant
            i <= a@.len(),
            a@.len() == b@.len(),
            (acc == 0) == (forall|j: int| 0 <= j < i ==> a@[j] == b@[j]),
        decreases a@.len() - i,
    {
        let x = a[i];
        let y = b[i];
        let next = acc | (x ^ y);
        assert((next == 0) == (acc == 0 && x == y)) by (bit_vector)
            requires
                next == acc | (x ^ y),
        ;
        proof {
            if next == 0 {
                assert forall|j: int| 0 <= j < i + 1 implies a@[j] == b@[j] by {
                    if j < i {
                    }
                }
            }
        }
        acc = next;
        i = i + 1;
    }
    proof {
        if acc == 0 {
            assert(a@ =~= b@);
        }
    }
    acc == 0
}

/// Name of the session cookie.
pub open spec fn session_cookie_prefix() -> Seq<char> {
    "gallery_session="@
}

/// The value of the first `gallery_session=` entry among the cookie pieces.
pub open spec fn cookie_value_in(pieces: Seq<Seq<char>>) -> Option<Seq<char>>
    decreases pieces.len(),
{
    if pieces.len() == 0 {
        None
    } else {
        let t = trim(pieces[0]);
        if has_prefix(t, session_cookie_prefix()) {
            Some(t.subrange(session_cookie_prefix().len() as int, t.len() as int))
        } else {
            cookie_value_in(pieces.drop_first())
        }
    }
}

/// The session token in a `Cookie` header: the entries are separated by `;`
/// and trimmed; the first that starts with `gallery_session=` gives the rest.
pub open spec fn session_token_in_cookie(header: Seq<char>) -> Option<Seq<char>> {
    cookie_value_in(split_on(header, ';'))
}

/// Extract the session token from the `gallery_session` cookie header value.
pub fn extract_token(cookie_header: &str) -> (res: Option<String>)
    ensures
        match res {
            Some(t) => session_token_in_cookie(cookie_header@) == Some(t@),
            None => session_token_in_cookie(cookie_header@) is None,
        },
{
    let cs = str_chars(cookie_header);
    let pieces = split_chars(&cs, ';');
    let prefix = str_chars("gallery_session=");
    let ghost all = char_views(pieces@);
    let mut k: usize = 0;
    proof {
        assert(all.skip(0) =~= all);
    }
    while k < pieces.len()
        invariant
            k <= pieces@.len(),
            prefix@ == session_cookie_prefix(),
            all == char_views(pieces@),
            all == split_on(cookie_header@, ';'),
            session_token_in_cookie(cookie_header@) == cookie_value_in(all.skip(k as int)),
        decreases pieces@.len() - k,
    {
        let t = trim_chars(&pieces[k]);
        proof {
            assert(all.skip(k as int)[0] == pieces@[k as int]@);
            assert(all.skip(k as int).drop_first() =~= all.skip(k + 1));
        }
        if starts_with_chars(&t, &prefix) {
            let value = chars_range(&t, prefix.len(), t.len());
            return Some(string_from_chars(&value));
        }
        k = k + 1;
    }
    proof {
        assert(all.skip(k as int) =~= Seq::<Seq<char>>::empty());
    }
    None
}

proof fn lemma_hex_lower_shape(b: Seq<u8>)
    ensures
        hex_lower(b).len() == 2 * b.len(),
        forall|i: int|
            0 <= i < b.len() ==> hex_lower(b)[2 * i] == hex_digit_lower((b[i] / 16) as nat)
                && hex_lower(b)[2 * i + 1] == hex_digit_lower((b[i] % 16) as nat),
    decreases b.len(),
{
    if b.len() > 0 {
        let t = b.drop_last();
        lemma_hex_lower_shape(t);
        assert forall|i: int|
            0 <= i < b.len() implies hex_lower(b)[2 * i] == hex_digit_lower((b[i] / 16) as nat)
            && hex_lower(b)[2 * i + 1] == hex_digit_lower((b[i] % 16) as nat) by {
            if i < b.len() - 1 {
                assert(t[i] == b[i]);
            }
        }
    }
}

proof fn lemma_hex_digit(v: nat)
    requires
        v < 16,
    ensures
        is_hex_char(hex_digit_lower(v)),
        hex_val(hex_digit_lower(v)) == v,
{
    if v < 10 {
        let u = (48 + v) as u32;
        vstd::utf8::char_u32_cast(u as char, u);
    } else {
        let u = (87 + v) as u32;
        vstd::utf8::char_u32_cast(u as char, u);
    }
}

/// Law: hex decoding undoes hex encoding, for every byte string.
pub proof fn law_hex_round_trip(b: Seq<u8>)
    ensures
        hex_decodable(hex_lower(b)),
        hex_decoded(hex_lower(b)) == b,
{
    let s = hex_lower(b);
    lemma_hex_lower_shape(b);
    assert forall|i: int| 0 <= i < s.len() implies is_hex_char(#[trigger] s[i]) by {
        let j = i / 2;
        lemma_hex_digit((b[j] / 16) as nat);
        lemma_hex_digit((b[j] % 16) as nat);
        if i % 2 == 0 {
            assert(i == 2 * j);
        } else {
            assert(i == 2 * j + 1);
        }
    }
    assert forall|i: int| 0 <= i < b.len() implies #[trigger] hex_decoded(s)[i] == b[i] by {
        lemma_hex_digit((b[i] / 16) as nat);
        lemma_hex_digit((b[i] % 16) as nat);
        assert(hex_val(s[2 * i]) == (b[i] / 16) as nat);
        assert(hex_val(s[2 * i + 1]) == (b[i] % 16) as nat);
    }
    assert(hex_decoded(s) =~= b);
}

/// Law: the token issued for the current generation is accepted.
pub proof fn law_issued_token_accepted(cfg: AuthConfig)
    ensures
        cfg.accepts(cfg.current_token()),
{
    law_hex_round_trip(cfg.session_tag());
}

/// Law: once the generation has been bumped, a token issued before is refused,
/// provided the two generations' HMAC tags differ.
pub proof fn law_bumped_generation_refuses_old_token(before: AuthConfig, after: AuthConfig)
    requires
        after.password@ == before.password@,
        after.secret@ == before.secret@,
        after.generation as int == (before.generation as int + 1) % 0x1_0000_0000_0000_0000,
        after.session_tag() != before.session_tag(),
    ensures
        !after.accepts(before.current_token()),
{
    law_hex_round_trip(before.session_tag());
}

} // verus!
