//! The administrator's tokens, and the limit on failed logins.

use vstd::prelude::*;

use crate::clock;
use crate::config::Config;
use crate::encoding;
use crate::json;
use crate::json::Json;
use crate::server::store;
use crate::server::store::StoreManager;
use crate::text;

verus! {

/// How long a token is good for, in seconds.
pub const JWT_EXPIRY_SECS: u64 = 86_400;

/// How long beyond its end a token is still taken, in seconds.
pub const JWT_LEEWAY_SECS: u64 = 60;

/// So many failed logins in a row lock the login.
pub const MAX_FAILURES: u64 = 5;

/// How long the login stays locked, in seconds.
pub const LOCKOUT_SECS: u64 = 300;

/// The shortest password, in bytes.
pub const MIN_PASSWORD_BYTES: usize = 6;

/// What a token says.
#[derive(Debug)]
pub struct TokenClaims {
    pub sub: String,
    pub iat: u64,
    pub exp: u64,
}

/// The model of `TokenClaims`.
#[verifier::ext_equal]
pub struct ClaimsV {
    pub sub: Seq<char>,
    pub iat: int,
    pub exp: int,
}

impl View for TokenClaims {
    type V = ClaimsV;

    open spec fn view(&self) -> ClaimsV {
        ClaimsV { sub: self.sub@, iat: self.iat as int, exp: self.exp as int }
    }
}

/// A sum that stays within 64 bits.
pub open spec fn capped_sum(a: int, b: int) -> int {
    if a + b > u64::MAX {
        u64::MAX as int
    } else {
        a + b
    }
}

/// The head of every token.
pub open spec fn header_text() -> Seq<char> {
    "{\"alg\":\"HS256\",\"typ\":\"JWT\"}"@
}

/// The first two parts of a token issued at `now`.
pub open spec fn signing_input(now: int) -> Seq<char> {
    encoding::base64url(vstd::utf8::encode_utf8(header_text())) + "."@ + encoding::base64url(
        vstd::utf8::encode_utf8(
            json::claims_text(now as nat, capped_sum(now, JWT_EXPIRY_SECS as int) as nat),
        ),
    )
}

/// The signature of a text under a key.
pub open spec fn signature(secret: Seq<char>, input: Seq<char>) -> Seq<char> {
    encoding::base64url(
        encoding::hmac_sha256(vstd::utf8::encode_utf8(secret), vstd::utf8::encode_utf8(input)),
    )
}

/// The token issued at `now` under a key.
pub open spec fn token_text(secret: Seq<char>, now: int) -> Seq<char> {
    signing_input(now) + "."@ + signature(secret, signing_input(now))
}

/// What the claims of a token say: an object with these members, or an array of
/// their values.
pub open spec fn claims_in(v: Json) -> Option<ClaimsV> {
    let (sub, iat, exp) = match v {
        Json::Array(a) => if a@.len() == 3 {
            (a@[0].string(), a@[1].uint64(), a@[2].uint64())
        } else {
            (None, None, None)
        },
        _ => (
            v.string_member("sub"@),
            json::uint64_member(v, "iat"@),
            json::uint64_member(v, "exp"@),
        ),
    };
    if sub is Some && iat is Some && exp is Some {
        Some(ClaimsV { sub: sub->0, iat: iat->0, exp: exp->0 })
    } else {
        None
    }
}

/// Claims are good at a time: they are not past their end, nor older than the
/// last token that was issued.
pub open spec fn claims_good(c: ClaimsV, issued: Option<int>, now: int) -> bool {
    now <= c.exp + JWT_LEEWAY_SECS && (issued matches Some(t) ==> c.iat >= t)
}

/// The second part of a token holds claims that are good.
pub open spec fn payload_good(part: Seq<char>, issued: Option<int>, now: int) -> bool {
    exists|d: Seq<u8>| #[trigger]
        encoding::base64url(d) == part && (json::parsed_bytes(d) matches Some(v) && claims_in(
            v,
        ) is Some && claims_good(claims_in(v)->0, issued, now))
}

/// A token is accepted: it has three parts, the third signs the first two, and
/// the second holds claims that are good.
pub open spec fn accepted(c: Config, token: Seq<char>, now: int) -> bool {
    let parts = text::split_from(token, "."@, 0);
    &&& store::secret_of(c) is Some
    &&& parts.len() == 3
    &&& parts[2] == signature(store::secret_of(c)->0, parts[0] + "."@ + parts[1])
    &&& payload_good(parts[1], store::issued_of(c), now)
}

/// The store once a token was issued at the time `now`.
pub open spec fn issued_at(s: StoreManager, now: u64) -> StoreManager {
    StoreManager {
        config: Config {
            admin: crate::config::AdminConfig { jwt_issued_at: now, ..s.config.admin },
            ..s.config
        },
        ..s
    }
}

/// Issues a token at the time `now`, and makes it the last one.
pub fn sign_jwt_at(store: &mut StoreManager, now: u64) -> (r: Option<String>)
    ensures
        r is Some <==> store::secret_of(old(store).config) is Some,
        r matches Some(t) ==> t@ == token_text(
            store::secret_of(old(store).config)->0,
            now as int,
        ) && *final(store) == issued_at(*old(store), now),
        r is None ==> *final(store) == *old(store),
{
    let secret = match store.jwt_secret() {
        Some(s) => s,
        None => {
            return None;
        },
    };
    let end: u64 = now.saturating_add(JWT_EXPIRY_SECS);
    let claims = json::claims(now, end);
    let header = "{\"alg\":\"HS256\",\"typ\":\"JWT\"}";
    let head = encoding::base64url_encode(header.as_bytes());
    let body = encoding::base64url_encode(claims.as_str().as_bytes());
    let input = text::cat3(head.as_str(), ".", body.as_str());
    assert(input@ == signing_input(now as int));
    match encoding::hmac_of(secret.as_str().as_bytes(), input.as_str().as_bytes()) {
        None => None,
        Some(mac) => {
            let sig = encoding::base64url_encode(mac.as_slice());
            store.set_jwt_issued_at(now);
            Some(text::cat3(input.as_str(), ".", sig.as_str()))
        },
    }
}

/// Issues a token now, and makes it the last one. There is one if and only if
/// there is a key to sign it with.
pub fn sign_jwt(store: &mut StoreManager) -> (r: Option<String>)
    ensures
        r is Some <==> store::secret_of(old(store).config) is Some,
        r matches Some(t) ==> exists|now: u64|
            *final(store) == issued_at(*old(store), now) && t@ == #[trigger] token_text(
                store::secret_of(old(store).config)->0,
                now as int,
            ),
        r is None ==> *final(store) == *old(store),
{
    let now: u64 = clock::epoch_secs();
    sign_jwt_at(store, now)
}

/// What the claims of a token say. Where an object holds a member twice, the
/// first one counts; the reader of the token's bytes keeps only the last, so a
/// claim that the token repeats is not refused. That reader takes in members
/// that are no claims too, so a token is refused where one of these has a value
/// that it cannot hold: a number out of range, half of a surrogate pair, bytes
/// that are not UTF-8, or nesting deeper than its limit.
pub fn read_claims(v: &Json) -> (r: Option<TokenClaims>)
    ensures
        match r {
            Some(c) => claims_in(*v) == Some(c@),
            None => claims_in(*v) is None,
        },
{
    let (sub, iat, exp) = match v {
        Json::Array(a) => {
            if a.len() != 3 {
                return None;
            }
            (a[0].as_str(), a[1].as_u64(), a[2].as_u64())
        },
        _ => (v.get_str("sub"), json::get_u64(v, "iat"), json::get_u64(v, "exp")),
    };
    match (sub, iat, exp) {
        (Some(s), Some(i), Some(e)) => Some(TokenClaims { sub: s.clone(), iat: i, exp: e }),
        _ => None,
    }
}

/// Whether claims are good at the time `now`.
pub fn check_claims(c: &TokenClaims, issued: Option<u64>, now: u64) -> (r: bool)
    ensures
        r == claims_good(
            c@,
            match issued {
                Some(t) => Some(t as int),
                None => None,
            },
            now as int,
        ),
{
    if now > c.exp && now - c.exp > JWT_LEEWAY_SECS {
        return false;
    }
    match issued {
        Some(t) => c.iat >= t,
        None => true,
    }
}

proof fn lemma_no_dot(d: Seq<u8>)
    ensures
        forall|i: int|
            0 <= i < encoding::base64url(d).len() ==> #[trigger] encoding::base64url(d)[i] != '.',
{
    assert forall|i: int| 0 <= i < encoding::base64url(d).len() implies #[trigger]
    encoding::base64url(d)[i] != '.' by {
        assert(0 <= encoding::sextet(d, i) < 64);
    }
}

proof fn lemma_find_after(s: Seq<char>, from: int, at: int)
    requires
        0 <= from <= at < s.len(),
        s[at] == '.',
        forall|i: int| from <= i < at ==> s[i] != '.',
    ensures
        text::find_from(s, "."@, from) == Some(at),
    decreases at - from,
{
    reveal_strlit(".");
    assert("."@ =~= seq!['.']);
    if from == at {
        assert(s.subrange(at, at + 1) =~= seq!['.']);
    } else {
        assert(s.subrange(from, from + 1)[0] == s[from]);
        assert(!text::stands_at(s, "."@, from));
        lemma_find_after(s, from + 1, at);
    }
}

proof fn lemma_find_none(s: Seq<char>, from: int)
    requires
        0 <= from <= s.len(),
        forall|i: int| from <= i < s.len() ==> s[i] != '.',
    ensures
        text::find_from(s, "."@, from) is None,
    decreases s.len() - from,
{
    reveal_strlit(".");
    assert("."@ =~= seq!['.']);
    if from < s.len() {
        assert(s.subrange(from, from + 1)[0] == s[from]);
        assert(!text::stands_at(s, "."@, from));
        lemma_find_none(s, from + 1);
    }
}

/// A token falls into the three parts that it was put together from.
proof fn lemma_token_parts(a: Seq<char>, b: Seq<char>, c: Seq<char>)
    requires
        forall|i: int| 0 <= i < a.len() ==> a[i] != '.',
        forall|i: int| 0 <= i < b.len() ==> b[i] != '.',
        forall|i: int| 0 <= i < c.len() ==> c[i] != '.',
    ensures
        text::split_from(a + "."@ + b + "."@ + c, "."@, 0) == seq![a, b, c],
{
    reveal_strlit(".");
    assert("."@ =~= seq!['.']);
    let s = a + "."@ + b + "."@ + c;
    let i = a.len() as int;
    let j = i + 1 + b.len();
    assert(s[i] == '.');
    assert(s[j] == '.');
    assert forall|k: int| 0 <= k < i implies s[k] != '.' by {
        assert(s[k] == a[k]);
    }
    assert forall|k: int| i + 1 <= k < j implies s[k] != '.' by {
        assert(s[k] == b[k - i - 1]);
    }
    assert forall|k: int| j + 1 <= k < s.len() implies s[k] != '.' by {
        assert(s[k] == c[k - j - 1]);
    }
    lemma_find_after(s, 0, i);
    lemma_find_after(s, i + 1, j);
    lemma_find_none(s, j + 1);
    let last = text::split_from(s, "."@, j + 1);
    assert(last =~= seq![s.subrange(j + 1, s.len() as int)]);
    let mid = text::split_from(s, "."@, i + 1);
    assert(mid =~= seq![s.subrange(i + 1, j)] + last);
    let all = text::split_from(s, "."@, 0);
    assert(all =~= seq![s.subrange(0, i)] + mid);
    assert(s.subrange(0, i) =~= a);
    assert(s.subrange(i + 1, j) =~= b);
    assert(s.subrange(j + 1, s.len() as int) =~= c);
    assert(all =~= seq![a, b, c]);
}

/// Whether a token is accepted at the time `now`. One that was issued under the
/// present key is, if and only if it is not past its end and no later one was
/// issued.
pub fn verify_jwt_at(store: &StoreManager, token: &str, now: u64) -> (r: bool)
    ensures
        r == accepted(store.config, token@, now as int),
        forall|issued: u64|
            store::secret_of(store.config) is Some && token@ == #[trigger] token_text(
                store::secret_of(store.config)->0,
                issued as int,
            ) ==> r == (now <= capped_sum(issued as int, JWT_EXPIRY_SECS as int) + JWT_LEEWAY_SECS
                && issued >= store.config.admin.jwt_issued_at),
{
    let secret = match store.jwt_secret() {
        Some(s) => s,
        None => {
            return false;
        },
    };
    proof {
        reveal_strlit(".");
    }
    let parts = text::split(token, ".");
    let ghost p = text::strs(parts@);
    let ghost key = secret@;
    proof {
        assert forall|issued: u64|
            token@ == #[trigger] token_text(key, issued as int) implies p.len() == 3 && p[2]
            == signature(key, p[0] + "."@ + p[1]) && p[1] == encoding::base64url(
            vstd::utf8::encode_utf8(
                json::claims_text(
                    issued as nat,
                    capped_sum(issued as int, JWT_EXPIRY_SECS as int) as nat,
                ),
            ),
        ) by {
            let a = vstd::utf8::encode_utf8(header_text());
            let b = vstd::utf8::encode_utf8(
                json::claims_text(
                    issued as nat,
                    capped_sum(issued as int, JWT_EXPIRY_SECS as int) as nat,
                ),
            );
            let mac = encoding::hmac_sha256(
                vstd::utf8::encode_utf8(key),
                vstd::utf8::encode_utf8(signing_input(issued as int)),
            );
            lemma_no_dot(a);
            lemma_no_dot(b);
            lemma_no_dot(mac);
            lemma_token_parts(
                encoding::base64url(a),
                encoding::base64url(b),
                encoding::base64url(mac),
            );
        }
    }
    if parts.len() != 3 {
        return false;
    }
    assert(p[0] == parts@[0]@ && p[1] == parts@[1]@ && p[2] == parts@[2]@);
    let input = text::cat3(parts[0].as_str(), ".", parts[1].as_str());
    let expected = match encoding::hmac_of(secret.as_str().as_bytes(), input.as_str().as_bytes()) {
        Some(m) => m,
        None => {
            return false;
        },
    };
    let given = match encoding::base64url_decode(parts[2].as_str()) {
        Some(d) => d,
        None => {
            assert(p[2] != encoding::base64url(expected@));
            return false;
        },
    };
    if !same_bytes(&expected, &given) {
        assert(p[2] != encoding::base64url(expected@));
        return false;
    }
    let payload = match encoding::base64url_decode(parts[1].as_str()) {
        Some(d) => d,
        None => {
            return false;
        },
    };
    assert(encoding::base64url(payload@) == p[1]);
    let value = match json::parse_bytes(payload.as_slice()) {
        Some(v) => v,
        None => {
            return false;
        },
    };
    match read_claims(&value) {
        None => false,
        Some(c) => {
            let issued = store.jwt_issued_at();
            check_claims(&c, issued, now)
        },
    }
}

/// Whether a token is accepted now.
pub fn verify_jwt(store: &StoreManager, token: &str) -> (r: bool)
    ensures
        exists|now: u64| r == #[trigger] accepted(store.config, token@, now as int),
{
    let now: u64 = clock::epoch_secs();
    verify_jwt_at(store, token, now)
}

/// Whether two byte strings are the same.
fn same_bytes(a: &Vec<u8>, b: &Vec<u8>) -> (r: bool)
    ensures
        r == (a@ == b@),
{
    if a.len() != b.len() {
        return false;
    }
    let mut i: usize = 0;
    while i < a.len()
        invariant
            i <= a@.len(),
            a@.len() == b@.len(),
            forall|k: int| 0 <= k < i ==> a@[k] == b@[k],
        decreases a@.len() - i,
    {
        if a[i] != b[i] {
            return false;
        }
        i += 1;
    }
    assert(a@ =~= b@);
    true
}

/// The limit on failed logins.
#[derive(Debug)]
pub struct LoginLimiter {
    pub fail_count: u64,
    /// Until when the login is locked, in seconds since 1970; 0 if it is not.
    pub locked_until: u64,
}

/// The model of a `LoginLimiter`.
#[verifier::ext_equal]
pub struct LimiterV {
    pub fails: int,
    pub until: int,
}

impl View for LoginLimiter {
    type V = LimiterV;

    open spec fn view(&self) -> LimiterV {
        LimiterV { fails: self.fail_count as int, until: self.locked_until as int }
    }
}

/// The login is locked.
pub open spec fn locked(l: LimiterV, now: int) -> bool {
    now < l.until
}

/// The limit after it was looked at: a lock that is over is taken off.
pub open spec fn looked_at(l: LimiterV, now: int) -> LimiterV {
    if l.until != 0 && now >= l.until {
        LimiterV { fails: 0, until: 0 }
    } else {
        l
    }
}

/// The limit after one more failure. The count goes round at 64 bits.
pub open spec fn after_fail(l: LimiterV, now: int) -> LimiterV {
    let fails = if l.fails == u64::MAX {
        0
    } else {
        l.fails + 1
    };
    LimiterV {
        fails,
        until: if fails >= MAX_FAILURES {
            capped_sum(now, LOCKOUT_SECS as int)
        } else {
            l.until
        },
    }
}

/// For how many seconds the login is still locked.
pub open spec fn remaining(l: LimiterV, now: int) -> int {
    if now < l.until {
        l.until - now
    } else {
        0
    }
}

impl LoginLimiter {
    /// No failures.
    pub fn new() -> (r: LoginLimiter)
        ensures
            r@ == (LimiterV { fails: 0, until: 0 }),
    {
        LoginLimiter { fail_count: 0, locked_until: 0 }
    }

    /// Whether the login is locked at the time `now`. A lock that is over is
    /// taken off.
    pub fn is_locked_at(&mut self, now: u64) -> (r: bool)
        ensures
            r == locked(old(self)@, now as int),
            final(self)@ == looked_at(old(self)@, now as int),
    {
        if self.locked_until == 0 {
            return false;
        }
        if now >= self.locked_until {
            self.locked_until = 0;
            self.fail_count = 0;
            return false;
        }
        true
    }

    /// Whether the login is locked now. A lock that is over is taken off.
    pub fn is_locked(&mut self) -> (r: bool)
        ensures
            exists|now: u64|
                r == #[trigger] locked(old(self)@, now as int) && final(self)@ == looked_at(
                    old(self)@,
                    now as int,
                ),
            old(self)@.until == 0 ==> !r && final(self)@ == old(self)@,
    {
        let now: u64 = clock::epoch_secs();
        self.is_locked_at(now)
    }

    /// Notes a failed login at the time `now`.
    pub fn record_failure_at(&mut self, now: u64)
        ensures
            final(self)@ == after_fail(old(self)@, now as int),
    {
        self.fail_count = self.fail_count.wrapping_add(1);
        if self.fail_count >= MAX_FAILURES {
            self.locked_until = now.saturating_add(LOCKOUT_SECS);
        }
    }

    /// Notes a failed login now.
    pub fn record_failure(&mut self)
        ensures
            exists|now: u64| final(self)@ == #[trigger] after_fail(old(self)@, now as int),
    {
        let now: u64 = clock::epoch_secs();
        self.record_failure_at(now);
    }

    /// Notes a login that went well: nothing is counted or locked any more.
    pub fn record_success(&mut self)
        ensures
            final(self)@ == (LimiterV { fails: 0, until: 0 }),
    {
        self.fail_count = 0;
        self.locked_until = 0;
    }

    /// For how many seconds the login is still locked at the time `now`.
    pub fn remaining_lock_secs_at(&self, now: u64) -> (r: u64)
        ensures
            r == remaining(self@, now as int),
    {
        self.locked_until.saturating_sub(now)
    }

    /// For how many seconds the login is still locked.
    pub fn remaining_lock_secs(&self) -> (r: u64)
        ensures
            exists|now: u64| r == #[trigger] remaining(self@, now as int),
            self@.until == 0 ==> r == 0,
    {
        let now: u64 = clock::epoch_secs();
        self.remaining_lock_secs_at(now)
    }
}

/// Why a first password is not taken.
pub open spec fn setup_error(
    c: Config,
    l: LimiterV,
    password: Seq<char>,
    now: int,
) -> Option<Seq<char>> {
    if c.admin.password_hash@.len() > 0 {
        Some("Mật khẩu đã được đặt, hãy dùng API đăng nhập"@)
    } else if locked(l, now) {
        Some(
            "Quá nhiều yêu cầu, hãy thử lại sau "@ + text::decimal(remaining(l, now) as nat)
                + " giây"@,
        )
    } else if vstd::utf8::encode_utf8(password).len() < MIN_PASSWORD_BYTES {
        Some("Mật khẩu phải có tối thiểu 6 ký tự"@)
    } else {
        None
    }
}

/// The limit after a first password was tried.
pub open spec fn after_setup(c: Config, l: LimiterV, password: Seq<char>, now: int) -> LimiterV {
    if c.admin.password_hash@.len() > 0 {
        l
    } else if !locked(l, now) && vstd::utf8::encode_utf8(password).len() < MIN_PASSWORD_BYTES {
        after_fail(looked_at(l, now), now)
    } else {
        looked_at(l, now)
    }
}

/// Whether a first password is taken at the time `now`; else why not. One that
/// is too short counts as a failure.
pub fn check_setup_at(
    store: &StoreManager,
    limiter: &mut LoginLimiter,
    password: &str,
    now: u64,
) -> (r: Option<String>)
    ensures
        r.deep_view() == setup_error(store.config, old(limiter)@, password@, now as int),
        final(limiter)@ == after_setup(store.config, old(limiter)@, password@, now as int),
{
    if store.has_password() {
        return Some("Mật khẩu đã được đặt, hãy dùng API đăng nhập".to_owned());
    }
    if limiter.is_locked_at(now) {
        let left = text::decimal_of(limiter.remaining_lock_secs_at(now));
        return Some(
            text::cat3("Quá nhiều yêu cầu, hãy thử lại sau ", left.as_str(), " giây"),
        );
    }
    if text::byte_len(password) < MIN_PASSWORD_BYTES {
        limiter.record_failure_at(now);
        return Some("Mật khẩu phải có tối thiểu 6 ký tự".to_owned());
    }
    None
}

/// Sets the first password of the administrator, where it is taken, and a new
/// key for tokens; else says why not.
pub fn setup_admin(
    store: &mut StoreManager,
    limiter: &mut LoginLimiter,
    password: &str,
) -> (r: Result<(), String>)
    ensures
        match r {
            Ok(_) => {
                &&& old(store).config.admin.password_hash@.len() == 0
                &&& vstd::utf8::encode_utf8(password@).len() >= MIN_PASSWORD_BYTES
                &&& store::password_matches(password@, final(store).config.admin.password_hash@)
                &&& store::hash_cost(final(store).config.admin.password_hash@) == store::HASH_COST
                &&& final(store).config.admin.jwt_secret@.len() == 2 * store::SECRET_BYTES
                &&& final(store).config.admin == (crate::config::AdminConfig {
                    password_hash: final(store).config.admin.password_hash,
                    jwt_secret: final(store).config.admin.jwt_secret,
                    jwt_issued_at: 0,
                    ..old(store).config.admin
                })
                &&& final(store).config == (Config {
                    admin: final(store).config.admin,
                    ..old(store).config
                })
                &&& final(store).stats == old(store).stats
            },
            Err(_) => *final(store) == *old(store),
        },
        exists|now: u64|
            final(limiter)@ == #[trigger] after_setup(
                old(store).config,
                old(limiter)@,
                password@,
                now as int,
            ) && match setup_error(old(store).config, old(limiter)@, password@, now as int) {
                Some(e) => r matches Err(m) && m@ == e,
                None => r matches Err(m) ==> m@ == "bcrypt hash không nên thất bại"@,
            },
{
    let now: u64 = clock::epoch_secs();
    if let Some(e) = check_setup_at(store, limiter, password, now) {
        return Err(e);
    }
    let password_hash = match store::hash_password(password) {
        Some(h) => h,
        None => {
            return Err("bcrypt hash không nên thất bại".to_owned());
        },
    };
    let jwt_secret = store::generate_hex_secret();
    store.save_admin(password_hash, jwt_secret, 0);
    Ok(())
}

/// Issues a token now, or says that it cannot be done.
pub fn issue_token(store: &mut StoreManager) -> (r: Result<String, String>)
    ensures
        match r {
            Ok(t) => store::secret_of(old(store).config) is Some && exists|now: u64|
                *final(store) == issued_at(*old(store), now) && t@ == #[trigger] token_text(
                    store::secret_of(old(store).config)->0,
                    now as int,
                ),
            Err(m) => store::secret_of(old(store).config) is None && m@ == "Không ký được JWT"@
                && *final(store) == *old(store),
        },
{
    match sign_jwt(store) {
        Some(t) => Ok(t),
        None => Err("Không ký được JWT".to_owned()),
    }
}

/// Why a login is refused, given whether the password is right.
pub open spec fn login_error(c: Config, l: LimiterV, right: bool, now: int) -> Option<Seq<char>> {
    if c.admin.password_hash@.len() == 0 {
        Some("Chưa đặt mật khẩu, hãy dùng API setup trước"@)
    } else if locked(l, now) {
        Some(
            "Đăng nhập sai quá nhiều lần, hãy thử lại sau "@ + text::decimal(
                remaining(l, now) as nat,
            ) + " giây"@,
        )
    } else if !right {
        Some("Mật khẩu không đúng"@)
    } else {
        None
    }
}

/// The limit after a login was tried.
pub open spec fn after_login(c: Config, l: LimiterV, right: bool, now: int) -> LimiterV {
    if c.admin.password_hash@.len() == 0 {
        l
    } else if locked(l, now) {
        looked_at(l, now)
    } else if right {
        LimiterV { fails: 0, until: 0 }
    } else {
        after_fail(looked_at(l, now), now)
    }
}

/// Whether a login is taken at the time `now`; else why not. A wrong password
/// counts as a failure; the right one makes the failures forgotten. While the
/// login is locked, no password is looked at.
pub fn check_login_at(
    store: &StoreManager,
    limiter: &mut LoginLimiter,
    password: &str,
    now: u64,
) -> (r: Option<String>)
    ensures
        ({
            let right = store::password_matches(
                password@,
                store.config.admin.password_hash@,
            );
            &&& r.deep_view() == login_error(store.config, old(limiter)@, right, now as int)
            &&& final(limiter)@ == after_login(store.config, old(limiter)@, right, now as int)
        }),
{
    if !store.has_password() {
        return Some("Chưa đặt mật khẩu, hãy dùng API setup trước".to_owned());
    }
    if limiter.is_locked_at(now) {
        let left = text::decimal_of(limiter.remaining_lock_secs_at(now));
        return Some(
            text::cat3("Đăng nhập sai quá nhiều lần, hãy thử lại sau ", left.as_str(), " giây"),
        );
    }
    if store.verify_password(password) {
        limiter.record_success();
        None
    } else {
        limiter.record_failure_at(now);
        Some("Mật khẩu không đúng".to_owned())
    }
}

/// Logs the administrator in: a token for the right password, else why not.
pub fn login_admin(
    store: &mut StoreManager,
    limiter: &mut LoginLimiter,
    password: &str,
) -> (r: Result<String, String>)
    ensures
        exists|now: u64|
            final(limiter)@ == #[trigger] after_login(
                old(store).config,
                old(limiter)@,
                store::password_matches(password@, old(store).config.admin.password_hash@),
                now as int,
            ) && match login_error(
                old(store).config,
                old(limiter)@,
                store::password_matches(password@, old(store).config.admin.password_hash@),
                now as int,
            ) {
                Some(e) => r matches Err(m) && m@ == e && *final(store) == *old(store),
                None => match r {
                    Ok(t) => store::secret_of(old(store).config) is Some && exists|at: u64|
                        *final(store) == issued_at(*old(store), at) && t@ == #[trigger] token_text(
                            store::secret_of(old(store).config)->0,
                            at as int,
                        ),
                    Err(m) => store::secret_of(old(store).config) is None && m@
                        == "Không ký được JWT"@ && *final(store) == *old(store),
                },
            },
{
    let now: u64 = clock::epoch_secs();
    if let Some(e) = check_login_at(store, limiter, password, now) {
        return Err(e);
    }
    issue_token(store)
}

/// So many failed logins at most are tried before the login is locked.
pub proof fn law_failures_lock(l: LimiterV, now: int)
    requires
        l.fails == MAX_FAILURES - 1,
        0 <= now,
        now + LOCKOUT_SECS <= u64::MAX,
    ensures
        locked(after_fail(l, now), now),
        locked(after_fail(l, now), now + LOCKOUT_SECS - 1),
        !locked(after_fail(l, now), now + LOCKOUT_SECS),
        remaining(after_fail(l, now), now) == LOCKOUT_SECS,
{
}

/// A lock that is over leaves nothing behind: the login may fail as often again.
pub proof fn law_lock_ends(l: LimiterV, now: int)
    requires
        l.until != 0,
        now >= l.until,
    ensures
        !locked(l, now),
        looked_at(l, now) == (LimiterV { fails: 0, until: 0 }),
{
}

/// While the login is locked even the right password is refused, and the lock
/// stays as it is.
pub proof fn law_lock_holds(c: Config, l: LimiterV, right: bool, now: int)
    requires
        c.admin.password_hash@.len() > 0,
        locked(l, now),
        now >= 0,
    ensures
        login_error(c, l, right, now) is Some,
        after_login(c, l, right, now) == l,
{
}

/// A failed login is counted, and locks the login from the last one allowed on;
/// before that it changes no lock.
pub proof fn law_failures_are_counted(l: LimiterV, now: int)
    requires
        0 <= l.fails < u64::MAX,
        0 <= now,
    ensures
        after_fail(l, now).fails == l.fails + 1,
        l.fails + 1 < MAX_FAILURES ==> after_fail(l, now).until == l.until,
        l.fails + 1 >= MAX_FAILURES && now + LOCKOUT_SECS <= u64::MAX ==> after_fail(l, now).until
            - now == LOCKOUT_SECS,
{
}

/// The seconds that remain of a lock are those until its end: after so many it is
/// over, and one before it is not.
pub proof fn law_lock_ends_when_told(l: LimiterV, now: int)
    requires
        0 <= now,
    ensures
        !locked(l, now + remaining(l, now)),
        locked(l, now) ==> remaining(l, now) > 0 && locked(l, now + remaining(l, now) - 1),
        !locked(l, now) ==> remaining(l, now) == 0,
{
}

/// A login goes well exactly where there is a password, the login is not locked,
/// and the password is right. Then nothing is held against it any more; a wrong
/// password is one more failure, and a lock that holds is not made longer.
pub proof fn law_login_goes_well(c: Config, l: LimiterV, right: bool, now: int)
    requires
        0 <= now,
        0 <= l.fails < u64::MAX,
    ensures
        login_error(c, l, right, now) is None <==> c.admin.password_hash@.len() > 0 && !locked(
            l,
            now,
        ) && right,
        login_error(c, l, right, now) is None ==> after_login(c, l, right, now) == (LimiterV {
            fails: 0,
            until: 0,
        }),
        c.admin.password_hash@.len() > 0 && !right && l.until == 0 ==> after_login(
            c,
            l,
            right,
            now,
        ).fails == l.fails + 1,
        c.admin.password_hash@.len() > 0 && !right && l.until != 0 && now >= l.until
            ==> after_login(c, l, right, now).fails == 1,
        c.admin.password_hash@.len() > 0 && locked(l, now) ==> after_login(c, l, right, now) == l,
        c.admin.password_hash@.len() == 0 ==> after_login(c, l, right, now) == l,
{
}

/// Whoever is turned away by a lock is told for how many seconds it still holds.
pub proof fn law_lock_is_told(c: Config, l: LimiterV, right: bool, password: Seq<char>, now: int)
    requires
        locked(l, now),
    ensures
        c.admin.password_hash@.len() > 0 ==> (login_error(c, l, right, now) matches Some(m)
            && text::occurs(m, text::decimal((l.until - now) as nat))),
        c.admin.password_hash@.len() == 0 ==> (setup_error(c, l, password, now) matches Some(m)
            && text::occurs(m, text::decimal((l.until - now) as nat))),
{
    let n = text::decimal((l.until - now) as nat);
    text::lemma_occurs_between("Đăng nhập sai quá nhiều lần, hãy thử lại sau "@, n, " giây"@);
    text::lemma_occurs_between("Quá nhiều yêu cầu, hãy thử lại sau "@, n, " giây"@);
}

/// A first password is taken exactly where there is none yet, the login is not
/// locked, and it is not too short; one that is too short counts as a failure.
pub proof fn law_first_password_is_taken(c: Config, l: LimiterV, password: Seq<char>, now: int)
    requires
        0 <= now,
        0 <= l.fails < u64::MAX,
    ensures
        setup_error(c, l, password, now) is None <==> {
            &&& c.admin.password_hash@.len() == 0
            &&& !locked(l, now)
            &&& vstd::utf8::encode_utf8(password).len() >= MIN_PASSWORD_BYTES
        },
        setup_error(c, l, password, now) is None && l.until == 0 ==> after_setup(
            c,
            l,
            password,
            now,
        ) == l,
        c.admin.password_hash@.len() == 0 && l.until == 0 && vstd::utf8::encode_utf8(password).len()
            < MIN_PASSWORD_BYTES ==> after_setup(c, l, password, now).fails == l.fails + 1,
        c.admin.password_hash@.len() > 0 ==> after_setup(c, l, password, now) == l,
{
}

/// Claims hold until their end and a little longer, and no longer; and none that
/// are older than the last token that was issued hold at all.
pub proof fn law_claims_hold_until_their_end(c: ClaimsV, issued: int, now: int)
    ensures
        claims_good(c, None, now) <==> now - c.exp <= JWT_LEEWAY_SECS,
        c.iat < issued ==> !claims_good(c, Some(issued), now),
        c.iat >= issued ==> (claims_good(c, Some(issued), now) <==> now - c.exp
            <= JWT_LEEWAY_SECS),
{
}

/// A token that is issued ends every earlier one, and nothing else of the store
/// changes.
pub proof fn law_issuing_ends_earlier_tokens(s: StoreManager, at: u64, c: ClaimsV, now: int)
    requires
        0 <= c.iat < at,
    ensures
        !claims_good(c, store::issued_of(issued_at(s, at).config), now),
        store::secret_of(issued_at(s, at).config) == store::secret_of(s.config),
        issued_at(s, at).stats == s.stats,
        issued_at(s, at).config.api_keys == s.config.api_keys,
        issued_at(s, at).config.admin.password_hash == s.config.admin.password_hash,
        issued_at(issued_at(s, at), s.config.admin.jwt_issued_at) == s,
{
}

/// Only a token that the key signed is accepted: it ends with the signature of
/// what stands before, after a dot.
pub proof fn law_accepted_tokens_are_signed(c: Config, token: Seq<char>, now: int)
    requires
        accepted(c, token, now),
    ensures
        c.admin.jwt_secret@.len() > 0,
        exists|input: Seq<char>|
            token == input + "."@ + #[trigger] signature(c.admin.jwt_secret@, input),
{
    reveal_strlit(".");
    let parts = text::split_from(token, "."@, 0);
    text::law_split_joins_back(token, "."@, 0);
    assert(token.subrange(0, token.len() as int) =~= token);
    let input = parts[0] + "."@ + parts[1];
    assert(text::joined(parts, "."@, 1) == parts[0]);
    assert(text::joined(parts, "."@, 2) == input);
    assert(text::joined(parts, "."@, 3) == input + "."@ + parts[2]);
    assert(token == input + "."@ + signature(c.admin.jwt_secret@, input));
}

/// The claims of a token are its members by name, or the values of an array by
/// place; without one of them there are none.
pub proof fn law_claims_are_read_by_name(v: Json, sub: Seq<char>, iat: int, exp: int)
    requires
        v is Object,
    ensures
        claims_in(v) == Some(ClaimsV { sub, iat, exp }) <==> {
            &&& v.string_member("sub"@) == Some(sub)
            &&& json::uint64_member(v, "iat"@) == Some(iat)
            &&& json::uint64_member(v, "exp"@) == Some(exp)
        },
        json::has_claims(v, iat, exp) ==> claims_in(v) == Some(
            ClaimsV { sub: "admin"@, iat, exp },
        ),
{
}

/// A token is made of three parts between dots: its head, its claims from the time
/// it was issued to its end, and the signature of both.
pub proof fn law_token_has_three_parts(secret: Seq<char>, now: u64)
    requires
        now + JWT_EXPIRY_SECS <= u64::MAX,
    ensures
        ({
            let parts = text::split_from(token_text(secret, now as int), "."@, 0);
            let claims = vstd::utf8::encode_utf8(
                json::claims_text(now as nat, (now + JWT_EXPIRY_SECS) as nat),
            );
            &&& parts.len() == 3
            &&& parts[0] == encoding::base64url(vstd::utf8::encode_utf8(header_text()))
            &&& parts[1] == encoding::base64url(claims)
            &&& parts[2] == signature(secret, parts[0] + "."@ + parts[1])
        }),
        text::occurs(header_text(), "\"alg\":\"HS256\""@),
{
    let a = vstd::utf8::encode_utf8(header_text());
    let b = vstd::utf8::encode_utf8(
        json::claims_text(now as nat, (now + JWT_EXPIRY_SECS) as nat),
    );
    let mac = encoding::hmac_sha256(
        vstd::utf8::encode_utf8(secret),
        vstd::utf8::encode_utf8(signing_input(now as int)),
    );
    lemma_no_dot(a);
    lemma_no_dot(b);
    lemma_no_dot(mac);
    lemma_token_parts(
        encoding::base64url(a),
        encoding::base64url(b),
        encoding::base64url(mac),
    );
    reveal_strlit("{\"alg\":\"HS256\",\"typ\":\"JWT\"}");
    reveal_strlit("\"alg\":\"HS256\"");
    reveal_strlit("{");
    reveal_strlit(",\"typ\":\"JWT\"}");
    assert(header_text() =~= "{"@ + "\"alg\":\"HS256\""@ + ",\"typ\":\"JWT\"}"@);
    text::lemma_occurs_between("{"@, "\"alg\":\"HS256\""@, ",\"typ\":\"JWT\"}"@);
}

/// Claims in an array are taken by their places, and only where there are just as
/// many values.
pub proof fn law_claims_are_read_by_place(a: Vec<Json>)
    ensures
        a@.len() != 3 ==> claims_in(Json::Array(a)) is None,
        a@.len() == 3 ==> (claims_in(Json::Array(a)) matches Some(c) ==> {
            &&& a@[0].string() == Some(c.sub)
            &&& a@[1].uint64() == Some(c.iat)
            &&& a@[2].uint64() == Some(c.exp)
        }),
        a@.len() == 3 && a@[0].string() is Some && a@[1].uint64() is Some && a@[2].uint64() is Some
            ==> claims_in(Json::Array(a)) is Some,
{
}

} // verus!
