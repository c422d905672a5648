//! What the server keeps: the administrator, the keys of its users, and the
//! counts of a previous run.

use vstd::prelude::*;

use crate::config::Config;
use crate::encoding;
use crate::text;

verus! {

/// How much work a hash of a password is.
pub const HASH_COST: u32 = 12;

/// How many bytes a secret has.
pub const SECRET_BYTES: usize = 32;

/// What was counted for a model.
#[derive(Debug, Clone, Copy, PartialEq, Eq, Structural)]
pub struct ModelStatsData {
    pub prompt_tokens: u64,
    pub completion_tokens: u64,
    pub requests: u64,
}

/// What was counted for a key.
#[derive(Debug, Clone, Copy, PartialEq, Eq, Structural)]
pub struct KeyStatsData {
    pub prompt_tokens: u64,
    pub completion_tokens: u64,
    pub requests: u64,
}

/// A request that was noted down.
#[derive(Debug)]
pub struct RequestLogData {
    pub timestamp: u64,
    pub request_id: String,
    pub model: String,
    pub api_key: String,
    pub prompt_tokens: u64,
    pub completion_tokens: u64,
    pub latency_ms: u64,
    pub success: bool,
}

/// All that is kept of the counts. Keys are masked.
#[derive(Debug)]
pub struct StatsStore {
    pub total_requests: u64,
    pub success_requests: u64,
    pub failed_requests: u64,
    pub total_prompt_tokens: u64,
    pub total_completion_tokens: u64,
    pub model_stats: Vec<(String, ModelStatsData)>,
    pub key_stats: Vec<(String, KeyStatsData)>,
    /// From the oldest to the newest.
    pub request_logs: Vec<RequestLogData>,
}

impl Default for StatsStore {
    /// Nothing was counted.
    fn default() -> (r: StatsStore)
        ensures
            r.total_requests == 0 && r.success_requests == 0 && r.failed_requests == 0,
            r.total_prompt_tokens == 0 && r.total_completion_tokens == 0,
            r.model_stats@.len() == 0 && r.key_stats@.len() == 0 && r.request_logs@.len() == 0,
    {
        StatsStore {
            total_requests: 0,
            success_requests: 0,
            failed_requests: 0,
            total_prompt_tokens: 0,
            total_completion_tokens: 0,
            model_stats: Vec::new(),
            key_stats: Vec::new(),
            request_logs: Vec::new(),
        }
    }
}

/// What is to be read of a file that holds this, if there is one.
pub open spec fn readable(content: Option<Seq<char>>) -> Option<Seq<char>> {
    match content {
        Some(c) => if text::trimmed(c).len() == 0 {
            None
        } else {
            Some(c)
        },
        None => None,
    }
}

/// What is to be read of the counts of a previous run, given what the file
/// holds, if there is one: nothing where the file is blank.
pub fn stats_to_read(content: Option<String>) -> (r: Option<String>)
    ensures
        r.deep_view() == readable(content.deep_view()),
        r == (match content {
            Some(c) => if text::trimmed(c@).len() == 0 {
                None
            } else {
                Some(c)
            },
            None => None,
        }),
{
    match content {
        Some(c) => {
            let t = text::trim(c.as_str());
            if t.as_str().is_empty() {
                None
            } else {
                Some(c)
            }
        },
        None => None,
    }
}

/// Whether a password belongs to a hash.
pub uninterp spec fn password_matches(plain: Seq<char>, hash: Seq<char>) -> bool;

/// `bcrypt::verify` works the hash of a password out again; whether it is the
/// same is a function of password and hash. A hash that cannot be read belongs
/// to no password.
#[verifier::external_body]
fn check_password(plain: &str, hash: &str) -> (r: bool)
    ensures
        r == password_matches(plain@, hash@),
{
    bcrypt::verify(plain, hash).unwrap_or(false)
}

/// How a hash of a given cost begins: the version, then the cost as two digits.
pub open spec fn hash_head(cost: nat) -> Seq<char> {
    "$2b$"@ + seq![(48 + cost / 10) as char, (48 + cost % 10) as char] + "$"@
}

/// The cost that a hash names: the number between its second and its third `$`.
pub open spec fn hash_cost(hash: Seq<char>) -> int {
    (hash[4] as int - 48) * 10 + (hash[5] as int - 48)
}

/// `bcrypt::hash` makes a hash of the given cost with a random salt, to which the
/// password belongs: the version, the cost, and 53 characters for salt and
/// digest. It fails where the system has no randomness to give. Nothing is said
/// of those characters: they hang on the salt.
#[verifier::external_body]
fn bcrypt_hash(plain: &str, cost: u32) -> (r: Option<String>)
    requires
        4 <= cost <= 31,
    ensures
        r matches Some(h) ==> password_matches(plain@, h@),
        r matches Some(h) ==> h@.len() == 60 && text::stands_at(h@, hash_head(cost as nat), 0),
{
    bcrypt::hash(plain, cost).ok()
}

/// A hash of the usual cost to which a password belongs; nothing if the system
/// has no randomness to give.
pub fn hash_password(plain: &str) -> (r: Option<String>)
    ensures
        r matches Some(h) ==> {
            &&& password_matches(plain@, h@)
            &&& h@.len() == 60
            &&& text::stands_at(h@, hash_head(HASH_COST as nat), 0)
            &&& hash_cost(h@) == HASH_COST
        },
{
    let r = bcrypt_hash(plain, HASH_COST);
    proof {
        if r is Some {
            let h = r->0;
            let head = hash_head(HASH_COST as nat);
            reveal_strlit("$2b$");
            reveal_strlit("$");
            assert(head[4] == '1' && head[5] == '2');
            assert(h@.subrange(0, head.len() as int) == head);
            assert(h@[4] == head[4] && h@[5] == head[5]);
        }
    }
    r
}

/// A random secret in hexadecimal digits.
pub fn generate_hex_secret() -> (r: String)
    ensures
        exists|bytes: Seq<u8>|
            bytes.len() == SECRET_BYTES && r@ == #[trigger] encoding::hex_of(
                bytes,
                SECRET_BYTES as int,
            ),
        r@.len() == 2 * SECRET_BYTES,
{
    let bytes = encoding::random_bytes(SECRET_BYTES);
    proof {
        encoding::law_hex_length(bytes@, SECRET_BYTES as int);
    }
    encoding::encode(bytes.as_slice())
}

/// What the server keeps.
pub struct StoreManager {
    pub config: Config,
    pub stats: StatsStore,
}

/// The key that signs tokens, if there is one.
pub open spec fn secret_of(c: Config) -> Option<Seq<char>> {
    if c.admin.jwt_secret@.len() == 0 {
        None
    } else {
        Some(c.admin.jwt_secret@)
    }
}

/// When the last token was issued, if one was.
pub open spec fn issued_of(c: Config) -> Option<int> {
    if c.admin.jwt_issued_at > 0 {
        Some(c.admin.jwt_issued_at as int)
    } else {
        None
    }
}

impl StoreManager {
    /// A store over a configuration and the counts of a previous run.
    pub fn new(config: Config, stats: StatsStore) -> (r: StoreManager)
        ensures
            r.config == config && r.stats == stats,
    {
        StoreManager { config, stats }
    }

    /// Whether the administrator has a password.
    pub fn has_password(&self) -> (r: bool)
        ensures
            r == (self.config.admin.password_hash@.len() > 0),
    {
        !self.config.admin.password_hash.as_str().is_empty()
    }

    /// Whether a password is that of the administrator.
    pub fn verify_password(&self, plain: &str) -> (r: bool)
        ensures
            r == password_matches(plain@, self.config.admin.password_hash@),
    {
        check_password(plain, self.config.admin.password_hash.as_str())
    }

    /// The key that signs tokens, if there is one.
    pub fn jwt_secret(&self) -> (r: Option<String>)
        ensures
            r.deep_view() == secret_of(self.config),
    {
        if self.config.admin.jwt_secret.as_str().is_empty() {
            None
        } else {
            Some(self.config.admin.jwt_secret.clone())
        }
    }

    /// When the last token was issued, if one was.
    pub fn jwt_issued_at(&self) -> (r: Option<u64>)
        ensures
            match r {
                Some(t) => issued_of(self.config) == Some(t as int),
                None => issued_of(self.config) is None,
            },
    {
        if self.config.admin.jwt_issued_at > 0 {
            Some(self.config.admin.jwt_issued_at)
        } else {
            None
        }
    }

    /// Notes when the last token was issued.
    pub fn set_jwt_issued_at(&mut self, iat: u64)
        ensures
            final(self).config.admin.jwt_issued_at == iat,
            final(self).config == (Config {
                admin: final(self).config.admin,
                ..old(self).config
            }),
            final(self).config.admin == (crate::config::AdminConfig {
                jwt_issued_at: iat,
                ..old(self).config.admin
            }),
            final(self).stats == old(self).stats,
    {
        self.config.admin.jwt_issued_at = iat;
    }

    /// Sets the password and the key of the administrator.
    pub fn save_admin(&mut self, password_hash: String, jwt_secret: String, jwt_issued_at: u64)
        ensures
            final(self).config == (Config {
                admin: final(self).config.admin,
                ..old(self).config
            }),
            final(self).config.admin == (crate::config::AdminConfig {
                password_hash,
                jwt_secret,
                jwt_issued_at,
                ..old(self).config.admin
            }),
            final(self).stats == old(self).stats,
    {
        self.config.admin.password_hash = password_hash;
        self.config.admin.jwt_secret = jwt_secret;
        self.config.admin.jwt_issued_at = jwt_issued_at;
    }

    /// Whether a user has this key.
    pub fn is_valid_api_key(&self, key: &str) -> (r: bool)
        ensures
            r == exists|i: int|
                0 <= i < self.config.api_keys@.len() && (#[trigger] self.config.api_keys@[i]).key@
                    == key@,
    {
        let mut i: usize = 0;
        while i < self.config.api_keys.len()
            invariant
                i <= self.config.api_keys@.len(),
                forall|k: int|
                    0 <= k < i ==> (#[trigger] self.config.api_keys@[k]).key@ != key@,
            decreases self.config.api_keys@.len() - i,
        {
            if text::same(self.config.api_keys[i].key.as_str(), key) {
                return true;
            }
            i += 1;
        }
        false
    }

    /// The counts that are kept.
    pub fn load_stats(&self) -> (r: &StatsStore)
        ensures
            *r == self.stats,
    {
        &self.stats
    }

    /// Keeps other counts.
    pub fn save_stats(&mut self, store: StatsStore)
        ensures
            final(self).stats == store,
            final(self).config == old(self).config,
    {
        self.stats = store;
    }
}

/// The cost that a hash names is the one that it was made with.
pub proof fn law_hash_names_its_cost(hash: Seq<char>, cost: nat)
    requires
        cost < 100,
        text::stands_at(hash, hash_head(cost), 0),
    ensures
        hash_cost(hash) == cost,
{
    reveal_strlit("$2b$");
    reveal_strlit("$");
    let head = hash_head(cost);
    assert(head.len() == 7);
    assert(hash.subrange(0, 7) == head);
    assert(hash[4] == head[4] && hash[5] == head[5]);
    assert(head[4] == (48 + cost / 10) as char && head[5] == (48 + cost % 10) as char);
}

/// Counts are read from every file that holds more than space, unchanged.
pub proof fn law_blank_files_are_passed_over(c: Seq<char>)
    ensures
        readable(None) is None,
        (forall|i: int| 0 <= i < c.len() ==> text::is_space(#[trigger] c[i])) ==> readable(
            Some(c),
        ) is None,
        (exists|i: int| 0 <= i < c.len() && !text::is_space(#[trigger] c[i])) ==> readable(Some(c))
            == Some(c),
{
    text::law_trimming_takes_only_space(c);
}

/// There is a key to sign with, and a last token, exactly where one was set.
pub proof fn law_nothing_set_is_nothing(c: Config)
    ensures
        secret_of(c) is Some <==> c.admin.jwt_secret@.len() > 0,
        secret_of(c) matches Some(k) ==> k == c.admin.jwt_secret@,
        issued_of(c) is Some <==> c.admin.jwt_issued_at != 0,
        issued_of(c) matches Some(t) ==> t == c.admin.jwt_issued_at,
{
}

} // verus!
