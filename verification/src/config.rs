//! Configuration: defaults, checks, environment overrides and the registry of
//! model names.

use vstd::hash_map::StringHashMap;
use vstd::prelude::*;

use crate::copies::Duplicate;
use crate::text;

verus! {

/// The administrator's settings.
#[derive(Debug)]
pub struct AdminConfig {
    /// The bcrypt hash of the password.
    pub password_hash: String,
    /// The key that signs tokens, in hexadecimal.
    pub jwt_secret: String,
    /// When the last token was issued; older ones are void.
    pub jwt_issued_at: u64,
    /// The old password of a change of password.
    pub old_password: String,
    /// The new password of a change of password.
    pub new_password: String,
}

/// One API key.
#[derive(Debug)]
pub struct ApiKeyEntry {
    pub key: String,
    pub description: String,
}

/// The outgoing proxy.
#[derive(Debug)]
pub struct ProxyConfig {
    pub url: Option<String>,
}

/// How long conversations are condensed.
#[derive(Debug)]
pub struct ContextConfig {
    pub enabled: bool,
    /// From this size on a summary stands for the old text.
    pub trigger_chars: usize,
    /// From this size on a summary is prepared.
    pub prewarm_chars: usize,
    /// So many messages stay as they are.
    pub keep_last_messages: usize,
    /// The size of the pieces that are summed up on their own.
    pub chunk_chars: usize,
    /// So many pieces are summed up at a time.
    pub summary_workers: usize,
    /// The largest size of a summary.
    pub summary_max_chars: usize,
    /// How long a summary may be used.
    pub cache_ttl_secs: u64,
    /// How long the preparation of a summary waits.
    pub background_delay_ms: u64,
    /// The model type that sums up.
    pub summary_model_type: String,
}

/// The credentials of one account: an email or a mobile number, and a password.
#[derive(Debug)]
pub struct Account {
    pub email: String,
    pub mobile: String,
    pub area_code: String,
    pub password: String,
}

/// The model of a `Account`.
#[verifier::ext_equal]
pub struct AccountV {
    pub email: Seq<char>,
    pub mobile: Seq<char>,
    pub area_code: Seq<char>,
    pub password: Seq<char>,
}

impl DeepView for Account {
    type V = AccountV;

    open spec fn deep_view(&self) -> AccountV {
        AccountV {
            email: self.email.deep_view(),
            mobile: self.mobile.deep_view(),
            area_code: self.area_code.deep_view(),
            password: self.password.deep_view(),
        }
    }
}

impl Duplicate for Account {
    fn duplicate(&self) -> (r: Account) {
        Account {
            email: self.email.duplicate(),
            mobile: self.mobile.duplicate(),
            area_code: self.area_code.duplicate(),
            password: self.password.duplicate(),
        }
    }
}

/// What else opens and closes a block of tool calls.
#[derive(Debug)]
pub struct ToolCallTagConfig {
    pub extra_starts: Vec<String>,
    pub extra_ends: Vec<String>,
}

/// The back end and its models. The lists of limits and aliases follow the
/// order of `model_types`.
#[derive(Debug)]
pub struct DeepSeekConfig {
    pub api_base: String,
    pub wasm_url: String,
    pub user_agent: String,
    pub client_version: String,
    pub client_platform: String,
    pub client_locale: String,
    pub model_types: Vec<String>,
    pub max_input_tokens: Vec<u32>,
    pub max_output_tokens: Vec<u32>,
    pub input_character_limits: Vec<u32>,
    pub tool_call: ToolCallTagConfig,
    /// Other names of each model type, separated by commas.
    pub model_aliases: Vec<String>,
}

/// Where the server listens.
#[derive(Debug)]
pub struct ServerConfig {
    pub host: String,
    pub port: u16,
    pub cors_origins: Vec<String>,
}

/// The whole configuration.
#[derive(Debug)]
pub struct Config {
    pub accounts: Vec<Account>,
    pub deepseek: DeepSeekConfig,
    pub context: ContextConfig,
    pub server: ServerConfig,
    pub proxy: ProxyConfig,
    pub admin: AdminConfig,
    pub api_keys: Vec<ApiKeyEntry>,
}

/// Why a configuration is refused.
#[derive(Debug)]
pub enum ConfigError {
    Io(String),
    Toml(String),
    Validation(String),
    Cli(String),
    TomlSerialization(String),
}

/// The message of an error.
pub open spec fn config_error_text(e: ConfigError) -> Seq<char> {
    match e {
        ConfigError::Io(m) => "Lỗi IO: "@ + m@,
        ConfigError::Toml(m) => "Lỗi phân tích TOML: "@ + m@,
        ConfigError::Validation(m) => "Lỗi xác thực cấu hình: "@ + m@,
        ConfigError::Cli(m) => "Lỗi tham số dòng lệnh: "@ + m@,
        ConfigError::TomlSerialization(m) => "Lỗi serialize TOML: "@ + m@,
    }
}

impl ConfigError {
    /// The message of the error.
    pub fn message(&self) -> (r: String)
        ensures
            r@ == config_error_text(*self),
    {
        match self {
            ConfigError::Io(m) => text::cat2("Lỗi IO: ", m.as_str()),
            ConfigError::Toml(m) => text::cat2("Lỗi phân tích TOML: ", m.as_str()),
            ConfigError::Validation(m) => text::cat2("Lỗi xác thực cấu hình: ", m.as_str()),
            ConfigError::Cli(m) => text::cat2("Lỗi tham số dòng lệnh: ", m.as_str()),
            ConfigError::TomlSerialization(m) => text::cat2("Lỗi serialize TOML: ", m.as_str()),
        }
    }
}

impl Default for AdminConfig {
    /// No password, no key, nothing issued.
    fn default() -> (r: AdminConfig)
        ensures
            r.password_hash@.len() == 0 && r.jwt_secret@.len() == 0 && r.jwt_issued_at == 0
                && r.old_password@.len() == 0 && r.new_password@.len() == 0,
    {
        AdminConfig {
            password_hash: String::new(),
            jwt_secret: String::new(),
            jwt_issued_at: 0,
            old_password: String::new(),
            new_password: String::new(),
        }
    }
}

impl Default for ProxyConfig {
    /// No proxy.
    fn default() -> (r: ProxyConfig)
        ensures
            r.url is None,
    {
        ProxyConfig { url: None }
    }
}

impl Default for ContextConfig {
    fn default() -> (r: ContextConfig)
        ensures
            r.enabled && r.trigger_chars == 24_000 && r.prewarm_chars == 16_000
                && r.keep_last_messages == 12 && r.chunk_chars == 12_000 && r.summary_workers == 2
                && r.summary_max_chars == 3_000 && r.cache_ttl_secs == 86_400
                && r.background_delay_ms == 1_000 && r.summary_model_type@ == "default"@,
    {
        ContextConfig {
            enabled: true,
            trigger_chars: 24_000,
            prewarm_chars: 16_000,
            keep_last_messages: 12,
            chunk_chars: 12_000,
            summary_workers: 2,
            summary_max_chars: 3_000,
            cache_ttl_secs: 86_400,
            background_delay_ms: 1_000,
            summary_model_type: "default".to_owned(),
        }
    }
}

/// One text as a list.
fn list1(a: &str) -> (r: Vec<String>)
    ensures
        text::strs(r@) == seq![a@],
{
    let mut r: Vec<String> = Vec::new();
    assert(text::strs(r@) =~= Seq::empty());
    text::add_line(&mut r, a);
    r
}

/// Three texts as a list.
fn list3(a: &str, b: &str, c: &str) -> (r: Vec<String>)
    ensures
        text::strs(r@) == seq![a@, b@, c@],
{
    let mut r: Vec<String> = Vec::new();
    assert(text::strs(r@) =~= Seq::empty());
    text::add_line(&mut r, a);
    text::add_line(&mut r, b);
    text::add_line(&mut r, c);
    r
}

/// The tags known besides the usual ones.
pub open spec fn usual_tags(c: ToolCallTagConfig) -> bool {
    &&& text::strs(c.extra_starts@) == seq![
        "<|tool_call_begin|>"@,
        "<tool_calls>"@,
        "<tool_call>"@,
    ]
    &&& text::strs(c.extra_ends@) == seq![
        "<|tool_call_end|>"@,
        "</tool_calls>"@,
        "</tool_call>"@,
    ]
}

impl Default for ToolCallTagConfig {
    fn default() -> (r: ToolCallTagConfig)
        ensures
            usual_tags(r),
    {
        ToolCallTagConfig {
            extra_starts: list3("<|tool_call_begin|>", "<tool_calls>", "<tool_call>"),
            extra_ends: list3("<|tool_call_end|>", "</tool_calls>", "</tool_call>"),
        }
    }
}

/// The back end as it is usually configured.
pub open spec fn usual_back_end(c: DeepSeekConfig) -> bool {
    &&& c.api_base@ == "https://chat.deepseek.com/api/v0"@
    &&& c.wasm_url@ == "https://fe-static.deepseek.com/chat/static/sha3_wasm_bg.7b9ca65ddd.wasm"@
    &&& c.user_agent@ == "DeepSeek/2.0.4 Android/35"@
    &&& c.client_version@ == "2.1.0"@
    &&& c.client_platform@ == "android"@
    &&& c.client_locale@ == "zh_CN"@
    &&& text::strs(c.model_types@) == seq!["default"@, "expert"@, "vision"@]
    &&& c.max_input_tokens@ == seq![1_048_576u32, 1_048_576u32, 1_048_576u32]
    &&& c.max_output_tokens@ == seq![384_000u32, 384_000u32, 384_000u32]
    &&& c.input_character_limits@ == seq![2_621_440u32, 163_840u32, 2_621_440u32]
    &&& usual_tags(c.tool_call)
    &&& text::strs(c.model_aliases@) == seq![
        "deepseek-v4-flash, deepseek-v4-flash-nothinking, deepseek-v4-flash-search, deepseek-v4-flash-search-nothinking"@,
        "deepseek-v4-pro, deepseek-v4-pro-nothinking, deepseek-v4-pro-search, deepseek-v4-pro-search-nothinking"@,
        "deepseek-v4-vision, deepseek-v4-vision-nothinking"@,
    ]
}

impl Default for DeepSeekConfig {
    fn default() -> (r: DeepSeekConfig)
        ensures
            usual_back_end(r),
    {
        DeepSeekConfig {
            api_base: "https://chat.deepseek.com/api/v0".to_owned(),
            wasm_url: "https://fe-static.deepseek.com/chat/static/sha3_wasm_bg.7b9ca65ddd.wasm".to_owned(),
            user_agent: "DeepSeek/2.0.4 Android/35".to_owned(),
            client_version: "2.1.0".to_owned(),
            client_platform: "android".to_owned(),
            client_locale: "zh_CN".to_owned(),
            model_types: list3("default", "expert", "vision"),
            max_input_tokens: vec![1_048_576, 1_048_576, 1_048_576],
            max_output_tokens: vec![384_000, 384_000, 384_000],
            input_character_limits: vec![2_621_440, 163_840, 2_621_440],
            tool_call: ToolCallTagConfig::default(),
            model_aliases: list3(
                "deepseek-v4-flash, deepseek-v4-flash-nothinking, deepseek-v4-flash-search, deepseek-v4-flash-search-nothinking",
                "deepseek-v4-pro, deepseek-v4-pro-nothinking, deepseek-v4-pro-search, deepseek-v4-pro-search-nothinking",
                "deepseek-v4-vision, deepseek-v4-vision-nothinking",
            ),
        }
    }
}

/// The names among the first `n` pieces of a list: white space around them
/// and empty pieces do not count.
pub open spec fn names_among(pieces: Seq<Seq<char>>, n: int) -> Seq<Seq<char>>
    decreases n,
{
    if n <= 0 {
        Seq::empty()
    } else {
        let name = text::trimmed(pieces[n - 1]);
        if name.len() > 0 {
            names_among(pieces, n - 1).push(name)
        } else {
            names_among(pieces, n - 1)
        }
    }
}

/// The names in a list separated by commas.
pub open spec fn listed_names(list: Seq<char>) -> Seq<Seq<char>> {
    let pieces = text::split_from(list, ","@, 0);
    names_among(pieces, pieces.len() as int)
}

/// The names in a list separated by commas.
pub fn split_names(list: &str) -> (r: Vec<String>)
    ensures
        text::strs(r@) == listed_names(list@),
{
    proof {
        reveal_strlit(",");
    }
    let pieces = text::split(list, ",");
    let mut out: Vec<String> = Vec::new();
    let mut i: usize = 0;
    assert(text::strs(out@) =~= Seq::empty());
    while i < pieces.len()
        invariant
            i <= pieces@.len(),
            text::strs(out@) == names_among(text::strs(pieces@), i as int),
        decreases pieces@.len() - i,
    {
        let name = text::trim(pieces[i].as_str());
        if !name.as_str().is_empty() {
            text::add_line(&mut out, name.as_str());
        }
        i += 1;
    }
    out
}

/// The names that a model type has by itself.
pub open spec fn builtin_names(model_type: Seq<char>) -> Seq<Seq<char>> {
    if model_type == "default"@ {
        seq![
            "deepseek-v4-flash"@,
            "deepseek-v4-flash-nothinking"@,
            "deepseek-v4-flash-search"@,
            "deepseek-v4-flash-search-nothinking"@,
        ]
    } else if model_type == "expert"@ {
        seq![
            "deepseek-v4-pro"@,
            "deepseek-v4-pro-nothinking"@,
            "deepseek-v4-pro-search"@,
            "deepseek-v4-pro-search-nothinking"@,
        ]
    } else if model_type == "vision"@ {
        seq!["deepseek-v4-vision"@, "deepseek-v4-vision-nothinking"@]
    } else {
        Seq::empty()
    }
}

/// The names that a model type has by itself.
pub fn builtin_model_aliases(model_type: &str) -> (r: Vec<String>)
    ensures
        text::strs(r@) == builtin_names(model_type@),
{
    let mut r: Vec<String> = Vec::new();
    assert(text::strs(r@) =~= Seq::empty());
    if text::same(model_type, "default") {
        text::add_line(&mut r, "deepseek-v4-flash");
        text::add_line(&mut r, "deepseek-v4-flash-nothinking");
        text::add_line(&mut r, "deepseek-v4-flash-search");
        text::add_line(&mut r, "deepseek-v4-flash-search-nothinking");
    } else if text::same(model_type, "expert") {
        text::add_line(&mut r, "deepseek-v4-pro");
        text::add_line(&mut r, "deepseek-v4-pro-nothinking");
        text::add_line(&mut r, "deepseek-v4-pro-search");
        text::add_line(&mut r, "deepseek-v4-pro-search-nothinking");
    } else if text::same(model_type, "vision") {
        text::add_line(&mut r, "deepseek-v4-vision");
        text::add_line(&mut r, "deepseek-v4-vision-nothinking");
    }
    r
}

/// The name under which a model type is always known.
pub open spec fn base_name(model_type: Seq<char>) -> Seq<char> {
    "deepseek-"@ + model_type
}

/// Texts in lower case.
pub open spec fn lowercase_all(names: Seq<Seq<char>>) -> Seq<Seq<char>> {
    Seq::new(names.len(), |i: int| text::lowercase(names[i]))
}

/// The names listed for the model type at position `i`.
pub open spec fn aliases_at(aliases: Seq<Seq<char>>, i: int) -> Seq<Seq<char>> {
    if i < aliases.len() {
        listed_names(aliases[i])
    } else {
        Seq::empty()
    }
}

/// All keys under which the model type at position `i` is found.
pub open spec fn keys_of(types: Seq<Seq<char>>, aliases: Seq<Seq<char>>, i: int) -> Seq<Seq<char>> {
    seq![text::lowercase(base_name(types[i]))] + builtin_names(types[i]) + lowercase_all(
        aliases_at(aliases, i),
    )
}

/// A map with the first `n` keys led to `value`.
pub open spec fn with_keys(
    m: Map<Seq<char>, Seq<char>>,
    keys: Seq<Seq<char>>,
    n: int,
    value: Seq<char>,
) -> Map<Seq<char>, Seq<char>>
    decreases n,
{
    if n <= 0 {
        m
    } else {
        with_keys(m, keys, n - 1, value).insert(keys[n - 1], value)
    }
}

/// The registry of the first `n` model types: each key leads to a model type,
/// the last one that claims it.
pub open spec fn registry_of(
    types: Seq<Seq<char>>,
    aliases: Seq<Seq<char>>,
    n: int,
) -> Map<Seq<char>, Seq<char>>
    decreases n,
{
    if n <= 0 {
        Map::empty()
    } else {
        let keys = keys_of(types, aliases, n - 1);
        with_keys(registry_of(types, aliases, n - 1), keys, keys.len() as int, types[n - 1])
    }
}

/// The texts of a map of strings.
pub open spec fn texts_of(m: Map<Seq<char>, String>) -> Map<Seq<char>, Seq<char>> {
    m.map_values(|s: String| s@)
}

fn add_keys(map: &mut StringHashMap<String>, keys: &Vec<String>, value: &String)
    ensures
        texts_of(final(map)@) == with_keys(
            texts_of(old(map)@),
            text::strs(keys@),
            keys@.len() as int,
            value@,
        ),
{
    let ghost start = texts_of(map@);
    let mut i: usize = 0;
    while i < keys.len()
        invariant
            i <= keys@.len(),
            texts_of(map@) == with_keys(start, text::strs(keys@), i as int, value@),
        decreases keys@.len() - i,
    {
        let ghost before = map@;
        map.insert(keys[i].clone(), value.clone());
        assert(texts_of(map@) =~= texts_of(before).insert(keys@[i as int]@, value@));
        i += 1;
    }
}

impl DeepSeekConfig {
    /// All keys under which the model type at position `i` is found.
    fn keys_at(&self, i: usize) -> (keys: Vec<String>)
        requires
            i < self.model_types@.len(),
        ensures
            text::strs(keys@) == keys_of(
                text::strs(self.model_types@),
                text::strs(self.model_aliases@),
                i as int,
            ),
    {
        let ty = self.model_types[i].as_str();
        let base = text::cat2("deepseek-", ty);
        let mut keys: Vec<String> = Vec::new();
        assert(text::strs(keys@) =~= Seq::empty());
        text::add_line(&mut keys, text::to_lowercase(base.as_str()).as_str());
        let mut builtin = builtin_model_aliases(ty);
        let ghost k1 = text::strs(keys@);
        let ghost k2 = text::strs(builtin@);
        keys.append(&mut builtin);
        assert(text::strs(keys@) =~= k1 + k2);
        let ghost head = text::strs(keys@);
        let ghost listed = aliases_at(text::strs(self.model_aliases@), i as int);
        if i < self.model_aliases.len() {
            let names = split_names(self.model_aliases[i].as_str());
            let mut k: usize = 0;
            while k < names.len()
                invariant
                    k <= names@.len(),
                    listed == text::strs(names@),
                    text::strs(keys@) =~= head + lowercase_all(listed).take(k as int),
                decreases names@.len() - k,
            {
                let name = text::to_lowercase(names[k].as_str());
                text::add_line(&mut keys, name.as_str());
                k += 1;
            }
            assert(lowercase_all(listed).take(k as int) =~= lowercase_all(listed));
        } else {
            assert(lowercase_all(listed) =~= Seq::empty());
            assert(head + lowercase_all(listed) =~= head);
        }
        keys
    }

    /// The registry that leads every name to a model type.
    pub fn model_registry(&self) -> (r: StringHashMap<String>)
        ensures
            texts_of(r@) == registry_of(
                text::strs(self.model_types@),
                text::strs(self.model_aliases@),
                self.model_types@.len() as int,
            ),
    {
        let mut map: StringHashMap<String> = StringHashMap::new();
        let mut i: usize = 0;
        assert(texts_of(map@) =~= Map::empty());
        while i < self.model_types.len()
            invariant
                i <= self.model_types@.len(),
                texts_of(map@) == registry_of(
                    text::strs(self.model_types@),
                    text::strs(self.model_aliases@),
                    i as int,
                ),
            decreases self.model_types@.len() - i,
        {
            let keys = self.keys_at(i);
            add_keys(&mut map, &keys, &self.model_types[i]);
            i += 1;
        }
        map
    }
}

/// The complaint that a list of limits does not follow the model types.
pub open spec fn length_text(name: Seq<char>, len: nat, n: nat) -> Seq<char> {
    "Độ dài "@ + name + " ("@ + text::decimal(len) + ") phải khớp độ dài model_types ("@
        + text::decimal(n) + ")"@
}

/// What is wrong with the model types, the limits or the condensing, the first
/// thing where there are several.
pub open spec fn shape_error(c: Config) -> Option<Seq<char>> {
    let n = c.deepseek.model_types@.len();
    if n == 0 {
        Some("model_types không được để trống"@)
    } else if c.deepseek.max_input_tokens@.len() != n {
        Some(length_text("max_input_tokens"@, c.deepseek.max_input_tokens@.len(), n))
    } else if c.deepseek.max_output_tokens@.len() != n {
        Some(length_text("max_output_tokens"@, c.deepseek.max_output_tokens@.len(), n))
    } else if c.deepseek.input_character_limits@.len() != n {
        Some(length_text("input_character_limits"@, c.deepseek.input_character_limits@.len(), n))
    } else if c.context.enabled && c.context.keep_last_messages == 0 {
        Some("context.keep_last_messages must be > 0"@)
    } else if c.context.enabled && c.context.trigger_chars < c.context.prewarm_chars {
        Some("context.trigger_chars must be >= context.prewarm_chars"@)
    } else if c.context.enabled && (c.context.chunk_chars == 0 || c.context.summary_workers == 0) {
        Some("context.chunk_chars and context.summary_workers must be > 0"@)
    } else {
        None
    }
}

/// The API keys of a configuration.
pub open spec fn key_texts(keys: Seq<ApiKeyEntry>) -> Seq<Seq<char>> {
    Seq::new(keys.len(), |i: int| keys[i].key@)
}

/// Whether the text at position `i` stands at an earlier position too.
pub open spec fn seen_before(texts: Seq<Seq<char>>, i: int) -> bool {
    exists|j: int| 0 <= j < i && #[trigger] texts[j] == texts[i]
}

/// The first position from `i` on whose text was seen before.
pub open spec fn first_repeat(texts: Seq<Seq<char>>, i: int) -> Option<int>
    decreases texts.len() - i,
{
    if i < 0 || i >= texts.len() {
        None
    } else if seen_before(texts, i) {
        Some(i)
    } else {
        first_repeat(texts, i + 1)
    }
}

/// Whether a key's first twelve bytes form a text, where it is longer.
pub open spec fn cuts_cleanly(key: Seq<char>) -> bool {
    vstd::utf8::encode_utf8(key).len() > 12 ==> vstd::utf8::is_char_boundary(
        vstd::utf8::encode_utf8(key),
        12,
    )
}

/// The beginning of a key that a message shows.
pub open spec fn key_head(key: Seq<char>) -> Seq<char> {
    if vstd::utf8::encode_utf8(key).len() > 12 {
        text::byte_prefix(key, 12)
    } else {
        key
    }
}

/// What is wrong with a configuration.
pub open spec fn validation_error(c: Config) -> Option<Seq<char>> {
    match shape_error(c) {
        Some(e) => Some(e),
        None => match first_repeat(key_texts(c.api_keys@), 0) {
            Some(i) => Some("API key bị trùng: "@ + key_head(c.api_keys@[i].key@) + "..."@),
            None => None,
        },
    }
}

/// Whether the message about a repeated key, if there is one, can be written.
pub open spec fn can_be_validated(c: Config) -> bool {
    shape_error(c) is None ==> (first_repeat(key_texts(c.api_keys@), 0) matches Some(i)
        ==> cuts_cleanly(c.api_keys@[i].key@))
}

/// The key under which an account is known: its email, else its mobile number.
pub open spec fn account_key(a: Account) -> Seq<char> {
    if a.email@.len() == 0 {
        a.mobile@
    } else {
        a.email@
    }
}

/// The keys of some accounts.
pub open spec fn account_keys(accounts: Seq<Account>) -> Seq<Seq<char>> {
    Seq::new(accounts.len(), |i: int| account_key(accounts[i]))
}

/// The first `n` accounts without those whose key was seen before.
pub open spec fn distinct_accounts(accounts: Seq<Account>, n: int) -> Seq<Account>
    decreases n,
{
    if n <= 0 {
        Seq::empty()
    } else if seen_before(account_keys(accounts), n - 1) {
        distinct_accounts(accounts, n - 1)
    } else {
        distinct_accounts(accounts, n - 1).push(accounts[n - 1])
    }
}

/// What the environment sets.
#[derive(Debug)]
pub struct EnvOverrides {
    /// `PORT`
    pub platform_port: Option<String>,
    /// `DS_PORT`
    pub port: Option<String>,
    /// `DS_HOST`
    pub host: Option<String>,
    /// `DS_CORS_ORIGINS`
    pub cors_origins: Option<String>,
}

/// A port number read from text: decimal digits, with a plus sign before them
/// or not.
pub open spec fn port_number(s: Seq<char>) -> Option<nat> {
    let digits = if s.len() > 0 && s[0] == '+' {
        s.subrange(1, s.len() as int)
    } else {
        s
    };
    match text::number_value(digits) {
        Some(v) => if v <= u16::MAX {
            Some(v)
        } else {
            None
        },
        None => None,
    }
}

fn parse_port(s: &str) -> (r: Option<u16>)
    ensures
        match r {
            Some(p) => port_number(s@) == Some(p as nat),
            None => port_number(s@) is None,
        },
{
    let v = text::chars_of(s);
    let parsed = if v.len() > 0 && v[0] == '+' {
        let digits = text::text_of(&v, 1, v.len());
        text::parse_number(digits.as_str(), 65_535)
    } else {
        text::parse_number(s, 65_535)
    };
    match parsed {
        Some(n) => Some(n as u16),
        None => None,
    }
}

/// The port that the environment asks for.
pub open spec fn requested_port(env: EnvOverrides) -> Option<String> {
    if env.port is Some {
        env.port
    } else {
        env.platform_port
    }
}

/// The port that the environment asks for, if any, is a port number.
pub open spec fn port_is_good(env: EnvOverrides) -> bool {
    requested_port(env) matches Some(p) ==> port_number(p@) is Some
}

/// The server settings after the environment's, given a port.
pub open spec fn overridden(
    before: ServerConfig,
    env: EnvOverrides,
    port: u16,
    after: ServerConfig,
) -> bool {
    &&& after.port == port
    &&& match env.host {
        Some(h) => after.host@ == (if text::trimmed(h@).len() > 0 {
            text::trimmed(h@)
        } else {
            before.host@
        }),
        None => after.host@ == (if env.platform_port is Some {
            "0.0.0.0"@
        } else {
            before.host@
        }),
    }
    &&& text::strs(after.cors_origins@) == (match env.cors_origins {
        Some(list) => if listed_names(list@).len() > 0 {
            listed_names(list@)
        } else {
            text::strs(before.cors_origins@)
        },
        None => text::strs(before.cors_origins@),
    })
}

impl Config {
    /// The configuration that is written where there is none.
    pub fn minimal() -> (r: Config)
        ensures
            r.accounts@.len() == 0,
            usual_back_end(r.deepseek),
            r.context.enabled && r.context.trigger_chars == 24_000 && r.context.prewarm_chars
                == 16_000 && r.context.keep_last_messages == 12 && r.context.chunk_chars == 12_000
                && r.context.summary_workers == 2 && r.context.summary_max_chars == 3_000
                && r.context.cache_ttl_secs == 86_400 && r.context.background_delay_ms == 1_000
                && r.context.summary_model_type@ == "default"@,
            r.server.host@ == "127.0.0.1"@ && r.server.port == 22_217,
            text::strs(r.server.cors_origins@) == seq!["http://localhost:22217"@],
            r.proxy.url is None,
            r.admin.password_hash@.len() == 0 && r.admin.jwt_secret@.len() == 0
                && r.admin.jwt_issued_at == 0,
            r.api_keys@.len() == 0,
            validation_error(r) is None && can_be_validated(r),
    {
        let r = Config {
            accounts: Vec::new(),
            deepseek: DeepSeekConfig::default(),
            context: ContextConfig::default(),
            server: ServerConfig {
                host: "127.0.0.1".to_owned(),
                port: 22_217,
                cors_origins: list1("http://localhost:22217"),
            },
            proxy: ProxyConfig::default(),
            admin: AdminConfig::default(),
            api_keys: Vec::new(),
        };
        assert(text::strs(r.deepseek.model_types@).len() == 3);
        r
    }

    fn check_length(name: &str, len: usize, n: usize) -> (r: Result<(), ConfigError>)
        ensures
            match r {
                Ok(_) => len == n,
                Err(ConfigError::Validation(m)) => len != n && m@ == length_text(
                    name@,
                    len as nat,
                    n as nat,
                ),
                Err(_) => false,
            },
    {
        if len == n {
            return Ok(());
        }
        let a = text::decimal_of(len as u64);
        let b = text::decimal_of(n as u64);
        let m = text::cat7(
            "Độ dài ",
            name,
            " (",
            a.as_str(),
            ") phải khớp độ dài model_types (",
            b.as_str(),
            ")",
        );
        Err(ConfigError::Validation(m))
    }

    /// Checks the model types, the limits and the condensing.
    fn check_shape(&self) -> (r: Result<(), ConfigError>)
        ensures
            match r {
                Ok(_) => shape_error(*self) is None,
                Err(ConfigError::Validation(m)) => shape_error(*self) == Some(m@),
                Err(_) => false,
            },
    {
        let n: usize = self.deepseek.model_types.len();
        if n == 0 {
            return Err(ConfigError::Validation("model_types không được để trống".to_owned()));
        }
        if let Err(e) = Self::check_length(
            "max_input_tokens",
            self.deepseek.max_input_tokens.len(),
            n,
        ) {
            return Err(e);
        }
        if let Err(e) = Self::check_length(
            "max_output_tokens",
            self.deepseek.max_output_tokens.len(),
            n,
        ) {
            return Err(e);
        }
        if let Err(e) = Self::check_length(
            "input_character_limits",
            self.deepseek.input_character_limits.len(),
            n,
        ) {
            return Err(e);
        }
        if self.context.enabled {
            if self.context.keep_last_messages == 0 {
                return Err(
                    ConfigError::Validation("context.keep_last_messages must be > 0".to_owned()),
                );
            }
            if self.context.trigger_chars < self.context.prewarm_chars {
                return Err(
                    ConfigError::Validation(
                        "context.trigger_chars must be >= context.prewarm_chars".to_owned(),
                    ),
                );
            }
            if self.context.chunk_chars == 0 || self.context.summary_workers == 0 {
                return Err(
                    ConfigError::Validation(
                        "context.chunk_chars and context.summary_workers must be > 0".to_owned(),
                    ),
                );
            }
        }
        Ok(())
    }

    fn find_repeated_key(&self) -> (r: Option<usize>)
        ensures
            match r {
                Some(i) => first_repeat(key_texts(self.api_keys@), 0) == Some(i as int) && i
                    < self.api_keys@.len(),
                None => first_repeat(key_texts(self.api_keys@), 0) is None,
            },
    {
        let ghost texts = key_texts(self.api_keys@);
        let mut i: usize = 0;
        while i < self.api_keys.len()
            invariant
                i <= self.api_keys@.len(),
                texts == key_texts(self.api_keys@),
                first_repeat(texts, 0) == first_repeat(texts, i as int),
            decreases self.api_keys@.len() - i,
        {
            let mut j: usize = 0;
            while j < i
                invariant
                    j <= i < self.api_keys@.len(),
                    texts == key_texts(self.api_keys@),
                    first_repeat(texts, 0) == first_repeat(texts, i as int),
                    forall|k: int| 0 <= k < j ==> #[trigger] texts[k] != texts[i as int],
                decreases i - j,
            {
                if text::same(self.api_keys[j].key.as_str(), self.api_keys[i].key.as_str()) {
                    assert(texts[j as int] == texts[i as int]);
                    return Some(i);
                }
                j += 1;
            }
            i += 1;
        }
        None
    }

    /// Whether `validate` can write its message: where it would report a
    /// repeated key of more than twelve bytes, the first twelve form a text.
    pub fn can_validate(&self) -> (r: bool)
        ensures
            r == can_be_validated(*self),
    {
        if self.check_shape().is_err() {
            return true;
        }
        match self.find_repeated_key() {
            Some(i) => {
                let key = self.api_keys[i].key.as_str();
                if text::byte_len(key) > 12 {
                    key.is_char_boundary(12)
                } else {
                    true
                }
            },
            None => true,
        }
    }

    /// Checks the configuration.
    pub fn validate(&self) -> (r: Result<(), ConfigError>)
        requires
            can_be_validated(*self),
        ensures
            match r {
                Ok(_) => validation_error(*self) is None,
                Err(ConfigError::Validation(m)) => validation_error(*self) == Some(m@),
                Err(_) => false,
            },
    {
        if let Err(e) = self.check_shape() {
            return Err(e);
        }
        if let Some(i) = self.find_repeated_key() {
            let key = self.api_keys[i].key.as_str();
            let head = if text::byte_len(key) > 12 {
                text::take_bytes(key, 12)
            } else {
                key.to_owned()
            };
            return Err(
                ConfigError::Validation(text::cat3("API key bị trùng: ", head.as_str(), "...")),
            );
        }
        Ok(())
    }

    /// Drops the accounts whose key another account before them has.
    pub fn dedup_accounts(&mut self)
        ensures
            final(self).accounts@ == distinct_accounts(
                old(self).accounts@,
                old(self).accounts@.len() as int,
            ),
            *final(self) == (Config { accounts: final(self).accounts, ..*old(self) }),
    {
        let mut rest: Vec<Account> = Vec::new();
        std::mem::swap(&mut rest, &mut self.accounts);
        let ghost all = rest@;
        let ghost keys = account_keys(all);
        let mut seen: Vec<String> = Vec::new();
        let mut kept: Vec<Account> = Vec::new();
        let ghost mut done: int = 0;
        assert(all.subrange(0, all.len() as int) =~= all);
        while rest.len() > 0
            invariant
                0 <= done <= all.len(),
                rest@ == all.subrange(done, all.len() as int),
                keys == account_keys(all),
                text::strs(seen@) == keys.take(done),
                kept@ == distinct_accounts(all, done),
            decreases rest@.len(),
        {
            let account = rest.remove(0);
            assert(account == all[done]);
            let key = if account.email.as_str().is_empty() {
                account.mobile.clone()
            } else {
                account.email.clone()
            };
            assert(key@ == keys[done]);
            assert(seen@.len() == done) by {
                assert(text::strs(seen@).len() == keys.take(done).len());
            }
            let mut known = false;
            let mut j: usize = 0;
            while j < seen.len()
                invariant
                    j <= seen@.len(),
                    0 <= done < keys.len(),
                    seen@.len() == done,
                    key@ == keys[done],
                    text::strs(seen@) == keys.take(done),
                    known ==> seen_before(keys, done),
                    !known ==> forall|k: int| 0 <= k < j ==> #[trigger] keys[k] != keys[done],
                decreases seen@.len() - j,
            {
                assert(text::strs(seen@)[j as int] == keys[j as int]);
                if text::same(seen[j].as_str(), key.as_str()) {
                    assert(keys[j as int] == keys[done]);
                    known = true;
                }
                j += 1;
            }
            text::add_line(&mut seen, key.as_str());
            assert(keys.take(done + 1) =~= keys.take(done).push(keys[done]));
            if !known {
                kept.push(account);
            }
            assert(rest@ =~= all.subrange(done + 1, all.len() as int));
            proof {
                done = done + 1;
            }
        }
        self.accounts = kept;
    }

    /// Takes over what the environment sets.
    pub fn apply_env_overrides(&mut self, env: &EnvOverrides) -> (r: Result<(), ConfigError>)
        ensures
            match r {
                Ok(_) => overridden(
                    old(self).server,
                    *env,
                    match requested_port(*env) {
                        Some(p) => port_number(p@)->0 as u16,
                        None => old(self).server.port,
                    },
                    final(self).server,
                ) && *final(self) == (Config { server: final(self).server, ..*old(self) }),
                Err(ConfigError::Validation(m)) => *final(self) == *old(self) && requested_port(
                    *env,
                ) is Some && m@ == "PORT/DS_PORT không hợp lệ: "@ + requested_port(*env)->0@,
                Err(_) => false,
            },
            r is Ok <==> port_is_good(*env),
    {
        let port = match &env.port {
            Some(p) => Some(p),
            None => match &env.platform_port {
                Some(p) => Some(p),
                None => None,
            },
        };
        if let Some(port) = port {
            match parse_port(port.as_str()) {
                Some(p) => {
                    self.server.port = p;
                },
                None => {
                    return Err(
                        ConfigError::Validation(
                            text::cat2("PORT/DS_PORT không hợp lệ: ", port.as_str()),
                        ),
                    );
                },
            }
        }
        if let Some(host) = &env.host {
            let host = text::trim(host.as_str());
            if !host.as_str().is_empty() {
                self.server.host = host;
            }
        } else if env.platform_port.is_some() {
            self.server.host = "0.0.0.0".to_owned();
        }
        if let Some(list) = &env.cors_origins {
            let origins = split_names(list.as_str());
            assert(text::strs(origins@).len() == origins@.len());
            if origins.len() > 0 {
                self.server.cors_origins = origins;
            }
        }
        Ok(())
    }
}

impl Config {
    /// Whether `settle` can write its message, if it has one.
    pub fn can_settle(&self, env: &EnvOverrides) -> (r: bool)
        ensures
            r == (port_is_good(*env) ==> can_be_validated(*self)),
    {
        let port = match &env.port {
            Some(p) => Some(p),
            None => env.platform_port.as_ref(),
        };
        let good = match port {
            Some(p) => parse_port(p.as_str()).is_some(),
            None => true,
        };
        !good || self.can_validate()
    }

    /// Makes a configuration that was read ready for use: repeated accounts go,
    /// the environment's settings come in, and the whole is checked.
    pub fn settle(&mut self, env: &EnvOverrides) -> (r: Result<(), ConfigError>)
        requires
            port_is_good(*env) ==> can_be_validated(*old(self)),
        ensures
            final(self).accounts@ == distinct_accounts(
                old(self).accounts@,
                old(self).accounts@.len() as int,
            ),
            *final(self) == (Config {
                accounts: final(self).accounts,
                server: final(self).server,
                ..*old(self)
            }),
            match r {
                Ok(_) => validation_error(*old(self)) is None && overridden(
                    old(self).server,
                    *env,
                    match requested_port(*env) {
                        Some(p) => port_number(p@)->0 as u16,
                        None => old(self).server.port,
                    },
                    final(self).server,
                ),
                Err(ConfigError::Validation(m)) => if !port_is_good(*env) {
                    m@ == "PORT/DS_PORT không hợp lệ: "@ + requested_port(*env)->0@
                } else {
                    validation_error(*old(self)) == Some(m@)
                },
                Err(_) => false,
            },
            r is Ok <==> port_is_good(*env) && validation_error(*old(self)) is None,
    {
        self.dedup_accounts();
        if let Err(e) = self.apply_env_overrides(env) {
            return Err(e);
        }
        self.validate()
    }
}

/// Among accounts without repeated keys no two have the same key.
pub proof fn law_distinct_accounts_differ(accounts: Seq<Account>, n: int)
    requires
        0 <= n <= accounts.len(),
    ensures
        forall|i: int, j: int|
            0 <= i < j < distinct_accounts(accounts, n).len() ==> account_key(
                #[trigger] distinct_accounts(accounts, n)[i],
            ) != account_key(#[trigger] distinct_accounts(accounts, n)[j]),
        forall|i: int|
            0 <= i < distinct_accounts(accounts, n).len() ==> exists|k: int|
                0 <= k < n && accounts[k] == #[trigger] distinct_accounts(accounts, n)[i],
    decreases n,
{
    if n > 0 {
        law_distinct_accounts_differ(accounts, n - 1);
        let before = distinct_accounts(accounts, n - 1);
        let after = distinct_accounts(accounts, n);
        let keys = account_keys(accounts);
        assert forall|i: int, j: int| 0 <= i < j < after.len() implies account_key(
            #[trigger] after[i],
        ) != account_key(#[trigger] after[j]) by {
            assert(after[i] == before[i]);
            if j < before.len() {
                assert(after[j] == before[j]);
            } else {
                let k = choose|k: int| 0 <= k < n - 1 && accounts[k] == before[i];
                assert(keys[k] == account_key(before[i]));
                assert(keys[n - 1] == account_key(accounts[n - 1]));
            }
        }
        assert forall|i: int| 0 <= i < after.len() implies exists|k: int|
            0 <= k < n && accounts[k] == #[trigger] after[i] by {
            if i < before.len() {
                assert(after[i] == before[i]);
                let k = choose|k: int| 0 <= k < n - 1 && accounts[k] == before[i];
                assert(accounts[k] == after[i]);
            } else {
                assert(accounts[n - 1] == after[i]);
            }
        }
    }
}

/// No account is lost: one with its key is kept.
pub proof fn law_every_key_is_kept(accounts: Seq<Account>, n: int, i: int)
    requires
        0 <= i < n <= accounts.len(),
    ensures
        exists|k: int|
            0 <= k < distinct_accounts(accounts, n).len() && account_key(
                #[trigger] distinct_accounts(accounts, n)[k],
            ) == account_key(accounts[i]),
    decreases n,
{
    let before = distinct_accounts(accounts, n - 1);
    let after = distinct_accounts(accounts, n);
    let keys = account_keys(accounts);
    if i < n - 1 {
        law_every_key_is_kept(accounts, n - 1, i);
        let k = choose|k: int|
            0 <= k < before.len() && account_key(#[trigger] before[k]) == account_key(accounts[i]);
        assert(after[k] == before[k]);
    } else if seen_before(keys, n - 1) {
        let j = choose|j: int| 0 <= j < n - 1 && #[trigger] keys[j] == keys[n - 1];
        law_every_key_is_kept(accounts, n - 1, j);
        let k = choose|k: int|
            0 <= k < before.len() && account_key(#[trigger] before[k]) == account_key(accounts[j]);
        assert(after[k] == before[k]);
    } else {
        assert(after[after.len() - 1] == accounts[n - 1]);
    }
}

/// Dropping repeated accounts twice is dropping them once.
pub proof fn law_dedup_is_idempotent(accounts: Seq<Account>)
    ensures
        ({
            let once = distinct_accounts(accounts, accounts.len() as int);
            distinct_accounts(once, once.len() as int) == once
        }),
{
    let once = distinct_accounts(accounts, accounts.len() as int);
    law_distinct_accounts_differ(accounts, accounts.len() as int);
    lemma_distinct_fixed(once, once.len() as int);
    assert(once.take(once.len() as int) =~= once);
}

proof fn lemma_distinct_fixed(accounts: Seq<Account>, n: int)
    requires
        0 <= n <= accounts.len(),
        forall|i: int, j: int|
            0 <= i < j < accounts.len() ==> account_key(#[trigger] accounts[i]) != account_key(
                #[trigger] accounts[j],
            ),
    ensures
        distinct_accounts(accounts, n) == accounts.take(n),
    decreases n,
{
    if n == 0 {
        assert(accounts.take(0) =~= Seq::empty());
    } else {
        lemma_distinct_fixed(accounts, n - 1);
        let keys = account_keys(accounts);
        assert(!seen_before(keys, n - 1)) by {
            if seen_before(keys, n - 1) {
                let j = choose|j: int| 0 <= j < n - 1 && #[trigger] keys[j] == keys[n - 1];
                assert(account_key(accounts[j]) == account_key(accounts[n - 1]));
            }
        }
        assert(accounts.take(n) =~= accounts.take(n - 1).push(accounts[n - 1]));
    }
}

proof fn lemma_with_keys(
    m: Map<Seq<char>, Seq<char>>,
    keys: Seq<Seq<char>>,
    n: int,
    value: Seq<char>,
    key: Seq<char>,
)
    requires
        0 <= n <= keys.len(),
    ensures
        with_keys(m, keys, n, value).contains_key(key) <==> m.contains_key(key) || keys.take(
            n,
        ).contains(key),
        keys.take(n).contains(key) ==> with_keys(m, keys, n, value)[key] == value,
        !keys.take(n).contains(key) && m.contains_key(key) ==> with_keys(m, keys, n, value)[key]
            == m[key],
    decreases n,
{
    if n > 0 {
        lemma_with_keys(m, keys, n - 1, value, key);
        assert(keys.take(n) =~= keys.take(n - 1).push(keys[n - 1]));
        if key == keys[n - 1] {
            assert(keys.take(n)[n - 1] == key);
        } else if keys.take(n - 1).contains(key) {
            let head = keys.take(n - 1);
            let k = choose|k: int| 0 <= k < head.len() && #[trigger] head[k] == key;
            assert(keys.take(n)[k] == key);
        }
        if keys.take(n).contains(key) && key != keys[n - 1] {
            let all = keys.take(n);
            let k = choose|k: int| 0 <= k < all.len() && #[trigger] all[k] == key;
            assert(keys.take(n - 1)[k] == key);
        }
    }
}

/// The registry knows every key of every model type.
pub proof fn law_registry_knows_every_name(
    types: Seq<Seq<char>>,
    aliases: Seq<Seq<char>>,
    n: int,
    i: int,
    k: int,
)
    requires
        0 <= i < n <= types.len(),
        0 <= k < keys_of(types, aliases, i).len(),
    ensures
        registry_of(types, aliases, n).contains_key(keys_of(types, aliases, i)[k]),
    decreases n,
{
    let keys = keys_of(types, aliases, n - 1);
    let key = keys_of(types, aliases, i)[k];
    lemma_with_keys(
        registry_of(types, aliases, n - 1),
        keys,
        keys.len() as int,
        types[n - 1],
        key,
    );
    if i == n - 1 {
        assert(keys.take(keys.len() as int)[k] == key);
    } else {
        law_registry_knows_every_name(types, aliases, n - 1, i, k);
    }
}

/// Every key that the registry knows leads to a model type that has that key,
/// and no later model type has it.
pub proof fn law_registry_leads_to_owner(
    types: Seq<Seq<char>>,
    aliases: Seq<Seq<char>>,
    n: int,
    key: Seq<char>,
)
    requires
        0 <= n <= types.len(),
        registry_of(types, aliases, n).contains_key(key),
    ensures
        exists|i: int|
            0 <= i < n && (#[trigger] keys_of(types, aliases, i)).contains(key) && registry_of(
                types,
                aliases,
                n,
            )[key] == types[i] && (forall|j: int|
                i < j < n ==> !(#[trigger] keys_of(types, aliases, j)).contains(key)),
    decreases n,
{
    if n > 0 {
        let keys = keys_of(types, aliases, n - 1);
        let before = registry_of(types, aliases, n - 1);
        lemma_with_keys(before, keys, keys.len() as int, types[n - 1], key);
        assert(keys.take(keys.len() as int) =~= keys);
        if keys.contains(key) {
            assert(keys_of(types, aliases, n - 1).contains(key));
        } else {
            law_registry_leads_to_owner(types, aliases, n - 1, key);
            let i = choose|i: int|
                0 <= i < n - 1 && (#[trigger] keys_of(types, aliases, i)).contains(key)
                    && before[key] == types[i] && (forall|j: int|
                    i < j < n - 1 ==> !(#[trigger] keys_of(types, aliases, j)).contains(key));
            assert(keys_of(types, aliases, i).contains(key));
        }
    }
}

/// The configuration file that the arguments from position `i` on name, given
/// one named before; `Err` where `-c` ends them.
pub open spec fn named_path(
    args: Seq<Seq<char>>,
    i: int,
    before: Option<Seq<char>>,
) -> Result<Option<Seq<char>>, ()>
    decreases args.len() - i,
{
    if i < 0 || i >= args.len() {
        Ok(before)
    } else if args[i] == "-c"@ {
        if i + 1 < args.len() {
            named_path(args, i + 2, Some(args[i + 1]))
        } else {
            Err(())
        }
    } else {
        named_path(args, i + 1, before)
    }
}

/// The configuration file that the command line names after `-c`, the last
/// where there are several. The first argument is the program's name.
pub fn parse_args(args: &Vec<String>) -> (r: Result<Option<String>, ConfigError>)
    ensures
        match r {
            Ok(path) => named_path(text::strs(args@), 1, None) == Ok::<Option<Seq<char>>, ()>(
                path.deep_view(),
            ),
            Err(ConfigError::Cli(m)) => named_path(text::strs(args@), 1, None) is Err && m@
                == "Tham số -c cần đường dẫn cấu hình"@,
            Err(_) => false,
        },
{
    let mut path: Option<String> = None;
    let ghost all = text::strs(args@);
    let mut i: usize = 1;
    while i < args.len()
        invariant
            1 <= i,
            all == text::strs(args@),
            i <= args@.len() || named_path(all, i as int, path.deep_view()) == Ok::<
                Option<Seq<char>>,
                (),
            >(path.deep_view()),
            named_path(all, 1, None) == named_path(all, i as int, path.deep_view()),
        decreases args@.len() - i,
    {
        if text::same(args[i].as_str(), "-c") {
            if i + 1 < args.len() {
                path = Some(args[i + 1].clone());
                i += 2;
            } else {
                return Err(ConfigError::Cli("Tham số -c cần đường dẫn cấu hình".to_owned()));
            }
        } else {
            i += 1;
        }
    }
    Ok(path)
}

/// What to do about a configuration file.
#[derive(Debug)]
pub enum LoadPlan {
    /// Read it.
    Read(String),
    /// Write the minimal configuration to it.
    Create(String),
    /// Report that it is missing.
    Missing(String),
}

/// The file to use: the one named, else the environment's, else the default.
pub open spec fn chosen_path(named: Option<Seq<char>>, env: Option<Seq<char>>) -> Seq<char> {
    match named {
        Some(p) => p,
        None => match env {
            Some(p) => p,
            None => "config.toml"@,
        },
    }
}

/// The file to use: the one named, else the environment's, else the default.
pub fn choose_path(named: &Option<String>, env: &Option<String>) -> (r: String)
    ensures
        r@ == chosen_path(named.deep_view(), env.deep_view()),
{
    match named {
        Some(p) => p.clone(),
        None => match env {
            Some(p) => p.clone(),
            None => "config.toml".to_owned(),
        },
    }
}

/// What to do about the file at `path`: a missing one is created, unless the
/// command line named it.
pub fn plan_load(path: String, named: bool, exists: bool) -> (r: LoadPlan)
    ensures
        r == (if exists {
            LoadPlan::Read(path)
        } else if named {
            LoadPlan::Missing(path)
        } else {
            LoadPlan::Create(path)
        }),
{
    if exists {
        LoadPlan::Read(path)
    } else if named {
        LoadPlan::Missing(path)
    } else {
        LoadPlan::Create(path)
    }
}

/// The complaint that the configuration file at `path` is missing.
pub fn missing_file(path: &str) -> (r: ConfigError)
    ensures
        r matches ConfigError::Io(m) && m@ == "Tệp cấu hình được chỉ định không tồn tại: "@ + path@,
{
    ConfigError::Io(text::cat2("Tệp cấu hình được chỉ định không tồn tại: ", path))
}

/// Of the accounts with one key the first is the one that stays.
pub proof fn law_first_account_of_a_key_stays(accounts: Seq<Account>, n: int, i: int)
    requires
        0 <= i < n <= accounts.len(),
        forall|j: int|
            0 <= j < i ==> account_key(#[trigger] accounts[j]) != account_key(accounts[i]),
    ensures
        distinct_accounts(accounts, n).contains(accounts[i]),
    decreases n,
{
    let keys = account_keys(accounts);
    let after = distinct_accounts(accounts, n);
    if i == n - 1 {
        if seen_before(keys, i) {
            let j = choose|j: int| 0 <= j < i && #[trigger] keys[j] == keys[i];
            assert(account_key(accounts[j]) == account_key(accounts[i]));
        }
        assert(after[after.len() - 1] == accounts[i]);
    } else {
        law_first_account_of_a_key_stays(accounts, n - 1, i);
        let before = distinct_accounts(accounts, n - 1);
        let k = choose|k: int| 0 <= k < before.len() && before[k] == accounts[i];
        assert(after[k] == accounts[i]);
    }
}

/// An account is known by its email, or by its mobile number where it has none.
pub proof fn law_account_is_known_by_its_email_first(a: Account)
    ensures
        a.email@.len() > 0 ==> account_key(a) == a.email@,
        a.email@.len() == 0 ==> account_key(a) == a.mobile@,
{
}

/// The accounts that stay keep their order.
pub proof fn law_accounts_keep_their_order(accounts: Seq<Account>, m: int, n: int)
    requires
        0 <= m <= n <= accounts.len(),
    ensures
        ({
            let few = distinct_accounts(accounts, m);
            let all = distinct_accounts(accounts, n);
            few.len() <= all.len() && all.take(few.len() as int) == few
        }),
    decreases n,
{
    if m == n {
        let all = distinct_accounts(accounts, n);
        assert(all.take(all.len() as int) =~= all);
    } else {
        law_accounts_keep_their_order(accounts, m, n - 1);
        let few = distinct_accounts(accounts, m);
        let before = distinct_accounts(accounts, n - 1);
        let all = distinct_accounts(accounts, n);
        assert(all.take(few.len() as int) =~= before.take(few.len() as int));
    }
}

proof fn lemma_first_repeat(texts: Seq<Seq<char>>, i: int)
    requires
        0 <= i,
    ensures
        match first_repeat(texts, i) {
            Some(k) => i <= k < texts.len() && seen_before(texts, k) && forall|j: int|
                i <= j < k ==> !seen_before(texts, j),
            None => forall|j: int| i <= j < texts.len() ==> !seen_before(texts, j),
        },
    decreases texts.len() - i,
{
    if i < texts.len() && !seen_before(texts, i) {
        lemma_first_repeat(texts, i + 1);
    }
}

/// A configuration is good exactly where it has model types, a limit of each
/// kind for each of them, sound settings for condensing where that is on, and no
/// API key twice.
pub proof fn law_good_configuration(c: Config)
    ensures
        validation_error(c) is None <==> {
            let n = c.deepseek.model_types@.len();
            &&& n > 0
            &&& c.deepseek.max_input_tokens@.len() == n
            &&& c.deepseek.max_output_tokens@.len() == n
            &&& c.deepseek.input_character_limits@.len() == n
            &&& c.context.enabled ==> c.context.keep_last_messages > 0 && c.context.trigger_chars
                >= c.context.prewarm_chars && c.context.chunk_chars > 0
                && c.context.summary_workers > 0
            &&& forall|i: int, j: int|
                0 <= i < j < c.api_keys@.len() ==> (#[trigger] c.api_keys@[i]).key@ != (
                #[trigger] c.api_keys@[j]).key@
        },
{
    let texts = key_texts(c.api_keys@);
    lemma_first_repeat(texts, 0);
    if first_repeat(texts, 0) is None {
        assert forall|i: int, j: int| 0 <= i < j < c.api_keys@.len() implies (
        #[trigger] c.api_keys@[i]).key@ != (#[trigger] c.api_keys@[j]).key@ by {
            assert(!seen_before(texts, j));
            assert(texts[i] != texts[j]);
        }
    } else {
        let j = first_repeat(texts, 0)->0;
        let i = choose|i: int| 0 <= i < j && #[trigger] texts[i] == texts[j];
        assert(c.api_keys@[i].key@ == c.api_keys@[j].key@);
    }
}

/// The complaint about a key that is there twice shows only its beginning.
pub proof fn law_key_is_shown_in_part(key: Seq<char>)
    requires
        cuts_cleanly(key),
    ensures
        ({
            let all = vstd::utf8::encode_utf8(key);
            &&& all.len() <= 12 ==> key_head(key) == key
            &&& all.len() > 12 ==> vstd::utf8::encode_utf8(key_head(key)) == all.subrange(0, 12)
        }),
{
    let all = vstd::utf8::encode_utf8(key);
    if all.len() > 12 {
        vstd::utf8::encode_utf8_valid_utf8(key);
        vstd::utf8::valid_utf8_split(all, 12);
        vstd::utf8::decode_utf8_encode_utf8(all.subrange(0, 12));
    }
}

proof fn lemma_names_among(pieces: Seq<Seq<char>>, n: int, name: Seq<char>)
    requires
        0 <= n <= pieces.len(),
    ensures
        names_among(pieces, n).contains(name) <==> name.len() > 0 && exists|i: int|
            0 <= i < n && text::trimmed(#[trigger] pieces[i]) == name,
    decreases n,
{
    if n > 0 {
        lemma_names_among(pieces, n - 1, name);
        let before = names_among(pieces, n - 1);
        let last = text::trimmed(pieces[n - 1]);
        let all = names_among(pieces, n);
        if last.len() > 0 {
            assert(all[all.len() - 1] == last);
            if before.contains(name) {
                let k = choose|k: int| 0 <= k < before.len() && before[k] == name;
                assert(all[k] == name);
            }
            if all.contains(name) && name != last {
                let k = choose|k: int| 0 <= k < all.len() && all[k] == name;
                assert(before[k] == name);
            }
        }
        if name.len() > 0 && (exists|i: int|
            0 <= i < n && text::trimmed(#[trigger] pieces[i]) == name) && name != last {
            let i = choose|i: int| 0 <= i < n && text::trimmed(#[trigger] pieces[i]) == name;
            assert(0 <= i < n - 1 && text::trimmed(pieces[i]) == name);
        }
    }
}

/// The names in a list are what stands between its commas, without the white
/// space around it; what is blank is no name.
pub proof fn law_listed_names_stand_between_commas(list: Seq<char>, name: Seq<char>)
    ensures
        ({
            let pieces = text::split_from(list, ","@, 0);
            &&& text::joined(pieces, ","@, pieces.len() as int) == list
            &&& listed_names(list).contains(name) <==> name.len() > 0 && exists|i: int|
                0 <= i < pieces.len() && text::trimmed(#[trigger] pieces[i]) == name
        }),
{
    reveal_strlit(",");
    let pieces = text::split_from(list, ","@, 0);
    text::law_split_joins_back(list, ","@, 0);
    assert(list.subrange(0, list.len() as int) =~= list);
    lemma_names_among(pieces, pieces.len() as int, name);
}

/// Every model type is found under its own name, whatever the case, and under
/// each of its listed names.
pub proof fn law_every_model_type_is_found(
    types: Seq<Seq<char>>,
    aliases: Seq<Seq<char>>,
    i: int,
    k: int,
)
    requires
        0 <= i < types.len(),
    ensures
        ({
            let registry = registry_of(types, aliases, types.len() as int);
            &&& registry.contains_key(text::lowercase("deepseek-"@ + types[i]))
            &&& i < aliases.len() && 0 <= k < listed_names(aliases[i]).len()
                ==> registry.contains_key(text::lowercase(listed_names(aliases[i])[k]))
            &&& i + 1 == types.len() ==> registry[text::lowercase("deepseek-"@ + types[i])]
                == types[i]
        }),
{
    let keys = keys_of(types, aliases, i);
    assert(keys[0] == text::lowercase(base_name(types[i])));
    law_registry_knows_every_name(types, aliases, types.len() as int, i, 0);
    if i < aliases.len() && 0 <= k < listed_names(aliases[i]).len() {
        let at = 1 + builtin_names(types[i]).len() + k;
        assert(keys[at] == text::lowercase(listed_names(aliases[i])[k]));
        law_registry_knows_every_name(types, aliases, types.len() as int, i, at);
    }
    if i + 1 == types.len() {
        let key = keys[0];
        law_registry_leads_to_owner(types, aliases, types.len() as int, key);
        assert(keys.contains(key));
    }
}

/// A port is written in decimal, with a plus sign or without, and is no larger
/// than a port can be.
pub proof fn law_ports_are_numbers(n: nat)
    ensures
        n <= 65_535 ==> port_number(text::decimal(n)) == Some(n) && port_number(
            "+"@ + text::decimal(n),
        ) == Some(n),
        n > 65_535 ==> port_number(text::decimal(n)) is None,
        port_number(Seq::empty()) is None,
{
    text::law_decimal_reads_back(n);
    reveal_strlit("+");
    let s = text::decimal(n);
    let plus = "+"@ + s;
    assert(48 <= s[0] as int <= 57);
    assert(plus.subrange(1, plus.len() as int) =~= s);
}

/// The environment's own port counts before that of the platform, and a host or
/// origins count only where they say something.
pub proof fn law_environment_comes_first(
    before: ServerConfig,
    env: EnvOverrides,
    port: u16,
    after: ServerConfig,
)
    requires
        overridden(before, env, port, after),
    ensures
        env.port is Some ==> requested_port(env) == env.port,
        env.port is None ==> requested_port(env) == env.platform_port,
        after.port == port,
        env.host matches Some(h) ==> (text::trimmed(h@).len() > 0 ==> after.host@
            == text::trimmed(h@)) && (text::trimmed(h@).len() == 0 ==> after.host@ == before.host@),
        env.host is None && env.platform_port is Some ==> after.host@ == "0.0.0.0"@,
        env.host is None && env.platform_port is None ==> after.host@ == before.host@,
        env.cors_origins matches Some(l) ==> (listed_names(l@).len() > 0 ==> text::strs(
            after.cors_origins@,
        ) == listed_names(l@)),
        env.cors_origins is None ==> text::strs(after.cors_origins@) == text::strs(
            before.cors_origins@,
        ),
{
}

/// The file that the command line names last is the one that counts; arguments
/// other than `-c` and what follows it name none.
pub proof fn law_last_named_file_counts(args: Seq<Seq<char>>, i: int, before: Option<Seq<char>>)
    requires
        0 <= i <= args.len(),
    ensures
        (forall|k: int| i <= k < args.len() ==> #[trigger] args[k] != "-c"@) ==> named_path(
            args,
            i,
            before,
        ) == Ok::<Option<Seq<char>>, ()>(before),
        i + 1 < args.len() && args[i] == "-c"@ && (forall|k: int|
            i + 2 <= k < args.len() ==> #[trigger] args[k] != "-c"@) ==> named_path(args, i, before)
            == Ok::<Option<Seq<char>>, ()>(Some(args[i + 1])),
        i + 1 == args.len() && args[i] == "-c"@ ==> named_path(args, i, before) is Err,
    decreases args.len() - i,
{
    if i < args.len() {
        law_last_named_file_counts(args, i + 1, before);
        if args[i] == "-c"@ && i + 1 < args.len() {
            law_last_named_file_counts(args, i + 2, Some(args[i + 1]));
        }
    }
}

/// The file to use is the one named, else that of the environment, else the
/// usual one.
pub proof fn law_named_file_comes_first(named: Option<Seq<char>>, env: Option<Seq<char>>)
    ensures
        named matches Some(p) ==> chosen_path(named, env) == p,
        named is None ==> (env matches Some(p) ==> chosen_path(named, env) == p),
        named is None && env is None ==> chosen_path(named, env) == "config.toml"@,
{
}

/// The usual configuration of the back end is in order: it has a limit of each
/// kind and a list of names for each model type, and an end for each start of a
/// tool call.
pub proof fn law_usual_back_end_is_in_order(c: DeepSeekConfig, i: int)
    requires
        usual_back_end(c),
        0 <= i < c.model_types@.len(),
    ensures
        c.max_input_tokens@.len() == c.model_types@.len(),
        c.max_output_tokens@.len() == c.model_types@.len(),
        c.input_character_limits@.len() == c.model_types@.len(),
        c.model_aliases@.len() == c.model_types@.len(),
        c.max_input_tokens@[i] > c.max_output_tokens@[i] && c.max_output_tokens@[i] > 0,
        c.tool_call.extra_starts@.len() == c.tool_call.extra_ends@.len(),
        builtin_names(c.model_types@[i]@).len() > 0,
{
    assert(text::strs(c.model_types@).len() == c.model_types@.len());
    assert(text::strs(c.model_aliases@).len() == c.model_aliases@.len());
    assert(text::strs(c.tool_call.extra_starts@).len() == c.tool_call.extra_starts@.len());
    assert(text::strs(c.tool_call.extra_ends@).len() == c.tool_call.extra_ends@.len());
    assert(text::strs(c.model_types@)[i] == c.model_types@[i]@);
    assert(i == 0 || i == 1 || i == 2);
}

/// The names that a model type has by itself all begin alike, with the name of its
/// model, and each type has another.
pub proof fn law_builtin_names_tell_the_model(i: int)
    ensures
        0 <= i < builtin_names("default"@).len() ==> text::stands_at(
            builtin_names("default"@)[i],
            "deepseek-v4-flash"@,
            0,
        ),
        0 <= i < builtin_names("expert"@).len() ==> text::stands_at(
            builtin_names("expert"@)[i],
            "deepseek-v4-pro"@,
            0,
        ),
        0 <= i < builtin_names("vision"@).len() ==> text::stands_at(
            builtin_names("vision"@)[i],
            "deepseek-v4-vision"@,
            0,
        ),
{
    reveal_strlit("default");
    reveal_strlit("expert");
    reveal_strlit("vision");
    assert("default"@.len() == 7 && "expert"@.len() == 6 && "vision"@.len() == 6 && "expert"@[0]
        == 'e' && "vision"@[0] == 'v');
    reveal_strlit("deepseek-v4-flash");
    reveal_strlit("deepseek-v4-flash-nothinking");
    reveal_strlit("deepseek-v4-flash-search");
    reveal_strlit("deepseek-v4-flash-search-nothinking");
    reveal_strlit("deepseek-v4-pro");
    reveal_strlit("deepseek-v4-pro-nothinking");
    reveal_strlit("deepseek-v4-pro-search");
    reveal_strlit("deepseek-v4-pro-search-nothinking");
    reveal_strlit("deepseek-v4-vision");
    reveal_strlit("deepseek-v4-vision-nothinking");
    assert("deepseek-v4-flash"@.subrange(0, 17) =~= "deepseek-v4-flash"@);
    assert("deepseek-v4-flash-nothinking"@.subrange(0, 17) =~= "deepseek-v4-flash"@);
    assert("deepseek-v4-flash-search"@.subrange(0, 17) =~= "deepseek-v4-flash"@);
    assert("deepseek-v4-flash-search-nothinking"@.subrange(0, 17) =~= "deepseek-v4-flash"@);
    assert("deepseek-v4-pro"@.subrange(0, 15) =~= "deepseek-v4-pro"@);
    assert("deepseek-v4-pro-nothinking"@.subrange(0, 15) =~= "deepseek-v4-pro"@);
    assert("deepseek-v4-pro-search"@.subrange(0, 15) =~= "deepseek-v4-pro"@);
    assert("deepseek-v4-pro-search-nothinking"@.subrange(0, 15) =~= "deepseek-v4-pro"@);
    assert("deepseek-v4-vision"@.subrange(0, 18) =~= "deepseek-v4-vision"@);
    assert("deepseek-v4-vision-nothinking"@.subrange(0, 18) =~= "deepseek-v4-vision"@);
}

/// Whoever has an API key twice in a configuration that is in order otherwise is
/// told how that key begins.
pub proof fn law_repeated_key_is_named(c: Config, i: int, j: int)
    requires
        shape_error(c) is None,
        0 <= i < j < c.api_keys@.len(),
        c.api_keys@[i].key@ == c.api_keys@[j].key@,
        forall|k: int, l: int|
            0 <= k < l < j ==> (#[trigger] c.api_keys@[k]).key@ != (#[trigger] c.api_keys@[l]).key@,
    ensures
        validation_error(c) matches Some(m) && text::occurs(m, key_head(c.api_keys@[i].key@)),
{
    let texts = key_texts(c.api_keys@);
    lemma_first_repeat(texts, 0);
    assert(texts[i] == texts[j]);
    assert(seen_before(texts, j));
    let k = first_repeat(texts, 0)->0;
    if k < j {
        let l = choose|l: int| 0 <= l < k && #[trigger] texts[l] == texts[k];
        assert(c.api_keys@[l].key@ == c.api_keys@[k].key@);
    }
    text::lemma_occurs_between("API key bị trùng: "@, key_head(c.api_keys@[i].key@), "..."@);
}

/// The complaint about a list of limits tells its name, its length and the length
/// that it should have.
pub proof fn law_lengths_are_told(name: Seq<char>, len: nat, n: nat)
    ensures
        text::occurs(length_text(name, len, n), name),
        text::occurs(length_text(name, len, n), text::decimal(len)),
        text::occurs(length_text(name, len, n), text::decimal(n)),
{
    let t = length_text(name, len, n);
    let a = text::decimal(len);
    let b = text::decimal(n);
    let mid = ") phải khớp độ dài model_types ("@;
    assert(t =~= "Độ dài "@ + name + (" ("@ + a + mid + b + ")"@));
    text::lemma_occurs_between("Độ dài "@, name, " ("@ + a + mid + b + ")"@);
    assert(t =~= ("Độ dài "@ + name + " ("@) + a + (mid + b + ")"@));
    text::lemma_occurs_between("Độ dài "@ + name + " ("@, a, mid + b + ")"@);
    assert(t =~= ("Độ dài "@ + name + " ("@ + a + mid) + b + ")"@);
    text::lemma_occurs_between("Độ dài "@ + name + " ("@ + a + mid, b, ")"@);
}

/// The message of an error ends with the words that it was given.
pub proof fn law_config_errors_keep_their_words(e: ConfigError)
    ensures
        ({
            let m = match e {
                ConfigError::Io(m) => m@,
                ConfigError::Toml(m) => m@,
                ConfigError::Validation(m) => m@,
                ConfigError::Cli(m) => m@,
                ConfigError::TomlSerialization(m) => m@,
            };
            text::stands_at(config_error_text(e), m, config_error_text(e).len() - m.len())
        }),
{
    let m = match e {
        ConfigError::Io(m) => m@,
        ConfigError::Toml(m) => m@,
        ConfigError::Validation(m) => m@,
        ConfigError::Cli(m) => m@,
        ConfigError::TomlSerialization(m) => m@,
    };
    let t = config_error_text(e);
    assert(t.subrange(t.len() - m.len(), t.len() as int) =~= m);
}

} // verus!
