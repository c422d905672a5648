//! JSON values as plain data, and the parser and printer of `serde_json`.

use vstd::prelude::*;

use crate::text;

verus! {

/// A JSON value. A number is held by its shortest printed form.
#[derive(Debug)]
pub enum Json {
    Null,
    Bool(bool),
    Number(String),
    Text(String),
    Array(Vec<Json>),
    Object(Vec<(String, Json)>),
}

/// The JSON value of the `serde_json` crate.
#[verifier::external_type_specification]
#[verifier::external_body]
pub struct ExJsonValue(serde_json::Value);

/// The member named `key` among `members` from position `i` on.
pub open spec fn member_from(members: Seq<(String, Json)>, key: Seq<char>, i: int) -> Option<Json>
    decreases members.len() - i,
{
    if i < 0 || i >= members.len() {
        None
    } else if members[i].0@ == key {
        Some(members[i].1)
    } else {
        member_from(members, key, i + 1)
    }
}

/// The value of a number's printed form, where it is an integer.
pub open spec fn integer_value(s: Seq<char>) -> Option<int> {
    if s.len() > 0 && s[0] == '-' {
        match text::number_value(s.subrange(1, s.len() as int)) {
            Some(v) => Some(-(v as int)),
            None => None,
        }
    } else {
        match text::number_value(s) {
            Some(v) => Some(v as int),
            None => None,
        }
    }
}

impl Json {
    /// The member named `key` of an object.
    pub open spec fn member(self, key: Seq<char>) -> Option<Json> {
        match self {
            Json::Object(members) => member_from(members@, key, 0),
            _ => None,
        }
    }

    /// The text of a JSON string.
    pub open spec fn string(self) -> Option<Seq<char>> {
        match self {
            Json::Text(s) => Some(s@),
            _ => None,
        }
    }

    /// The value of an integer between `low` and `high`.
    pub open spec fn integer(self, low: int, high: int) -> Option<int> {
        match self {
            Json::Number(s) => match integer_value(s@) {
                Some(v) => if low <= v <= high {
                    Some(v)
                } else {
                    None
                },
                None => None,
            },
            _ => None,
        }
    }

    /// The value of an integer that fits in 64 bits with a sign.
    pub open spec fn int64(self) -> Option<int> {
        self.integer(i64::MIN as int, i64::MAX as int)
    }

    /// The value of an integer that fits in 64 bits without a sign.
    pub open spec fn uint64(self) -> Option<int> {
        self.integer(0, u64::MAX as int)
    }

    /// The text of the string member named `key`.
    pub open spec fn string_member(self, key: Seq<char>) -> Option<Seq<char>> {
        match self.member(key) {
            Some(v) => v.string(),
            None => None,
        }
    }

    /// The member named `key` of an object.
    pub fn get(&self, key: &str) -> (r: Option<&Json>)
        ensures
            match r {
                Some(v) => self.member(key@) == Some(*v),
                None => self.member(key@) is None,
            },
    {
        match self {
            Json::Object(members) => {
                let mut i: usize = 0;
                while i < members.len()
                    invariant
                        i <= members@.len(),
                        *self == Json::Object(*members),
                        member_from(members@, key@, 0) == member_from(members@, key@, i as int),
                    decreases members@.len() - i,
                {
                    if text::same(members[i].0.as_str(), key) {
                        return Some(&members[i].1);
                    }
                    i += 1;
                }
                None
            },
            _ => None,
        }
    }

    /// The text of a JSON string.
    pub fn as_str(&self) -> (r: Option<&String>)
        ensures
            match r {
                Some(s) => self.string() == Some(s@) && *self == Json::Text(*s),
                None => self.string() is None,
            },
    {
        match self {
            Json::Text(s) => Some(s),
            _ => None,
        }
    }

    /// The text of the string member named `key`.
    pub fn get_str(&self, key: &str) -> (r: Option<&String>)
        ensures
            match r {
                Some(s) => self.string_member(key@) == Some(s@),
                None => self.string_member(key@) is None,
            },
    {
        match self.get(key) {
            Some(v) => v.as_str(),
            None => None,
        }
    }

    /// The value of an integer that fits in 64 bits with a sign.
    pub fn as_i64(&self) -> (r: Option<i64>)
        ensures
            match r {
                Some(v) => self.int64() == Some(v as int),
                None => self.int64() is None,
            },
    {
        match self {
            Json::Number(s) => {
                let v = text::chars_of(s.as_str());
                if v.len() > 0 && v[0] == '-' {
                    let rest = text::text_of(&v, 1, v.len());
                    let limit: u64 = 9_223_372_036_854_775_808;
                    match text::parse_number(rest.as_str(), limit) {
                        Some(n) => {
                            let m: i128 = -(n as i128);
                            Some(m as i64)
                        },
                        None => None,
                    }
                } else {
                    let limit: u64 = 9_223_372_036_854_775_807;
                    match text::parse_number(s.as_str(), limit) {
                        Some(n) => Some(n as i64),
                        None => None,
                    }
                }
            },
            _ => None,
        }
    }

    /// The value of an integer that fits in 64 bits without a sign.
    pub fn as_u64(&self) -> (r: Option<u64>)
        ensures
            match r {
                Some(v) => self.uint64() == Some(v as int),
                None => self.uint64() is None,
            },
    {
        match self {
            Json::Number(s) => {
                let v = text::chars_of(s.as_str());
                if v.len() > 0 && v[0] == '-' {
                    let rest = text::text_of(&v, 1, v.len());
                    match text::parse_number(rest.as_str(), 0) {
                        Some(n) => Some(0),
                        None => None,
                    }
                } else {
                    text::parse_number(s.as_str(), u64::MAX)
                }
            },
            _ => None,
        }
    }

    /// A number from an integer.
    pub fn from_u64(n: u64) -> (r: Json)
        ensures
            r matches Json::Number(s) && s@ == text::decimal(n as nat),
    {
        Json::Number(text::decimal_of(n))
    }

    /// A string from a text.
    pub fn from_str(s: &str) -> (r: Json)
        ensures
            r.string() == Some(s@),
    {
        Json::Text(s.to_owned())
    }
}

/// A member of an object is a smaller value than the object.
pub proof fn lemma_member_smaller(v: Json, key: Seq<char>)
    ensures
        v.member(key) matches Some(x) ==> decreases_to!(v => x),
{
    if let Json::Object(members) = v {
        lemma_member_from_smaller(v, members, key, 0);
    }
}

proof fn lemma_member_from_smaller(v: Json, members: Vec<(String, Json)>, key: Seq<char>, i: int)
    requires
        v == Json::Object(members),
    ensures
        member_from(members@, key, i) matches Some(x) ==> decreases_to!(v => x),
    decreases members@.len() - i,
{
    if 0 <= i < members@.len() {
        if members@[i].0@ == key {
            assert(decreases_to!(v => v->Object_0));
            assert(decreases_to!(members => members@));
            assert(decreases_to!(members@ => members@[i]));
            assert(decreases_to!(members@[i] => members@[i].1));
        } else {
            lemma_member_from_smaller(v, members, key, i + 1);
        }
    }
}

/// A text that a JSON string holds without escapes.
pub open spec fn is_plain(s: Seq<char>) -> bool {
    forall|i: int| 0 <= i < s.len() ==> s[i] as int >= 32 && s[i] != '"' && s[i] != '\\'
}

/// The integer member named `key` of an object, without a sign.
pub open spec fn uint64_member(v: Json, key: Seq<char>) -> Option<int> {
    match v.member(key) {
        Some(x) => x.uint64(),
        None => None,
    }
}

/// The integer member named `key` of an object, without a sign.
pub fn get_u64(v: &Json, key: &str) -> (r: Option<u64>)
    ensures
        match r {
            Some(n) => uint64_member(*v, key@) == Some(n as int),
            None => uint64_member(*v, key@) is None,
        },
{
    match v.get(key) {
        Some(x) => x.as_u64(),
        None => None,
    }
}

/// The claims of a token, as they are written.
pub open spec fn claims_text(iat: nat, exp: nat) -> Seq<char> {
    "{\"sub\":\"admin\",\"iat\":"@ + text::decimal(iat) + ",\"exp\":"@ + text::decimal(exp) + "}"@
}

/// The claims of a token, as they are written.
pub fn claims(iat: u64, exp: u64) -> (r: String)
    ensures
        r@ == claims_text(iat as nat, exp as nat),
{
    let i = text::decimal_of(iat);
    let e = text::decimal_of(exp);
    text::cat5("{\"sub\":\"admin\",\"iat\":", i.as_str(), ",\"exp\":", e.as_str(), "}")
}

/// The value is an object with these claims.
pub open spec fn has_claims(v: Json, iat: int, exp: int) -> bool {
    &&& v is Object
    &&& v.string_member("sub"@) == Some("admin"@)
    &&& uint64_member(v, "iat"@) == Some(iat)
    &&& uint64_member(v, "exp"@) == Some(exp)
}

/// What `serde_json::from_slice` reads from bytes, `None` for an error.
pub uninterp spec fn parsed_bytes(b: Seq<u8>) -> Option<Json>;

/// `serde_json::from_slice` into a `serde_json::Value`: the result is a
/// function of the bytes. The bytes of written claims are read back as an object
/// with these claims.
#[verifier::external_body]
pub(crate) fn parse_bytes(b: &[u8]) -> (r: Option<Json>)
    ensures
        r == parsed_bytes(b@),
        forall|iat: u64, exp: u64| b@ == vstd::utf8::encode_utf8(#[trigger] claims_text(iat as nat, exp as nat)) ==> r is Some && has_claims(r->0, iat as int, exp as int),
{
    serde_json::from_slice::<serde_json::Value>(b).ok().map(from_value)
}

/// What `serde_json::from_str` reads from a text, `None` for an error.
pub uninterp spec fn parsed(s: Seq<char>) -> Option<Json>;

/// What `serde_json::to_string` prints for a value, `None` for an error.
pub uninterp spec fn printed(v: Json) -> Option<Seq<char>>;

/// What `serde_json::to_string` prints for a text.
pub uninterp spec fn quoted(s: Seq<char>) -> Seq<char>;

/// Turns a value of `serde_json` into one of this library, member by member.
/// Nothing is claimed of the result.
#[verifier::external_body]
fn from_value(v: serde_json::Value) -> (r: Json) {
    match v {
        serde_json::Value::Null => Json::Null,
        serde_json::Value::Bool(b) => Json::Bool(b),
        serde_json::Value::Number(n) => Json::Number(n.to_string()),
        serde_json::Value::String(s) => Json::Text(s),
        serde_json::Value::Array(a) => Json::Array(a.into_iter().map(from_value).collect()),
        serde_json::Value::Object(m) => {
            Json::Object(m.into_iter().map(|(k, x)| (k, from_value(x))).collect())
        },
    }
}

/// Turns a value of this library into one of `serde_json`, member by member;
/// `None` where a number's text is no JSON number. Nothing is claimed of the
/// result.
#[verifier::external_body]
fn to_value(v: &Json) -> (r: Option<serde_json::Value>) {
    Some(match v {
        Json::Null => serde_json::Value::Null,
        Json::Bool(b) => serde_json::Value::Bool(*b),
        Json::Number(s) => serde_json::Value::Number(s.parse().ok()?),
        Json::Text(s) => serde_json::Value::String(s.clone()),
        Json::Array(a) => serde_json::Value::Array(a.iter().map(to_value).collect::<Option<_>>()?),
        Json::Object(m) => serde_json::Value::Object(
            m.iter().map(|(k, x)| Some((k.clone(), to_value(x)?))).collect::<Option<_>>()?,
        ),
    })
}

/// `serde_json::from_str` into a `serde_json::Value`: the result is a function
/// of the text.
#[verifier::external_body]
pub(crate) fn parse(s: &str) -> (r: Option<Json>)
    ensures
        r == parsed(s@),
{
    serde_json::from_str::<serde_json::Value>(s).ok().map(from_value)
}

/// `serde_json::to_string` of a `serde_json::Value`: the text is a function of
/// the value.
#[verifier::external_body]
pub(crate) fn print(v: &Json) -> (r: Option<String>)
    ensures
        r is Some == printed(*v) is Some,
        r is Some ==> printed(*v) == Some(r->0@),
{
    serde_json::to_string(&to_value(v)?).ok()
}

/// `serde_json::to_string` of a `str`: a JSON string whose text is a function
/// of the text, in quotes and unchanged where nothing in it needs an escape.
#[verifier::external_body]
pub(crate) fn quote(s: &str) -> (r: String)
    ensures
        r@ == quoted(s@),
        is_plain(s@) ==> r@ == "\""@ + s@ + "\""@,
{
    serde_json::to_string(s).unwrap_or_default()
}

/// The member of a name is the first that has it: one before all others counts,
/// and others of other names do not matter.
pub proof fn law_first_member_counts(
    first: (String, Json),
    rest: Seq<(String, Json)>,
    key: Seq<char>,
)
    ensures
        first.0@ == key ==> member_from(seq![first] + rest, key, 0) == Some(first.1),
        first.0@ != key ==> member_from(seq![first] + rest, key, 0) == member_from(rest, key, 0),
        member_from(rest, key, 0) is None <==> forall|i: int|
            0 <= i < rest.len() ==> (#[trigger] rest[i]).0@ != key,
{
    let all = seq![first] + rest;
    assert(all[0] == first);
    if first.0@ != key {
        lemma_shifted(first, rest, key, 0);
    }
    lemma_no_such_member(rest, key, 0);
}

proof fn lemma_shifted(first: (String, Json), rest: Seq<(String, Json)>, key: Seq<char>, i: int)
    requires
        0 <= i,
    ensures
        member_from(seq![first] + rest, key, i + 1) == member_from(rest, key, i),
    decreases rest.len() - i,
{
    let all = seq![first] + rest;
    if i < rest.len() {
        assert(all[i + 1] == rest[i]);
        lemma_shifted(first, rest, key, i + 1);
    }
}

proof fn lemma_no_such_member(members: Seq<(String, Json)>, key: Seq<char>, start: int)
    requires
        0 <= start,
    ensures
        member_from(members, key, start) is None <==> forall|i: int|
            start <= i < members.len() ==> (#[trigger] members[i]).0@ != key,
    decreases members.len() - start,
{
    if start < members.len() {
        lemma_no_such_member(members, key, start + 1);
    }
}

/// An integer is read from its digits, with or without a sign; it fits where it is
/// within the bounds.
pub proof fn law_integers_are_read_back(n: nat)
    ensures
        integer_value(text::decimal(n)) == Some(n as int),
        integer_value("-"@ + text::decimal(n)) == Some(-(n as int)),
{
    text::law_decimal_reads_back(n);
    reveal_strlit("-");
    let d = text::decimal(n);
    assert(48 <= d[0] as int <= 57);
    let s = "-"@ + d;
    assert(s[0] == '-');
    assert(s.subrange(1, s.len() as int) =~= d);
}

/// A number is an integer of 64 bits exactly where it is one within the bounds;
/// nothing but numbers are.
pub proof fn law_integers_keep_to_their_bounds(v: Json, n: int)
    ensures
        v.uint64() == Some(n) <==> 0 <= n <= u64::MAX && (v matches Json::Number(s)
            && integer_value(s@) == Some(n)),
        v.int64() == Some(n) <==> i64::MIN <= n <= i64::MAX && (v matches Json::Number(s)
            && integer_value(s@) == Some(n)),
{
}

/// The claims of a token tell when it was issued and when it ends.
pub proof fn law_claims_tell_the_times(iat: nat, exp: nat)
    ensures
        text::occurs(claims_text(iat, exp), "\"iat\":"@ + text::decimal(iat) + ","@),
        text::occurs(claims_text(iat, exp), "\"exp\":"@ + text::decimal(exp) + "}"@),
        text::occurs(claims_text(iat, exp), "\"sub\":\"admin\""@),
{
    reveal_strlit("{\"sub\":\"admin\",\"iat\":");
    reveal_strlit("{\"sub\":\"admin\",");
    reveal_strlit("\"sub\":\"admin\"");
    reveal_strlit("\"iat\":");
    reveal_strlit(",\"exp\":");
    reveal_strlit("\"exp\":");
    reveal_strlit(",");
    reveal_strlit("{");
    reveal_strlit("}");
    let t = claims_text(iat, exp);
    let a = text::decimal(iat);
    let b = text::decimal(exp);
    let iat_part = "\"iat\":"@ + a + ","@;
    let exp_part = "\"exp\":"@ + b + "}"@;
    let none = Seq::<char>::empty();
    assert("{\"sub\":\"admin\",\"iat\":"@ =~= "{\"sub\":\"admin\","@ + "\"iat\":"@);
    assert("{\"sub\":\"admin\","@ =~= "{"@ + "\"sub\":\"admin\""@ + ","@);
    assert(",\"exp\":"@ =~= ","@ + "\"exp\":"@);
    assert(t =~= "{\"sub\":\"admin\","@ + iat_part + exp_part);
    text::lemma_occurs_between("{\"sub\":\"admin\","@, iat_part, exp_part);
    assert(t =~= ("{\"sub\":\"admin\","@ + iat_part) + exp_part + none);
    text::lemma_occurs_between("{\"sub\":\"admin\","@ + iat_part, exp_part, none);
    assert(t =~= "{"@ + "\"sub\":\"admin\""@ + (","@ + iat_part + exp_part));
    text::lemma_occurs_between("{"@, "\"sub\":\"admin\""@, ","@ + iat_part + exp_part);
}

} // verus!
