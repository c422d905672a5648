//! The head of an answer that goes out as server-sent events.

use axum::http::{HeaderMap, HeaderName, HeaderValue};
use vstd::prelude::*;

use crate::text;

verus! {

/// A map of headers takes a further one for sure as long as it holds fewer names
/// than this.
pub const SURE_NAMES: usize = 6_554;

/// So many further headers are taken for sure, besides the usual ones.
pub const SURE_EXTRA_HEADERS: usize = 6_550;

/// A byte that may stand in the name of a header.
pub open spec fn is_name_byte(b: u8) -> bool {
    ||| 48 <= b <= 57
    ||| 65 <= b <= 90
    ||| 94 <= b <= 122
    ||| b == 33
    ||| 35 <= b <= 39
    ||| b == 42
    ||| b == 43
    ||| b == 45
    ||| b == 46
    ||| b == 124
    ||| b == 126
}

/// A text that can name a header.
pub open spec fn is_header_name(name: Seq<char>) -> bool {
    let b = vstd::utf8::encode_utf8(name);
    0 < b.len() <= 65_535 && forall|i: int| 0 <= i < b.len() ==> is_name_byte(#[trigger] b[i])
}

/// A text that can be the value of a header.
pub open spec fn is_header_value(value: Seq<char>) -> bool {
    let b = vstd::utf8::encode_utf8(value);
    forall|i: int| 0 <= i < b.len() ==> ((#[trigger] b[i]) >= 32 && b[i] != 127) || b[i] == 9
}

/// `HeaderName::from_bytes` of the `http` crate takes the characters of a token
/// in any case: between 1 and 65535 of them.
#[verifier::external_body]
fn header_name_ok(name: &str) -> (r: bool)
    ensures
        r == is_header_name(name@),
{
    HeaderName::from_bytes(name.as_bytes()).is_ok()
}

/// `HeaderValue::from_bytes` of the `http` crate takes every byte from 32 on but
/// 127, and the tab.
#[verifier::external_body]
fn header_value_ok(value: &str) -> (r: bool)
    ensures
        r == is_header_value(value@),
{
    HeaderValue::from_bytes(value.as_bytes()).is_ok()
}

/// The map of headers of the `http` crate.
#[verifier::external_type_specification]
#[verifier::external_body]
#[verifier::reject_recursive_types(T)]
pub struct ExHeaderMap<T>(HeaderMap<T>);

/// The value of a header of the `http` crate.
#[verifier::external_type_specification]
#[verifier::external_body]
pub struct ExHeaderValue(HeaderValue);

/// How many different names a map of headers holds.
pub uninterp spec fn name_count(m: HeaderMap<HeaderValue>) -> nat;

/// `HeaderMap::new` makes a map that holds nothing.
#[verifier::external_body]
fn no_headers() -> (r: HeaderMap<HeaderValue>)
    ensures
        name_count(r) == 0,
{
    HeaderMap::new()
}

/// `HeaderMap::try_append` puts in a header, which is a further name at most. It
/// refuses where the map would have to grow beyond its limit: that comes to pass
/// with no fewer than `SURE_NAMES` names. With how many it does hangs on their
/// hashes, of which nothing is said.
#[verifier::external_body]
fn append_header(m: &mut HeaderMap<HeaderValue>, name: &str, value: &str) -> (r: bool)
    requires
        is_header_name(name@),
        is_header_value(value@),
    ensures
        name_count(*old(m)) < SURE_NAMES ==> r,
        name_count(*final(m)) <= name_count(*old(m)) + 1,
{
    match (HeaderName::from_bytes(name.as_bytes()), HeaderValue::from_bytes(value.as_bytes())) {
        (Ok(n), Ok(v)) => m.try_append(n, v).is_ok(),
        _ => false,
    }
}

/// An answer that goes out as server-sent events.
#[derive(Debug)]
pub struct SseBody<S> {
    pub inner: S,
    pub extra_headers: Vec<(String, String)>,
}

/// The head of an answer: its status and its headers, in order; and its body,
/// where it is not the stream.
#[derive(Debug)]
pub struct SseHead {
    pub status: u16,
    pub headers: Vec<(String, String)>,
    pub body: Option<String>,
}

/// Headers as models.
pub open spec fn header_views(h: Seq<(String, String)>) -> Seq<(Seq<char>, Seq<char>)> {
    Seq::new(h.len(), |i: int| (h[i].0@, h[i].1@))
}

/// The headers that every stream of events has.
pub open spec fn fixed_headers() -> Seq<(Seq<char>, Seq<char>)> {
    seq![
        ("content-type"@, "text/event-stream"@),
        ("cache-control"@, "no-cache"@),
        ("connection"@, "keep-alive"@),
        ("X-Accel-Buffering"@, "no"@),
    ]
}

/// A header can be sent.
pub open spec fn can_be_sent(h: (Seq<char>, Seq<char>)) -> bool {
    is_header_name(h.0) && is_header_value(h.1)
}

/// All headers can be sent.
pub open spec fn all_can_be_sent(h: Seq<(Seq<char>, Seq<char>)>) -> bool {
    forall|i: int| 0 <= i < h.len() ==> can_be_sent(#[trigger] h[i])
}

/// The body of an answer whose headers cannot be sent.
pub open spec fn failure_body() -> Seq<char> {
    "{\"error\":{\"message\":\"internal server error\",\"type\":\"server_error\",\"code\":\"internal_error\"}}"@
}

/// `r` is the head of an answer with these further headers, given whether the
/// map of headers takes them all: that of a stream of events, with the further
/// headers after the usual ones; or that of a failure.
pub open spec fn is_head(
    r: SseHead,
    extra: Seq<(Seq<char>, Seq<char>)>,
    accepted: bool,
) -> bool {
    if accepted && all_can_be_sent(extra) {
        &&& r.status == 200
        &&& header_views(r.headers@) == fixed_headers() + extra
        &&& r.body is None
    } else {
        &&& r.status == 500
        &&& header_views(r.headers@) == seq![("content-type"@, "application/json"@)]
        &&& r.body matches Some(b) && b@ == failure_body()
    }
}

/// The usual headers can be sent.
proof fn lemma_fixed_can_be_sent()
    ensures
        can_be_sent(("content-type"@, "text/event-stream"@)),
        can_be_sent(("cache-control"@, "no-cache"@)),
        can_be_sent(("connection"@, "keep-alive"@)),
        can_be_sent(("X-Accel-Buffering"@, "no"@)),
{
    reveal_strlit("content-type");
    reveal_strlit("text/event-stream");
    reveal_strlit("cache-control");
    reveal_strlit("no-cache");
    reveal_strlit("connection");
    reveal_strlit("keep-alive");
    reveal_strlit("X-Accel-Buffering");
    reveal_strlit("no");
    vstd::utf8::is_ascii_chars_encode_utf8("content-type"@);
    vstd::utf8::is_ascii_chars_encode_utf8("text/event-stream"@);
    vstd::utf8::is_ascii_chars_encode_utf8("cache-control"@);
    vstd::utf8::is_ascii_chars_encode_utf8("no-cache"@);
    vstd::utf8::is_ascii_chars_encode_utf8("connection"@);
    vstd::utf8::is_ascii_chars_encode_utf8("keep-alive"@);
    vstd::utf8::is_ascii_chars_encode_utf8("X-Accel-Buffering"@);
    vstd::utf8::is_ascii_chars_encode_utf8("no"@);
}

fn failure_head() -> (r: SseHead)
    ensures
        r.status == 500,
        header_views(r.headers@) == seq![("content-type"@, "application/json"@)],
        r.body matches Some(b) && b@ == failure_body(),
{
    let mut failure: Vec<(String, String)> = Vec::new();
    assert(header_views(failure@) =~= Seq::empty());
    add_header(&mut failure, "content-type", "application/json");
    assert(header_views(failure@) =~= seq![("content-type"@, "application/json"@)]);
    SseHead {
        status: 500,
        headers: failure,
        body: Some(
            "{\"error\":{\"message\":\"internal server error\",\"type\":\"server_error\",\"code\":\"internal_error\"}}".to_owned(),
        ),
    }
}

fn add_header(list: &mut Vec<(String, String)>, name: &str, value: &str)
    ensures
        header_views(final(list)@) == header_views(old(list)@).push((name@, value@)),
{
    let ghost before = list@;
    list.push((name.to_owned(), value.to_owned()));
    assert(header_views(list@) =~= header_views(before).push((name@, value@)));
}

impl<S> SseBody<S> {
    /// An answer without further headers.
    pub fn new(stream: S) -> (r: SseBody<S>)
        ensures
            r.inner == stream,
            header_views(r.extra_headers@) == Seq::<(Seq<char>, Seq<char>)>::empty(),
    {
        let r = SseBody { inner: stream, extra_headers: Vec::new() };
        assert(header_views(r.extra_headers@) =~= Seq::<(Seq<char>, Seq<char>)>::empty());
        r
    }

    /// The answer with one more header.
    pub fn with_header(self, name: &str, value: &str) -> (r: SseBody<S>)
        ensures
            r.inner == self.inner,
            header_views(r.extra_headers@) == header_views(self.extra_headers@).push(
                (name@, value@),
            ),
    {
        let mut s = self;
        add_header(&mut s.extra_headers, name, value);
        s
    }

    /// Whether the map of headers takes the usual headers and all further ones.
    fn taken(&self) -> (r: bool)
        ensures
            self.extra_headers@.len() <= SURE_EXTRA_HEADERS && all_can_be_sent(
                header_views(self.extra_headers@),
            ) ==> r,
    {
        let ghost extra = header_views(self.extra_headers@);
        proof {
            lemma_fixed_can_be_sent();
        }
        let mut map = no_headers();
        if !(append_header(&mut map, "content-type", "text/event-stream") && append_header(
            &mut map,
            "cache-control",
            "no-cache",
        ) && append_header(&mut map, "connection", "keep-alive") && append_header(
            &mut map,
            "X-Accel-Buffering",
            "no",
        )) {
            return false;
        }
        let mut i: usize = 0;
        while i < self.extra_headers.len()
            invariant
                i <= self.extra_headers@.len(),
                extra == header_views(self.extra_headers@),
                name_count(map) <= 4 + i,
            decreases self.extra_headers@.len() - i,
        {
            let name = self.extra_headers[i].0.as_str();
            let value = self.extra_headers[i].1.as_str();
            assert(extra[i as int] == (name@, value@));
            if !(header_name_ok(name) && header_value_ok(value)) {
                return false;
            }
            if !append_header(&mut map, name, value) {
                return false;
            }
            i += 1;
        }
        true
    }

    /// The head of the answer: that of a stream of events, with the further
    /// headers after the usual ones; or that of a failure, where one of them
    /// cannot be sent or where there are more than the map of headers takes.
    pub fn head(&self) -> (r: SseHead)
        ensures
            exists|accepted: bool|
                (self.extra_headers@.len() <= SURE_EXTRA_HEADERS ==> accepted)
                    && #[trigger] is_head(r, header_views(self.extra_headers@), accepted),
    {
        let ghost extra = header_views(self.extra_headers@);
        let accepted = self.taken();
        let r = self.head_if(accepted);
        assert(is_head(r, extra, accepted || !all_can_be_sent(extra)));
        r
    }

    /// The head of the answer, given whether the map of headers takes all of its
    /// headers.
    pub fn head_if(&self, accepted: bool) -> (r: SseHead)
        ensures
            is_head(r, header_views(self.extra_headers@), accepted),
    {
        if !accepted {
            return failure_head();
        }
        let ghost extra = header_views(self.extra_headers@);
        let mut headers: Vec<(String, String)> = Vec::new();
        assert(header_views(headers@) =~= Seq::empty());
        add_header(&mut headers, "content-type", "text/event-stream");
        add_header(&mut headers, "cache-control", "no-cache");
        add_header(&mut headers, "connection", "keep-alive");
        add_header(&mut headers, "X-Accel-Buffering", "no");
        assert(header_views(headers@) =~= fixed_headers());
        assert(fixed_headers() + extra.take(0) =~= fixed_headers());
        let mut i: usize = 0;
        while i < self.extra_headers.len()
            invariant
                i <= self.extra_headers@.len(),
                extra == header_views(self.extra_headers@),
                extra.len() == self.extra_headers@.len(),
                forall|k: int| 0 <= k < i ==> can_be_sent(#[trigger] extra[k]),
                header_views(headers@) == fixed_headers() + extra.take(i as int),
            decreases self.extra_headers@.len() - i,
        {
            let name = self.extra_headers[i].0.as_str();
            let value = self.extra_headers[i].1.as_str();
            assert(extra[i as int] == (name@, value@));
            if !(header_name_ok(name) && header_value_ok(value)) {
                assert(!all_can_be_sent(extra));
                return failure_head();
            }
            add_header(&mut headers, name, value);
            i += 1;
            assert(header_views(headers@) =~= fixed_headers() + extra.take(i as int));
        }
        assert(extra.take(extra.len() as int) =~= extra);
        SseHead { status: 200, headers, body: None }
    }
}

/// The head of an answer that goes out says that it is a stream of events, and
/// holds every further header in its place after the usual ones; the head of one
/// that cannot go out holds none of them and says that the server failed.
pub proof fn law_head_holds_every_header(
    r: SseHead,
    extra: Seq<(Seq<char>, Seq<char>)>,
    accepted: bool,
    i: int,
)
    requires
        is_head(r, extra, accepted),
        0 <= i < extra.len(),
    ensures
        r.status == 200 || r.status == 500,
        r.status == 200 ==> {
            &&& can_be_sent(extra[i])
            &&& header_views(r.headers@).contains(extra[i])
            &&& header_views(r.headers@).subrange(
                r.headers@.len() - extra.len(),
                r.headers@.len() as int,
            ) == extra
            &&& header_views(r.headers@).contains(("content-type"@, "text/event-stream"@))
            &&& header_views(r.headers@).contains(("cache-control"@, "no-cache"@))
            &&& r.body is None
        },
        r.status == 500 ==> r.body is Some && r.headers@.len() == 1,
        !can_be_sent(extra[i]) ==> r.status == 500,
        !accepted ==> r.status == 500,
        accepted && all_can_be_sent(extra) ==> r.status == 200,
{
    let h = header_views(r.headers@);
    assert(h.len() == r.headers@.len());
    if accepted && all_can_be_sent(extra) {
        assert(h[fixed_headers().len() + i] == extra[i]);
        assert(h[0] == fixed_headers()[0] && h[1] == fixed_headers()[1]);
        assert(h.subrange(h.len() - extra.len(), h.len() as int) =~= extra);
    }
}

/// A name for a header is one or more of the characters of a token; letters,
/// digits and hyphens are among them, spaces and colons are not.
pub proof fn law_header_names_are_tokens(name: Seq<char>, b: u8)
    ensures
        is_header_name(name) ==> vstd::utf8::encode_utf8(name).len() > 0,
        48 <= b <= 57 || 65 <= b <= 90 || 97 <= b <= 122 || b == 45 ==> is_name_byte(b),
        b <= 32 || b == 58 || b >= 127 ==> !is_name_byte(b),
{
}

} // verus!
