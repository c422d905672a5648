//! Turning the back end's event stream into chat completion chunks.
//!
//! Events become frames (`state`), frames become chunks, chunks pass the
//! repair of broken tool calls and the detection of stop texts. A whole answer
//! is the chunks put together.

use vstd::prelude::*;
use vstd::string::StringSliceAdditionalSpecFns;

use crate::encoding;
use crate::openai_adapter::types::{
    ChatCompletionsResponse, ChatCompletionsResponseChunk, Choice, ChunkChoice, Delta,
    FunctionCall, MessageResponse, ToolCall, Usage,
};
use crate::openai_adapter::{AdapterErrorV, OpenAIAdapterError};
use crate::text;

pub mod state;

verus! {

/// What opens a block of tool calls.
pub const TOOL_CALL_START: &'static str = "<|tool▁calls▁begin|>";

/// What closes a block of tool calls.
pub const TOOL_CALL_END: &'static str = "<|tool▁calls▁end|>";

/// The reason of an answer that came to its end or to a stop text.
pub const FINISH_STOP: &'static str = "stop";

/// The reason of an answer that calls tools.
pub const FINISH_TOOL_CALLS: &'static str = "tool_calls";

/// The size to which a chunk is padded.
pub const OBFUSCATION_TARGET_LEN: usize = 512;

/// The padding of a chunk that is that large already.
pub const OBFUSCATION_MIN_PAD: usize = 16;

/// How often a repair that takes long is shown to be under way, in seconds.
pub const KEEPALIVE_INTERVAL_SECS: u64 = 1;

/// What the padding's member takes besides the padding.
pub const OBFUSCATION_OVERHEAD: usize = 17;

/// The id of the `n`-th completion.
pub fn completion_id(n: u64) -> (r: String)
    ensures
        r@ == "chatcmpl-"@ + encoding::hex_number(n as nat, 16),
{
    let digits = encoding::hex_number_of(n, 16);
    text::cat2("chatcmpl-", digits.as_str())
}

/// How much padding a chunk of `json_len` bytes gets: what is missing to the
/// size that chunks are padded to, or a little where nothing is missing.
pub open spec fn padding_size(json_len: int) -> int {
    if json_len + OBFUSCATION_OVERHEAD < OBFUSCATION_TARGET_LEN {
        OBFUSCATION_TARGET_LEN - json_len - OBFUSCATION_OVERHEAD
    } else {
        OBFUSCATION_MIN_PAD as int
    }
}

/// How much padding a chunk of `json_len` bytes gets.
pub fn padding_len(json_len: usize) -> (r: usize)
    requires
        json_len + OBFUSCATION_OVERHEAD <= usize::MAX,
    ensures
        r == padding_size(json_len as int),
{
    if json_len + OBFUSCATION_OVERHEAD < OBFUSCATION_TARGET_LEN {
        OBFUSCATION_TARGET_LEN - json_len - OBFUSCATION_OVERHEAD
    } else {
        OBFUSCATION_MIN_PAD
    }
}

/// `b` is `a` with another padding in its first alternative.
pub open spec fn chunk_padded(
    a: ChatCompletionsResponseChunk,
    b: ChatCompletionsResponseChunk,
    padding: Seq<char>,
) -> bool {
    &&& b == (ChatCompletionsResponseChunk { choices: b.choices, ..a })
    &&& b.choices@.len() == a.choices@.len()
    &&& b.choices@.subrange(1, b.choices@.len() as int) == a.choices@.subrange(
        1,
        a.choices@.len() as int,
    )
    &&& b.choices@[0] == (ChunkChoice {
        delta: Delta { obfuscation: b.choices@[0].delta.obfuscation, ..a.choices@[0].delta },
        ..a.choices@[0]
    })
    &&& b.choices@[0].delta.obfuscation.deep_view() == Some(padding)
}

/// Puts a padding into a chunk that has an alternative.
pub fn pad_chunk(chunk: ChatCompletionsResponseChunk, padding: String) -> (r:
    ChatCompletionsResponseChunk)
    ensures
        if chunk.choices@.len() == 0 {
            r == chunk
        } else {
            chunk_padded(chunk, r, padding@)
        },
{
    let mut padded = chunk;
    if padded.choices.len() == 0 {
        return padded;
    }
    let mut choice = padded.choices.remove(0);
    let ghost rest = padded.choices@;
    choice.delta.obfuscation = Some(padding);
    padded.choices.insert(0, choice);
    assert(rest =~= chunk.choices@.subrange(1, chunk.choices@.len() as int));
    assert(padded.choices@.subrange(1, padded.choices@.len() as int) =~= rest);
    padded
}

/// `b` is `a` with a padding of `len` base64 symbols.
pub open spec fn padded_by(
    a: ChatCompletionsResponseChunk,
    b: ChatCompletionsResponseChunk,
    len: int,
) -> bool {
    exists|padding: Seq<char>| #[trigger]
        chunk_padded(a, b, padding) && padding.len() == len && (forall|i: int|
            0 <= i < len ==> encoding::is_symbol(#[trigger] padding[i]))
}

/// Hides the size of a chunk that takes `json_len` bytes as JSON: it gets a
/// random padding. Which symbols the padding holds is left to chance.
pub fn obfuscate(chunk: ChatCompletionsResponseChunk, json_len: usize) -> (r:
    ChatCompletionsResponseChunk)
    requires
        json_len + OBFUSCATION_OVERHEAD <= usize::MAX,
    ensures
        if chunk.choices@.len() == 0 {
            r == chunk
        } else {
            padded_by(chunk, r, padding_size(json_len as int))
        },
{
    let padding = encoding::random_padding(padding_len(json_len));
    let ghost p = padding@;
    let r = pad_chunk(chunk, padding);
    assert(chunk.choices@.len() > 0 ==> chunk_padded(chunk, r, p));
    r
}

/// The event that carries some JSON.
pub open spec fn event_of(json: Seq<u8>) -> Seq<u8> {
    "data: ".spec_bytes() + json + "\n\n".spec_bytes()
}

/// The event that carries some JSON.
pub fn sse_frame(json: &Vec<u8>) -> (r: Vec<u8>)
    ensures
        r@ == event_of(json@),
{
    let mut out = text::bytes_of("data: ");
    let mut i: usize = 0;
    let ghost head = out@;
    assert(head + json@.take(0) =~= head);
    while i < json.len()
        invariant
            i <= json@.len(),
            out@ == head + json@.take(i as int),
        decreases json@.len() - i,
    {
        out.push(json[i]);
        i += 1;
        assert(out@ =~= head + json@.take(i as int));
    }
    assert(json@.take(json@.len() as int) =~= json@);
    let mut tail = text::bytes_of("\n\n");
    out.append(&mut tail);
    out
}

/// The first position at which one of the first `n` stop texts occurs.
pub open spec fn stop_position(content: Seq<char>, stops: Seq<Seq<char>>, n: int) -> Option<int>
    decreases n,
{
    if n <= 0 {
        None
    } else {
        match (stop_position(content, stops, n - 1), text::find_from(content, stops[n - 1], 0)) {
            (Some(a), Some(b)) => Some(if a <= b {
                a
            } else {
                b
            }),
            (Some(a), None) => Some(a),
            (None, b) => b,
        }
    }
}

/// The first position at which any stop text occurs.
pub open spec fn first_stop(content: Seq<char>, stops: Seq<Seq<char>>) -> Option<int> {
    stop_position(content, stops, stops.len() as int)
}

/// The first position at which any stop text occurs, in characters.
pub fn find_stop_char(content: &str, stop: &Vec<String>) -> (r: Option<usize>)
    ensures
        match r {
            Some(p) => first_stop(content@, text::strs(stop@)) == Some(p as int) && p
                <= content@.len(),
            None => first_stop(content@, text::strs(stop@)) is None,
        },
{
    let mut best: Option<usize> = None;
    let ghost stops = text::strs(stop@);
    let mut i: usize = 0;
    while i < stop.len()
        invariant
            i <= stop@.len(),
            stops == text::strs(stop@),
            match best {
                Some(p) => stop_position(content@, stops, i as int) == Some(p as int) && p
                    <= content@.len(),
                None => stop_position(content@, stops, i as int) is None,
            },
        decreases stop@.len() - i,
    {
        proof {
            text::lemma_find_bounds(content@, stops[i as int], 0);
        }
        match (best, text::find(content, stop[i].as_str())) {
            (Some(a), Some(b)) => {
                if b < a {
                    best = Some(b);
                }
            },
            (None, Some(b)) => {
                best = Some(b);
            },
            _ => {},
        }
        i += 1;
    }
    best
}

/// How many bytes the first `k` characters of a text take.
pub open spec fn byte_offset(s: Seq<char>, k: int) -> int {
    vstd::utf8::encode_utf8(s.take(k)).len() as int
}

/// The first position at which any stop text occurs, in bytes.
pub fn find_stop_pos(content: &str, stop: &Vec<String>) -> (r: Option<usize>)
    ensures
        match first_stop(content@, text::strs(stop@)) {
            Some(k) => r matches Some(p) && p == byte_offset(content@, k),
            None => r is None,
        },
{
    match find_stop_char(content, stop) {
        Some(k) => {
            let v = text::chars_of(content);
            let head = text::text_of(&v, 0, k);
            assert(head@ =~= content@.take(k as int));
            Some(text::byte_len(head.as_str()))
        },
        None => None,
    }
}

/// Cuts an answer off at the first stop text.
#[derive(Debug)]
pub struct StopDetect {
    pub stop: Vec<String>,
    pub stopped: bool,
    /// How many characters of the answer have gone out.
    pub sent_len: usize,
    /// The answer so far.
    pub buffer: String,
}

/// The model of a `StopDetect`.
#[verifier::ext_equal]
pub struct StopV {
    pub stops: Seq<Seq<char>>,
    pub stopped: bool,
    pub sent: int,
    pub buffer: Seq<char>,
}

impl View for StopDetect {
    type V = StopV;

    open spec fn view(&self) -> StopV {
        StopV {
            stops: text::strs(self.stop@),
            stopped: self.stopped,
            sent: self.sent_len as int,
            buffer: self.buffer@,
        }
    }
}

/// Whether a stop text in the answer so far and `piece` begins after all that
/// has gone out.
pub open spec fn can_cut(s: StopV, piece: Seq<char>) -> bool {
    first_stop(s.buffer + piece, s.stops) matches Some(p) ==> s.sent <= p
}

/// The state after a further piece of the answer.
pub open spec fn stop_next(s: StopV, piece: Seq<char>) -> StopV {
    match first_stop(s.buffer + piece, s.stops) {
        Some(p) => StopV { stopped: true, sent: p, buffer: Seq::empty(), ..s },
        None => StopV {
            sent: (s.buffer + piece).len() as int,
            buffer: s.buffer + piece,
            ..s
        },
    }
}

/// What goes out of a further piece of the answer.
pub open spec fn stop_output(s: StopV, piece: Seq<char>) -> Seq<char> {
    match first_stop(s.buffer + piece, s.stops) {
        Some(p) => (s.buffer + piece).subrange(s.sent, p),
        None => piece,
    }
}

/// Whether a chunk passes after the answer was cut off: one that reports the
/// usage, or one that only says that tools were called.
pub open spec fn passes_after_stop(chunk: ChatCompletionsResponseChunk) -> bool {
    if chunk.choices@.len() == 0 {
        chunk.usage is Some
    } else {
        let choice = chunk.choices@[0];
        choice.delta.content is None && choice.delta.reasoning_content is None
            && choice.delta.tool_calls is None && (choice.finish_reason matches Some(f) && f@
            == FINISH_TOOL_CALLS@)
    }
}

/// The text that the first alternative of a chunk adds.
pub open spec fn chunk_content(chunk: ChatCompletionsResponseChunk) -> Option<Seq<char>> {
    if chunk.choices@.len() > 0 {
        chunk.choices@[0].delta.content.deep_view()
    } else {
        None
    }
}

/// `b` is `a` with another content and another reason to finish.
pub open spec fn choice_cut(
    a: ChunkChoice,
    b: ChunkChoice,
    content: Option<Seq<char>>,
    finish: Seq<char>,
) -> bool {
    &&& b.delta.content.deep_view() == content
    &&& b.finish_reason.deep_view() == Some(finish)
    &&& b == (ChunkChoice {
        delta: Delta { content: b.delta.content, ..a.delta },
        finish_reason: b.finish_reason,
        ..a
    })
}

/// `b` is `a` cut off: its first alternative has only `content` and stops.
pub open spec fn chunk_cut(
    a: ChatCompletionsResponseChunk,
    b: ChatCompletionsResponseChunk,
    content: Seq<char>,
) -> bool {
    &&& b == (ChatCompletionsResponseChunk { choices: b.choices, ..a })
    &&& b.choices@.len() == a.choices@.len()
    &&& b.choices@.subrange(1, b.choices@.len() as int) == a.choices@.subrange(
        1,
        a.choices@.len() as int,
    )
    &&& choice_cut(
        a.choices@[0],
        b.choices@[0],
        if content.len() == 0 {
            None
        } else {
            Some(content)
        },
        FINISH_STOP@,
    )
}

impl StopDetect {
    /// Nothing has been taken in.
    pub fn new(stop: Vec<String>) -> (r: StopDetect)
        ensures
            r@ == (StopV {
                stops: text::strs(stop@),
                stopped: false,
                sent: 0,
                buffer: Seq::empty(),
            }),
    {
        StopDetect { stop, stopped: false, sent_len: 0, buffer: String::new() }
    }

    /// Whether `on_chunk` can take a chunk with this content: a stop text that
    /// it completes begins after all that has gone out.
    pub fn can_take(&self, content: &str) -> (r: bool)
        ensures
            r == can_cut(self@, content@),
    {
        let whole = text::cat2(self.buffer.as_str(), content);
        match find_stop_char(whole.as_str(), &self.stop) {
            Some(p) => self.sent_len <= p,
            None => true,
        }
    }

    /// Takes in a chunk and hands out what is to be sent of it, if anything.
    pub fn on_chunk(&mut self, chunk: ChatCompletionsResponseChunk) -> (r: Option<
        ChatCompletionsResponseChunk,
    >)
        requires
            !old(self)@.stopped && old(self)@.stops.len() > 0 ==> (chunk_content(
                chunk,
            ) matches Some(c) ==> can_cut(old(self)@, c)),
        ensures
            if old(self)@.stopped {
                &&& final(self)@ == old(self)@
                &&& r == (if passes_after_stop(chunk) {
                    Some(chunk)
                } else {
                    None
                })
            } else if old(self)@.stops.len() > 0 && chunk_content(chunk) is Some {
                let c = chunk_content(chunk)->0;
                &&& final(self)@ == stop_next(old(self)@, c)
                &&& if final(self)@.stopped {
                    r is Some && chunk_cut(chunk, r->0, stop_output(old(self)@, c))
                } else {
                    r == Some(chunk)
                }
            } else {
                &&& final(self)@ == old(self)@
                &&& r == Some(chunk)
            },
    {
        let mut chunk = chunk;
        if self.stopped {
            let pass = if chunk.choices.len() == 0 {
                chunk.usage.is_some()
            } else {
                let choice = &chunk.choices[0];
                choice.delta.content.is_none() && choice.delta.reasoning_content.is_none()
                    && choice.delta.tool_calls.is_none() && match &choice.finish_reason {
                    Some(f) => text::same(f.as_str(), FINISH_TOOL_CALLS),
                    None => false,
                }
            };
            return if pass {
                Some(chunk)
            } else {
                None
            };
        }
        if self.stop.len() == 0 || chunk.choices.len() == 0 {
            return Some(chunk);
        }
        let content = match &chunk.choices[0].delta.content {
            Some(c) => c.clone(),
            None => {
                return Some(chunk);
            },
        };
        assert(self@.stops.len() == self.stop@.len());
        let ghost before = self@;
        self.buffer.append(content.as_str());
        match find_stop_char(self.buffer.as_str(), &self.stop) {
            Some(p) => {
                let v = text::chars_of(self.buffer.as_str());
                let cut = text::text_of(&v, self.sent_len, p);
                let ghost a = chunk;
                let mut choice = chunk.choices.remove(0);
                let ghost rest = chunk.choices@;
                choice.delta.content = if cut.as_str().is_empty() {
                    None
                } else {
                    Some(cut)
                };
                choice.finish_reason = Some(FINISH_STOP.to_owned());
                chunk.choices.insert(0, choice);
                self.stopped = true;
                self.buffer = String::new();
                self.sent_len = p;
                assert(a.choices@.subrange(1, a.choices@.len() as int) =~= rest);
                assert(chunk.choices@.subrange(1, chunk.choices@.len() as int) =~= rest);
                Some(chunk)
            },
            None => {
                self.sent_len = text::char_count(self.buffer.as_str());
                Some(chunk)
            },
        }
    }
}

/// What goes out of the first `n` pieces of an answer, with the state after
/// them.
pub open spec fn stop_run(
    stops: Seq<Seq<char>>,
    pieces: Seq<Seq<char>>,
    n: int,
) -> (StopV, Seq<char>)
    decreases n,
{
    if n <= 0 {
        (StopV { stops, stopped: false, sent: 0, buffer: Seq::empty() }, Seq::empty())
    } else {
        let (s, out) = stop_run(stops, pieces, n - 1);
        if s.stopped {
            (s, out)
        } else {
            (stop_next(s, pieces[n - 1]), out + stop_output(s, pieces[n - 1]))
        }
    }
}

proof fn lemma_stop_is_first(content: Seq<char>, stops: Seq<Seq<char>>, n: int, k: int, j: int)
    requires
        0 <= k < n <= stops.len(),
        text::stands_at(content, stops[k], j),
    ensures
        stop_position(content, stops, n) is Some,
        stop_position(content, stops, n)->0 <= j,
    decreases n,
{
    if k == n - 1 {
        text::lemma_find_is_first(content, stops[k], 0, j);
    } else {
        lemma_stop_is_first(content, stops, n - 1, k, j);
    }
}

proof fn lemma_stop_within(content: Seq<char>, stops: Seq<Seq<char>>, n: int)
    requires
        0 <= n <= stops.len(),
    ensures
        stop_position(content, stops, n) matches Some(p) ==> 0 <= p <= content.len(),
    decreases n,
{
    if n > 0 {
        lemma_stop_within(content, stops, n - 1);
        text::lemma_find_bounds(content, stops[n - 1], 0);
    }
}

/// No text before the first stop text holds a stop text.
proof fn lemma_no_stop_before(content: Seq<char>, stops: Seq<Seq<char>>, p: int, k: int)
    requires
        0 <= p <= content.len(),
        0 <= k < stops.len(),
        stops[k].len() > 0,
        first_stop(content, stops) matches Some(q) ==> p <= q,
    ensures
        !text::occurs(content.subrange(0, p), stops[k]),
{
    let head = content.subrange(0, p);
    text::lemma_find_bounds(head, stops[k], 0);
    if text::occurs(head, stops[k]) {
        let j = text::find_from(head, stops[k], 0)->0;
        assert(content.subrange(j, j + stops[k].len()) =~= head.subrange(j, j + stops[k].len()));
        lemma_stop_is_first(content, stops, stops.len() as int, k, j);
    }
}

/// What goes out of an answer never holds a stop text, in however many pieces
/// the answer came.
pub proof fn law_output_holds_no_stop(
    stops: Seq<Seq<char>>,
    pieces: Seq<Seq<char>>,
    n: int,
    k: int,
)
    requires
        0 <= n <= pieces.len(),
        forall|i: int| 0 <= i < stops.len() ==> (#[trigger] stops[i]).len() > 0,
        forall|i: int|
            0 <= i < n && !(#[trigger] stop_run(stops, pieces, i)).0.stopped ==> can_cut(
                stop_run(stops, pieces, i).0,
                pieces[i],
            ),
        0 <= k < stops.len(),
    ensures
        !text::occurs(stop_run(stops, pieces, n).1, stops[k]),
{
    lemma_stop_run(stops, pieces, n);
}

/// The first `n` pieces of an answer as one text.
pub open spec fn text_so_far(pieces: Seq<Seq<char>>, n: int) -> Seq<char>
    decreases n,
{
    if n <= 0 {
        Seq::empty()
    } else {
        text_so_far(pieces, n - 1) + pieces[n - 1]
    }
}

/// What went out is the answer up to the first stop text in its first `m` pieces,
/// in the last of which one was met first.
pub open spec fn cut_in(
    stops: Seq<Seq<char>>,
    pieces: Seq<Seq<char>>,
    m: int,
    out: Seq<char>,
) -> bool {
    &&& first_stop(text_so_far(pieces, m - 1), stops) is None
    &&& first_stop(text_so_far(pieces, m), stops) matches Some(p) && out == text_so_far(
        pieces,
        m,
    ).take(p)
}

/// What goes out is exactly the text before the first stop text, as soon as one
/// is met; before that it is all of the answer.
pub proof fn law_output_ends_at_first_stop(
    stops: Seq<Seq<char>>,
    pieces: Seq<Seq<char>>,
    n: int,
)
    requires
        0 <= n <= pieces.len(),
        forall|i: int| 0 <= i < stops.len() ==> (#[trigger] stops[i]).len() > 0,
        forall|i: int|
            0 <= i < n && !(#[trigger] stop_run(stops, pieces, i)).0.stopped ==> can_cut(
                stop_run(stops, pieces, i).0,
                pieces[i],
            ),
    ensures
        ({
            let (s, out) = stop_run(stops, pieces, n);
            if s.stopped {
                exists|m: int| 0 < m <= n && #[trigger] cut_in(stops, pieces, m, out)
            } else {
                &&& out == text_so_far(pieces, n)
                &&& s.buffer == out
                &&& first_stop(out, stops) is None
            }
        }),
    decreases n,
{
    lemma_stop_run(stops, pieces, n);
    if n > 0 {
        law_output_ends_at_first_stop(stops, pieces, n - 1);
        let (s, out) = stop_run(stops, pieces, n - 1);
        let (t, after) = stop_run(stops, pieces, n);
        if s.stopped {
            let m = choose|m: int| 0 < m <= n - 1 && #[trigger] cut_in(stops, pieces, m, out);
            assert(cut_in(stops, pieces, m, after));
        } else {
            lemma_stop_run(stops, pieces, n - 1);
            let whole = s.buffer + pieces[n - 1];
            assert(whole == text_so_far(pieces, n));
            lemma_stop_within(whole, stops, stops.len() as int);
            assert(can_cut(s, pieces[n - 1]));
            if t.stopped {
                let p = first_stop(whole, stops)->0;
                assert(after =~= whole.take(p));
                assert(cut_in(stops, pieces, n, after));
            }
        }
    }
}

proof fn lemma_stop_run(stops: Seq<Seq<char>>, pieces: Seq<Seq<char>>, n: int)
    requires
        0 <= n <= pieces.len(),
        forall|i: int| 0 <= i < stops.len() ==> (#[trigger] stops[i]).len() > 0,
        forall|i: int|
            0 <= i < n && !(#[trigger] stop_run(stops, pieces, i)).0.stopped ==> can_cut(
                stop_run(stops, pieces, i).0,
                pieces[i],
            ),
    ensures
        ({
            let (s, out) = stop_run(stops, pieces, n);
            &&& s.stops == stops
            &&& !s.stopped ==> out == s.buffer && s.sent == s.buffer.len() && first_stop(
                s.buffer,
                stops,
            ) is None
            &&& forall|k: int|
                0 <= k < stops.len() ==> !text::occurs(out, #[trigger] stops[k])
        }),
    decreases n,
{
    if n == 0 {
        let empty = Seq::<char>::empty();
        assert(first_stop(empty, stops) is None) by {
            lemma_no_stop_in_empty(stops, stops.len() as int);
        }
        assert forall|k: int| 0 <= k < stops.len() implies !text::occurs(
            empty,
            #[trigger] stops[k],
        ) by {
            text::lemma_find_bounds(empty, stops[k], 0);
        }
    } else {
        lemma_stop_run(stops, pieces, n - 1);
        let (s, out) = stop_run(stops, pieces, n - 1);
        if !s.stopped {
            let piece = pieces[n - 1];
            let whole = s.buffer + piece;
            let after = stop_run(stops, pieces, n).1;
            lemma_stop_within(whole, stops, stops.len() as int);
            assert(can_cut(s, piece));
            match first_stop(whole, stops) {
                Some(p) => {
                    assert(after =~= whole.subrange(0, p));
                    assert forall|k: int| 0 <= k < stops.len() implies !text::occurs(
                        after,
                        #[trigger] stops[k],
                    ) by {
                        lemma_no_stop_before(whole, stops, p, k);
                    }
                },
                None => {
                    assert forall|k: int| 0 <= k < stops.len() implies !text::occurs(
                        after,
                        #[trigger] stops[k],
                    ) by {
                        lemma_no_stop_before(whole, stops, whole.len() as int, k);
                        assert(whole.subrange(0, whole.len() as int) =~= whole);
                    }
                },
            }
        }
    }
}

proof fn lemma_no_stop_in_empty(stops: Seq<Seq<char>>, n: int)
    requires
        0 <= n <= stops.len(),
        forall|i: int| 0 <= i < stops.len() ==> (#[trigger] stops[i]).len() > 0,
    ensures
        stop_position(Seq::empty(), stops, n) is None,
    decreases n,
{
    if n > 0 {
        lemma_no_stop_in_empty(stops, n - 1);
        assert(stops[n - 1].len() > 0);
    }
}

/// Where the repair of broken tool calls stands.
#[derive(Debug)]
pub enum RepairPhase {
    /// Chunks pass through.
    Forwarding,
    /// A repair is under way.
    Repairing,
    /// The repair failed; what is to be said of it.
    Failed(String),
    /// Nothing more comes.
    Done,
}

/// What to do next.
#[derive(Debug)]
pub enum RepairAction {
    /// Wait for the next chunk.
    PollUpstream,
    /// Wait for the repair.
    PollRepair,
    /// Let go of the stream of chunks and have this text repaired.
    StartRepair(String),
    /// Send a chunk.
    Emit(ChatCompletionsResponseChunk),
    /// Report an error.
    Fail(OpenAIAdapterError),
    /// End the stream.
    End,
}

/// Replaces tool calls that could not be read by repaired ones.
#[derive(Debug)]
pub struct Repair {
    pub phase: RepairPhase,
    pub model: String,
    /// Whether a repair can still be asked for.
    pub can_repair: bool,
}

/// A chunk with one alternative.
fn single_chunk(
    id: String,
    created: u64,
    model: String,
    delta: Delta,
    finish_reason: Option<String>,
) -> (r: ChatCompletionsResponseChunk)
    ensures
        r.id == id && r.created == created && r.model == model && r.usage is None,
        r.choices@ == seq![ChunkChoice { index: 0, delta, finish_reason }],
{
    let mut choices: Vec<ChunkChoice> = Vec::new();
    choices.push(ChunkChoice { index: 0, delta, finish_reason });
    assert(choices@ =~= seq![ChunkChoice { index: 0, delta, finish_reason }]);
    ChatCompletionsResponseChunk { id, created, model, choices, usage: None }
}

/// A chunk that holds repaired tool calls and nothing else.
pub open spec fn carries_calls(
    chunk: ChatCompletionsResponseChunk,
    id: String,
    created: u64,
    model: Seq<char>,
    calls: Vec<ToolCall>,
) -> bool {
    &&& chunk.id == id
    &&& chunk.created == created
    &&& chunk.model@ == model
    &&& chunk.usage is None
    &&& chunk.choices@.len() == 1
    &&& chunk.choices@[0].index == 0
    &&& chunk.choices@[0].delta == (Delta {
        role: None,
        content: None,
        reasoning_content: None,
        tool_calls: Some(calls),
        obfuscation: None,
    })
    &&& chunk.choices@[0].finish_reason.deep_view() == Some(FINISH_TOOL_CALLS@)
}

/// A chunk that only shows that the stream is alive: one empty function call.
pub open spec fn is_keepalive(chunk: ChatCompletionsResponseChunk, model: Seq<char>) -> bool {
    &&& chunk.id@ == "chatcmpl-keepalive"@
    &&& chunk.created == 0
    &&& chunk.model@ == model
    &&& chunk.usage is None
    &&& chunk.choices@.len() == 1
    &&& chunk.choices@[0].index == 0
    &&& chunk.choices@[0].finish_reason is None
    &&& chunk.choices@[0].delta.role is None
    &&& chunk.choices@[0].delta.content is None
    &&& chunk.choices@[0].delta.reasoning_content is None
    &&& chunk.choices@[0].delta.obfuscation is None
    &&& chunk.choices@[0].delta.tool_calls matches Some(calls)
    &&& calls@.len() == 1
    &&& calls@[0].id@.len() == 0
    &&& calls@[0].ty@ == "function"@
    &&& calls@[0].index == 0
    &&& calls@[0].custom is None
    &&& calls@[0].function matches Some(f)
    &&& f.name@.len() == 0
    &&& f.arguments@.len() == 0
}

impl Repair {
    /// A stream of chunks for `model`, with a repair at hand or not.
    pub fn new(model: String, can_repair: bool) -> (r: Repair)
        ensures
            r.phase is Forwarding,
            r.model == model,
            r.can_repair == can_repair,
    {
        Repair { phase: RepairPhase::Forwarding, model, can_repair }
    }

    /// What to do when the next chunk is asked for. The message of a failed
    /// repair goes out once; after that it is empty.
    pub fn next(&mut self) -> (r: RepairAction)
        ensures
            final(self).model == old(self).model,
            final(self).can_repair == old(self).can_repair,
            match old(self).phase {
                RepairPhase::Forwarding => r is PollUpstream && final(self).phase
                    == old(self).phase,
                RepairPhase::Repairing => r is PollRepair && final(self).phase == old(self).phase,
                RepairPhase::Failed(m) => {
                    &&& r matches RepairAction::Fail(e)
                    &&& e@ == AdapterErrorV::Internal(m@)
                    &&& final(self).phase matches RepairPhase::Failed(rest)
                    &&& rest@.len() == 0
                },
                RepairPhase::Done => r is End && final(self).phase == old(self).phase,
            },
    {
        match &self.phase {
            RepairPhase::Forwarding => RepairAction::PollUpstream,
            RepairPhase::Repairing => RepairAction::PollRepair,
            RepairPhase::Failed(m) => {
                let m = m.clone();
                self.phase = RepairPhase::Failed(String::new());
                RepairAction::Fail(OpenAIAdapterError::Internal(m))
            },
            RepairPhase::Done => RepairAction::End,
        }
    }

    /// What to do with what the stream of chunks brought: chunks and errors
    /// pass, but for tool calls that need repair.
    pub fn on_upstream(
        &mut self,
        item: Option<Result<ChatCompletionsResponseChunk, OpenAIAdapterError>>,
    ) -> (r: RepairAction)
        requires
            old(self).phase is Forwarding,
        ensures
            final(self).model == old(self).model,
            match item {
                Some(Ok(chunk)) => r == RepairAction::Emit(chunk) && *final(self) == *old(self),
                Some(Err(OpenAIAdapterError::ToolCallRepairNeeded(t))) => {
                    &&& !final(self).can_repair
                    &&& if old(self).can_repair {
                        r == RepairAction::StartRepair(t) && final(self).phase is Repairing
                    } else {
                        &&& r matches RepairAction::Fail(e)
                        &&& e@ == AdapterErrorV::Internal("no repair function"@)
                        &&& final(self).phase matches RepairPhase::Failed(m)
                        &&& m@.len() == 0
                    }
                },
                Some(Err(e)) => r == RepairAction::Fail(e) && *final(self) == *old(self),
                None => r is End && *final(self) == *old(self),
            },
    {
        match item {
            Some(Ok(chunk)) => RepairAction::Emit(chunk),
            Some(Err(OpenAIAdapterError::ToolCallRepairNeeded(t))) => {
                if self.can_repair {
                    self.can_repair = false;
                    self.phase = RepairPhase::Repairing;
                    RepairAction::StartRepair(t)
                } else {
                    self.phase = RepairPhase::Failed("no repair function".to_owned());
                    self.next()
                }
            },
            Some(Err(e)) => RepairAction::Fail(e),
            None => RepairAction::End,
        }
    }

    /// What to do with the outcome of a repair. A chunk that goes out gets the
    /// given id and time.
    pub fn on_repaired(
        &mut self,
        outcome: Result<Vec<ToolCall>, OpenAIAdapterError>,
        id: String,
        created: u64,
    ) -> (r: RepairAction)
        requires
            old(self).phase is Repairing,
        ensures
            final(self).model == old(self).model,
            final(self).can_repair == old(self).can_repair,
            match outcome {
                Ok(calls) => {
                    &&& final(self).phase is Done
                    &&& r matches RepairAction::Emit(chunk)
                    &&& carries_calls(chunk, id, created, old(self).model@, calls)
                },
                Err(e) => {
                    &&& r matches RepairAction::Fail(f)
                    &&& f@ == AdapterErrorV::Internal(
                        "Sửa thất bại: "@ + crate::openai_adapter::adapter_error_text(e@),
                    )
                    &&& final(self).phase matches RepairPhase::Failed(m)
                    &&& m@.len() == 0
                },
            },
    {
        match outcome {
            Ok(calls) => {
                self.phase = RepairPhase::Done;
                let delta = Delta {
                    role: None,
                    content: None,
                    reasoning_content: None,
                    tool_calls: Some(calls),
                    obfuscation: None,
                };
                let finish = Some(FINISH_TOOL_CALLS.to_owned());
                RepairAction::Emit(single_chunk(id, created, self.model.clone(), delta, finish))
            },
            Err(e) => {
                let m = text::cat2("Sửa thất bại: ", e.message().as_str());
                self.phase = RepairPhase::Failed(m);
                self.next()
            },
        }
    }

    /// The chunk that is sent while a repair takes long.
    pub fn keepalive(&self) -> (r: ChatCompletionsResponseChunk)
        ensures
            is_keepalive(r, self.model@),
    {
        let mut calls: Vec<ToolCall> = Vec::new();
        calls.push(
            ToolCall {
                id: String::new(),
                ty: "function".to_owned(),
                function: Some(FunctionCall { name: String::new(), arguments: String::new() }),
                custom: None,
                index: 0,
            },
        );
        let delta = Delta {
            role: None,
            content: None,
            reasoning_content: None,
            tool_calls: Some(calls),
            obfuscation: None,
        };
        single_chunk("chatcmpl-keepalive".to_owned(), 0, self.model.clone(), delta, None)
    }
}

/// What chunks have brought together.
#[verifier::ext_equal]
pub struct Collected {
    pub id: Seq<char>,
    pub created: u64,
    pub content: Seq<char>,
    pub reasoning: Seq<char>,
    pub tool_calls: Option<Vec<ToolCall>>,
    pub usage: Option<Usage>,
    pub finish_reason: Option<Seq<char>>,
}

/// Nothing yet.
pub open spec fn nothing_collected() -> Collected {
    Collected {
        id: Seq::empty(),
        created: 0,
        content: Seq::empty(),
        reasoning: Seq::empty(),
        tool_calls: None,
        usage: None,
        finish_reason: None,
    }
}

/// An optional text, empty where it is missing.
pub open spec fn text_or_empty(o: Option<String>) -> Seq<char> {
    match o {
        Some(t) => t@,
        None => Seq::empty(),
    }
}

/// What has been collected with one more chunk: the first id and time, the
/// last usage, the first reason to finish, the texts one after the other, the
/// last tool calls. Only the first alternative of a chunk counts.
pub open spec fn collected_next(c: Collected, chunk: ChatCompletionsResponseChunk) -> Collected {
    let head = Collected {
        id: if c.id.len() == 0 {
            chunk.id@
        } else {
            c.id
        },
        created: if c.id.len() == 0 {
            chunk.created
        } else {
            c.created
        },
        usage: if chunk.usage is Some {
            chunk.usage
        } else {
            c.usage
        },
        ..c
    };
    if chunk.choices@.len() == 0 {
        head
    } else {
        let choice = chunk.choices@[0];
        Collected {
            content: c.content + text_or_empty(choice.delta.content),
            reasoning: c.reasoning + text_or_empty(choice.delta.reasoning_content),
            tool_calls: match choice.delta.tool_calls {
                Some(calls) => if calls@.len() > 0 {
                    Some(calls)
                } else {
                    c.tool_calls
                },
                None => c.tool_calls,
            },
            finish_reason: if c.finish_reason is None {
                choice.finish_reason.deep_view()
            } else {
                c.finish_reason
            },
            ..head
        }
    }
}

/// What the first `n` chunks bring together.
pub open spec fn collected(chunks: Seq<ChatCompletionsResponseChunk>, n: int) -> Collected
    decreases n,
{
    if n <= 0 {
        nothing_collected()
    } else {
        collected_next(collected(chunks, n - 1), chunks[n - 1])
    }
}

/// The whole answer that was collected: without text there is none unless
/// tools are called; tool calls are the reason to finish.
pub open spec fn is_whole(c: Collected, model: Seq<char>, r: ChatCompletionsResponse) -> bool {
    &&& r.id@ == c.id
    &&& r.created == c.created
    &&& r.model@ == model
    &&& r.usage == c.usage
    &&& r.choices@.len() == 1
    &&& r.choices@[0].index == 0
    &&& r.choices@[0].message.tool_calls == c.tool_calls
    &&& r.choices@[0].message.content.deep_view() == (if c.content.len() == 0
        && c.tool_calls is None {
        None
    } else {
        Some(c.content)
    })
    &&& r.choices@[0].message.reasoning_content.deep_view() == (if c.reasoning.len() == 0 {
        None
    } else {
        Some(c.reasoning)
    })
    &&& r.choices@[0].finish_reason.deep_view() == (if c.tool_calls is Some {
        Some(FINISH_TOOL_CALLS@)
    } else {
        c.finish_reason
    })
}

/// Puts the chunks of an answer together.
#[derive(Debug)]
pub struct Collector {
    pub id: String,
    pub created: u64,
    pub content: String,
    pub reasoning: String,
    pub tool_calls: Option<Vec<ToolCall>>,
    pub usage: Option<Usage>,
    pub finish_reason: Option<String>,
}

impl View for Collector {
    type V = Collected;

    open spec fn view(&self) -> Collected {
        Collected {
            id: self.id@,
            created: self.created,
            content: self.content@,
            reasoning: self.reasoning@,
            tool_calls: self.tool_calls,
            usage: self.usage,
            finish_reason: self.finish_reason.deep_view(),
        }
    }
}

impl Collector {
    /// Nothing has been collected.
    pub fn new() -> (r: Collector)
        ensures
            r@ == nothing_collected(),
    {
        Collector {
            id: String::new(),
            created: 0,
            content: String::new(),
            reasoning: String::new(),
            tool_calls: None,
            usage: None,
            finish_reason: None,
        }
    }

    /// Takes in one more chunk.
    pub fn add_chunk(&mut self, chunk: ChatCompletionsResponseChunk)
        ensures
            final(self)@ == collected_next(old(self)@, chunk),
    {
        let ghost start = self@;
        let mut chunk = chunk;
        let ghost given = chunk;
        if self.id.as_str().is_empty() {
            self.id = chunk.id;
            self.created = chunk.created;
        }
        if let Some(u) = chunk.usage {
            self.usage = Some(u);
        }
        if chunk.choices.len() > 0 {
            let choice = chunk.choices.remove(0);
            assert(choice == given.choices@[0]);
            if self.finish_reason.is_none() {
                self.finish_reason = choice.finish_reason;
            }
            if let Some(c) = choice.delta.content {
                self.content.append(c.as_str());
            } else {
                assert(start.content + Seq::empty() =~= start.content);
            }
            if let Some(t) = choice.delta.reasoning_content {
                self.reasoning.append(t.as_str());
            } else {
                assert(start.reasoning + Seq::empty() =~= start.reasoning);
            }
            if let Some(calls) = choice.delta.tool_calls {
                if calls.len() > 0 {
                    self.tool_calls = Some(calls);
                }
            }
        }
        assert(self@ =~= collected_next(start, given));
    }

    /// The whole answer.
    pub fn finish(self, model: String) -> (r: ChatCompletionsResponse)
        ensures
            is_whole(self@, model@, r),
    {
        let has_calls = self.tool_calls.is_some();
        let content = if self.content.as_str().is_empty() && !has_calls {
            None
        } else {
            Some(self.content)
        };
        let reasoning_content = if self.reasoning.as_str().is_empty() {
            None
        } else {
            Some(self.reasoning)
        };
        let finish_reason = if has_calls {
            Some(FINISH_TOOL_CALLS.to_owned())
        } else {
            self.finish_reason
        };
        let mut choices: Vec<Choice> = Vec::new();
        choices.push(
            Choice {
                index: 0,
                message: MessageResponse {
                    content,
                    reasoning_content,
                    tool_calls: self.tool_calls,
                },
                finish_reason,
            },
        );
        ChatCompletionsResponse {
            id: self.id,
            created: self.created,
            model,
            choices,
            usage: self.usage,
        }
    }
}

/// The chunks before the first error among the items.
pub open spec fn chunks_of(
    items: Seq<Result<ChatCompletionsResponseChunk, OpenAIAdapterError>>,
) -> Seq<ChatCompletionsResponseChunk> {
    Seq::new(items.len(), |i: int| items[i]->Ok_0)
}

/// The whole answer of a stream of chunks, or its first error.
pub fn aggregate(
    items: Vec<Result<ChatCompletionsResponseChunk, OpenAIAdapterError>>,
    model: String,
) -> (r: Result<ChatCompletionsResponse, OpenAIAdapterError>)
    ensures
        match r {
            Ok(whole) => (forall|i: int| 0 <= i < items@.len() ==> #[trigger] items@[i] is Ok)
                && is_whole(collected(chunks_of(items@), items@.len() as int), model@, whole),
            Err(e) => exists|i: int|
                0 <= i < items@.len() && #[trigger] items@[i] == Err::<
                    ChatCompletionsResponseChunk,
                    OpenAIAdapterError,
                >(e) && (forall|j: int| 0 <= j < i ==> #[trigger] items@[j] is Ok),
        },
{
    let mut rest = items;
    let ghost all = rest@;
    let mut c = Collector::new();
    let ghost mut done: int = 0;
    assert(all.subrange(0, all.len() as int) =~= all);
    while rest.len() > 0
        invariant
            0 <= done <= all.len(),
            all == items@,
            rest@ == all.subrange(done, all.len() as int),
            forall|i: int| 0 <= i < done ==> #[trigger] all[i] is Ok,
            c@ == collected(chunks_of(all), done),
        decreases rest@.len(),
    {
        let item = rest.remove(0);
        assert(item == all[done]);
        match item {
            Ok(chunk) => {
                c.add_chunk(chunk);
                assert(chunks_of(all)[done] == chunk);
            },
            Err(e) => {
                assert(items@[done] == item);
                return Err(e);
            },
        }
        assert(rest@ =~= all.subrange(done + 1, all.len() as int));
        proof {
            done = done + 1;
        }
    }
    Ok(c.finish(model))
}

/// The texts of the first `n` chunks one after the other.
pub open spec fn contents(chunks: Seq<ChatCompletionsResponseChunk>, n: int) -> Seq<char>
    decreases n,
{
    if n <= 0 {
        Seq::empty()
    } else {
        contents(chunks, n - 1) + (match chunk_content(chunks[n - 1]) {
            Some(t) => t,
            None => Seq::empty(),
        })
    }
}

/// A whole answer says what its chunks say one after the other.
pub proof fn law_whole_answer_is_its_pieces(chunks: Seq<ChatCompletionsResponseChunk>, n: int)
    requires
        0 <= n <= chunks.len(),
    ensures
        collected(chunks, n).content == contents(chunks, n),
    decreases n,
{
    if n > 0 {
        law_whole_answer_is_its_pieces(chunks, n - 1);
        let before = contents(chunks, n - 1);
        assert(before + Seq::empty() =~= before);
    }
}

/// The text that a repairing model has answered so far.
#[derive(Debug)]
pub struct RepairText {
    pub text: String,
    /// The size in bytes above which the repair is given up.
    pub limit: usize,
}

impl RepairText {
    /// No text yet.
    pub fn new(limit: usize) -> (r: RepairText)
        ensures
            r.text@.len() == 0 && r.limit == limit,
    {
        RepairText { text: String::new(), limit }
    }

    /// Takes in a frame; only text of the answer counts.
    pub fn on_frame(&mut self, frame: &state::DsFrame) -> (r: Result<(), OpenAIAdapterError>)
        ensures
            final(self).limit == old(self).limit,
            final(self).text@ == (match frame@ {
                state::FrameV::Content(t) => old(self).text@ + t,
                _ => old(self).text@,
            }),
            match r {
                Ok(_) => frame@ is Content ==> vstd::utf8::encode_utf8(final(self).text@).len()
                    <= old(self).limit,
                Err(e) => frame@ is Content && vstd::utf8::encode_utf8(final(self).text@).len()
                    > old(self).limit && e@ == AdapterErrorV::Internal(
                    "Model sửa trả output quá dài, bỏ sửa"@,
                ),
            },
    {
        if let state::DsFrame::ContentDelta(t) = frame {
            self.text.append(t.as_str());
            if text::byte_len(self.text.as_str()) > self.limit {
                return Err(
                    OpenAIAdapterError::Internal(
                        "Model sửa trả output quá dài, bỏ sửa".to_owned(),
                    ),
                );
            }
        }
        Ok(())
    }

    /// The block of tool calls to read: the answer itself where it has an
    /// opening tag, else the answer between tags.
    pub fn wrapped(&self, has_start_tag: bool) -> (r: String)
        ensures
            r@ == (if has_start_tag {
                text::trimmed(self.text@)
            } else {
                TOOL_CALL_START@ + text::trimmed(self.text@) + TOOL_CALL_END@
            }),
    {
        let t = text::trim(self.text.as_str());
        if has_start_tag {
            t
        } else {
            text::cat3(TOOL_CALL_START, t.as_str(), TOOL_CALL_END)
        }
    }

    /// Whether the message about an answer that cannot be read can be written.
    pub fn can_report(&self) -> (r: bool)
        ensures
            r == reports_cleanly(self.text@),
    {
        let t = self.text.as_str();
        if text::byte_len(t) > 200 {
            t.is_char_boundary(200)
        } else {
            true
        }
    }

    /// The outcome of a repair whose answer was read as `calls`.
    pub fn outcome(&self, calls: Option<Vec<ToolCall>>) -> (r: Result<
        Vec<ToolCall>,
        OpenAIAdapterError,
    >)
        requires
            calls is None ==> reports_cleanly(self.text@),
        ensures
            match calls {
                None => {
                    &&& r matches Err(e)
                    &&& e@ == AdapterErrorV::Internal(
                        "Model sửa trả kết quả không parse được thành tool call: "@ + report_head(
                            self.text@,
                        ),
                    )
                },
                Some(c) => if text::trimmed(self.text@) == "[]"@ || text::trimmed(self.text@)
                    == "{}"@ {
                    &&& r matches Err(e)
                    &&& e@ == AdapterErrorV::Internal("Model sửa trả kết quả rỗng"@)
                } else {
                    r == Ok::<Vec<ToolCall>, OpenAIAdapterError>(c)
                },
            },
    {
        match calls {
            None => {
                let t = self.text.as_str();
                let head = if text::byte_len(t) > 200 {
                    text::take_bytes(t, 200)
                } else {
                    t.to_owned()
                };
                Err(
                    OpenAIAdapterError::Internal(
                        text::cat2(
                            "Model sửa trả kết quả không parse được thành tool call: ",
                            head.as_str(),
                        ),
                    ),
                )
            },
            Some(c) => {
                let t = text::trim(self.text.as_str());
                if text::same(t.as_str(), "[]") || text::same(t.as_str(), "{}") {
                    return Err(
                        OpenAIAdapterError::Internal("Model sửa trả kết quả rỗng".to_owned()),
                    );
                }
                Ok(c)
            },
        }
    }
}

/// Whether the first 200 bytes of a longer text form a text.
pub open spec fn reports_cleanly(t: Seq<char>) -> bool {
    vstd::utf8::encode_utf8(t).len() > 200 ==> vstd::utf8::is_char_boundary(
        vstd::utf8::encode_utf8(t),
        200,
    )
}

/// The part of a text that a message shows: its first 200 bytes.
pub open spec fn report_head(t: Seq<char>) -> Seq<char> {
    if vstd::utf8::encode_utf8(t).len() > 200 {
        text::byte_prefix(t, 200)
    } else {
        t
    }
}

/// The reasoning that the first alternative of a chunk adds.
pub open spec fn chunk_reasoning(chunk: ChatCompletionsResponseChunk) -> Option<Seq<char>> {
    if chunk.choices@.len() > 0 {
        chunk.choices@[0].delta.reasoning_content.deep_view()
    } else {
        None
    }
}

/// The reasonings of the first `n` chunks one after the other.
pub open spec fn reasonings(chunks: Seq<ChatCompletionsResponseChunk>, n: int) -> Seq<char>
    decreases n,
{
    if n <= 0 {
        Seq::empty()
    } else {
        reasonings(chunks, n - 1) + (match chunk_reasoning(chunks[n - 1]) {
            Some(t) => t,
            None => Seq::empty(),
        })
    }
}

/// A whole answer reasons what its chunks reason one after the other.
pub proof fn law_whole_reasoning_is_its_pieces(chunks: Seq<ChatCompletionsResponseChunk>, n: int)
    requires
        0 <= n <= chunks.len(),
    ensures
        collected(chunks, n).reasoning == reasonings(chunks, n),
    decreases n,
{
    if n > 0 {
        law_whole_reasoning_is_its_pieces(chunks, n - 1);
        let before = reasonings(chunks, n - 1);
        assert(before + Seq::empty() =~= before);
    }
}

/// A whole answer has the id and the time of the first chunk that has an id.
pub proof fn law_first_id_counts(chunks: Seq<ChatCompletionsResponseChunk>, k: int, n: int)
    requires
        0 <= k < n <= chunks.len(),
        chunks[k].id@.len() > 0,
        forall|i: int| 0 <= i < k ==> (#[trigger] chunks[i]).id@.len() == 0,
    ensures
        collected(chunks, n).id == chunks[k].id@,
        collected(chunks, n).created == chunks[k].created,
    decreases n,
{
    if n - 1 > k {
        law_first_id_counts(chunks, k, n - 1);
    } else {
        lemma_no_id_yet(chunks, k);
    }
}

proof fn lemma_no_id_yet(chunks: Seq<ChatCompletionsResponseChunk>, n: int)
    requires
        0 <= n <= chunks.len(),
        forall|i: int| 0 <= i < n ==> (#[trigger] chunks[i]).id@.len() == 0,
    ensures
        collected(chunks, n).id.len() == 0,
    decreases n,
{
    if n > 0 {
        lemma_no_id_yet(chunks, n - 1);
        assert(chunks[n - 1].id@.len() == 0);
    }
}

/// A whole answer has the usage of the last chunk that reports one, and none
/// where none does.
pub proof fn law_last_usage_counts(chunks: Seq<ChatCompletionsResponseChunk>, k: int, n: int)
    requires
        -1 <= k < n <= chunks.len(),
        k >= 0 ==> chunks[k].usage is Some,
        forall|i: int| k < i < n ==> (#[trigger] chunks[i]).usage is None,
    ensures
        collected(chunks, n).usage == (if k >= 0 {
            chunks[k].usage
        } else {
            None
        }),
    decreases n,
{
    if n - 1 > k {
        assert(chunks[n - 1].usage is None);
        if n - 1 > 0 {
            law_last_usage_counts(chunks, k, n - 1);
        }
    }
}

/// The reason to finish that the first alternative of a chunk names.
pub open spec fn chunk_finish(chunk: ChatCompletionsResponseChunk) -> Option<Seq<char>> {
    if chunk.choices@.len() > 0 {
        chunk.choices@[0].finish_reason.deep_view()
    } else {
        None
    }
}

proof fn lemma_no_finish_yet(chunks: Seq<ChatCompletionsResponseChunk>, n: int)
    requires
        0 <= n <= chunks.len(),
        forall|i: int| 0 <= i < n ==> chunk_finish(#[trigger] chunks[i]) is None,
    ensures
        collected(chunks, n).finish_reason is None,
    decreases n,
{
    if n > 0 {
        lemma_no_finish_yet(chunks, n - 1);
        assert(chunk_finish(chunks[n - 1]) is None);
    }
}

/// The first reason to finish that a chunk names counts; where none names one
/// there is none.
pub proof fn law_first_finish_counts(chunks: Seq<ChatCompletionsResponseChunk>, k: int, n: int)
    requires
        0 <= k <= n <= chunks.len(),
        k < n ==> chunk_finish(chunks[k]) is Some,
        forall|i: int| 0 <= i < k ==> chunk_finish(#[trigger] chunks[i]) is None,
    ensures
        collected(chunks, n).finish_reason == (if k < n {
            chunk_finish(chunks[k])
        } else {
            None
        }),
    decreases n,
{
    if k == n {
        lemma_no_finish_yet(chunks, n);
    } else if n - 1 > k {
        law_first_finish_counts(chunks, k, n - 1);
    } else {
        lemma_no_finish_yet(chunks, k);
    }
}

/// The tool calls that the first alternative of a chunk holds, none where the
/// list is empty.
pub open spec fn chunk_calls(chunk: ChatCompletionsResponseChunk) -> Option<Vec<ToolCall>> {
    if chunk.choices@.len() > 0 && chunk.choices@[0].delta.tool_calls is Some
        && chunk.choices@[0].delta.tool_calls->0@.len() > 0 {
        chunk.choices@[0].delta.tool_calls
    } else {
        None
    }
}

/// The last tool calls that a chunk holds count; where none holds any there are
/// none.
pub proof fn law_last_calls_count(chunks: Seq<ChatCompletionsResponseChunk>, k: int, n: int)
    requires
        -1 <= k < n <= chunks.len(),
        k >= 0 ==> chunk_calls(chunks[k]) is Some,
        forall|i: int| k < i < n ==> chunk_calls(#[trigger] chunks[i]) is None,
    ensures
        collected(chunks, n).tool_calls == (if k >= 0 {
            chunk_calls(chunks[k])
        } else {
            None
        }),
    decreases n,
{
    if n - 1 > k {
        assert(chunk_calls(chunks[n - 1]) is None);
        if n - 1 > 0 {
            law_last_calls_count(chunks, k, n - 1);
        }
    }
}

/// A whole answer says in one message all that its chunks said and reasoned,
/// with the tool calls among them. An answer that calls tools finishes for that
/// reason, another for the reason that its chunks name.
pub proof fn law_whole_answer_tells_everything(
    chunks: Seq<ChatCompletionsResponseChunk>,
    model: Seq<char>,
    r: ChatCompletionsResponse,
)
    requires
        is_whole(collected(chunks, chunks.len() as int), model, r),
    ensures
        ({
            let n = chunks.len() as int;
            let message = r.choices@[0].message;
            let c = collected(chunks, n);
            &&& r.choices@.len() == 1 && r.choices@[0].index == 0 && r.model@ == model
            &&& contents(chunks, n).len() > 0 ==> message.content.deep_view() == Some(
                contents(chunks, n),
            )
            &&& contents(chunks, n).len() == 0 ==> message.content is None
                || message.tool_calls is Some && message.content->0@.len() == 0
            &&& reasonings(chunks, n).len() > 0 ==> message.reasoning_content.deep_view() == Some(
                reasonings(chunks, n),
            )
            &&& reasonings(chunks, n).len() == 0 ==> message.reasoning_content is None
            &&& message.tool_calls == c.tool_calls && r.usage == c.usage
            &&& r.id@ == c.id && r.created == c.created
            &&& message.tool_calls is Some ==> r.choices@[0].finish_reason.deep_view() == Some(
                "tool_calls"@,
            )
            &&& message.tool_calls is None ==> r.choices@[0].finish_reason.deep_view()
                == c.finish_reason
        }),
{
    law_whole_answer_is_its_pieces(chunks, chunks.len() as int);
    law_whole_reasoning_is_its_pieces(chunks, chunks.len() as int);
}

/// A small chunk is padded to just the target size, a larger one by a fixed
/// amount.
pub proof fn law_padding_hides_the_size(json_len: int)
    requires
        0 <= json_len,
    ensures
        padding_size(json_len) > 0,
        json_len + 17 < 512 ==> json_len + 17 + padding_size(json_len) == 512,
        json_len + 17 >= 512 ==> padding_size(json_len) == 16,
{
}

/// A padded chunk says what it said before: only its padding is new.
pub proof fn law_padding_changes_nothing_else(
    a: ChatCompletionsResponseChunk,
    b: ChatCompletionsResponseChunk,
    padding: Seq<char>,
)
    requires
        a.choices@.len() > 0,
        chunk_padded(a, b, padding),
    ensures
        chunk_content(b) == chunk_content(a),
        chunk_reasoning(b) == chunk_reasoning(a),
        chunk_calls(b) == chunk_calls(a),
        chunk_finish(b) == chunk_finish(a),
        b.id == a.id && b.created == a.created && b.model == a.model && b.usage == a.usage,
        b.choices@.len() == a.choices@.len(),
        forall|i: int| 0 < i < a.choices@.len() ==> #[trigger] b.choices@[i] == a.choices@[i],
        b.choices@[0].delta.obfuscation.deep_view() == Some(padding),
{
    assert forall|i: int| 0 < i < a.choices@.len() implies #[trigger] b.choices@[i]
        == a.choices@[i] by {
        let n = a.choices@.len() as int;
        assert(b.choices@.subrange(1, n)[i - 1] == a.choices@.subrange(1, n)[i - 1]);
    }
}

/// A chunk that is cut off at a stop text says only what comes before it,
/// finishes with a stop, and is unchanged otherwise.
pub proof fn law_cut_chunk_stops(
    a: ChatCompletionsResponseChunk,
    b: ChatCompletionsResponseChunk,
    content: Seq<char>,
)
    requires
        a.choices@.len() > 0,
        chunk_cut(a, b, content),
    ensures
        content.len() > 0 ==> chunk_content(b) == Some(content),
        content.len() == 0 ==> chunk_content(b) is None,
        chunk_finish(b) == Some("stop"@),
        chunk_reasoning(b) == chunk_reasoning(a),
        chunk_calls(b) == chunk_calls(a),
        b.id == a.id && b.created == a.created && b.model == a.model && b.usage == a.usage,
        b.choices@.len() == a.choices@.len(),
        forall|i: int| 0 < i < a.choices@.len() ==> #[trigger] b.choices@[i] == a.choices@[i],
{
    assert forall|i: int| 0 < i < a.choices@.len() implies #[trigger] b.choices@[i]
        == a.choices@[i] by {
        let n = a.choices@.len() as int;
        assert(b.choices@.subrange(1, n)[i - 1] == a.choices@.subrange(1, n)[i - 1]);
    }
}

/// After an answer was cut off nothing of it passes: no text, no reasoning, no
/// calls. The report of the usage does, and so does a bare word that tools were
/// called.
pub proof fn law_nothing_said_passes_a_stop(chunk: ChatCompletionsResponseChunk)
    ensures
        passes_after_stop(chunk) ==> chunk_content(chunk) is None && chunk_reasoning(
            chunk,
        ) is None && chunk_calls(chunk) is None,
        chunk.choices@.len() == 0 && chunk.usage is Some ==> passes_after_stop(chunk),
        chunk.choices@.len() > 0 && passes_after_stop(chunk) ==> chunk_finish(chunk) == Some(
            "tool_calls"@,
        ),
        chunk.choices@.len() > 0 && chunk_content(chunk) is None && chunk_reasoning(chunk) is None
            && chunk.choices@[0].delta.tool_calls is None && chunk_finish(chunk) == Some(
            "tool_calls"@,
        ) ==> passes_after_stop(chunk),
{
}

/// Each stop text is met at its first place, and none comes earlier: before the
/// first stop there stands no stop text, and at it there stands one.
pub proof fn law_first_stop_is_first(content: Seq<char>, stops: Seq<Seq<char>>, k: int, j: int)
    requires
        0 <= k < stops.len(),
        text::stands_at(content, stops[k], j),
    ensures
        first_stop(content, stops) matches Some(p) && p <= j && exists|i: int|
            0 <= i < stops.len() && text::stands_at(content, #[trigger] stops[i], p),
{
    lemma_stop_is_first(content, stops, stops.len() as int, k, j);
    lemma_stop_stands(content, stops, stops.len() as int);
}

proof fn lemma_stop_stands(content: Seq<char>, stops: Seq<Seq<char>>, n: int)
    requires
        0 <= n <= stops.len(),
    ensures
        stop_position(content, stops, n) matches Some(p) ==> exists|i: int|
            0 <= i < n && text::stands_at(content, #[trigger] stops[i], p),
    decreases n,
{
    if n > 0 {
        lemma_stop_stands(content, stops, n - 1);
        text::lemma_find_bounds(content, stops[n - 1], 0);
        if let Some(p) = stop_position(content, stops, n) {
            if stop_position(content, stops, n - 1) == Some(p) {
                let i = choose|i: int|
                    0 <= i < n - 1 && text::stands_at(content, #[trigger] stops[i], p);
                assert(text::stands_at(content, stops[i], p));
            } else {
                assert(text::stands_at(content, stops[n - 1], p));
            }
        }
    }
}

/// The event of some JSON holds it whole, between the head of an event and its
/// end.
pub proof fn law_event_holds_its_json(json: Seq<u8>)
    ensures
        ({
            let e = event_of(json);
            let head = "data: ".spec_bytes();
            let end = "\n\n".spec_bytes();
            &&& e.len() == head.len() + json.len() + end.len()
            &&& e.subrange(0, head.len() as int) == head
            &&& e.subrange(head.len() as int, head.len() as int + json.len()) == json
            &&& e.subrange(head.len() as int + json.len(), e.len() as int) == end
        }),
{
    let e = event_of(json);
    let head = "data: ".spec_bytes();
    let end = "\n\n".spec_bytes();
    assert(e.subrange(0, head.len() as int) =~= head);
    assert(e.subrange(head.len() as int, head.len() as int + json.len()) =~= json);
    assert(e.subrange(head.len() as int + json.len(), e.len() as int) =~= end);
}

/// A chunk with repaired calls holds just these calls, and finishes for them.
pub proof fn law_repaired_chunk_holds_the_calls(
    chunk: ChatCompletionsResponseChunk,
    id: String,
    created: u64,
    model: Seq<char>,
    calls: Vec<ToolCall>,
)
    requires
        carries_calls(chunk, id, created, model, calls),
    ensures
        chunk.choices@.len() == 1,
        calls@.len() > 0 ==> chunk_calls(chunk) == Some(calls),
        chunk_content(chunk) is None && chunk_reasoning(chunk) is None,
        chunk_finish(chunk) == Some("tool_calls"@),
        chunk.id == id && chunk.created == created && chunk.model@ == model,
        chunk.usage is None,
{
}

/// A chunk that only keeps the stream alive says nothing, calls nothing by name
/// and finishes nothing.
pub proof fn law_keepalive_says_nothing(chunk: ChatCompletionsResponseChunk, model: Seq<char>)
    requires
        is_keepalive(chunk, model),
    ensures
        chunk_content(chunk) is None && chunk_reasoning(chunk) is None && chunk_finish(
            chunk,
        ) is None && chunk.usage is None,
        chunk_calls(chunk) matches Some(calls) && calls@.len() == 1 && (calls@[0].function matches
            Some(f) && f.name@.len() == 0 && f.arguments@.len() == 0),
        chunk.model@ == model,
{
}

/// What a message shows of a text is its beginning, and all of a text of up to
/// 200 bytes.
pub proof fn law_report_shows_the_head(t: Seq<char>)
    requires
        reports_cleanly(t),
    ensures
        ({
            let all = vstd::utf8::encode_utf8(t);
            &&& all.len() <= 200 ==> report_head(t) == t
            &&& all.len() > 200 ==> vstd::utf8::encode_utf8(report_head(t)) == all.subrange(0, 200)
        }),
{
    let all = vstd::utf8::encode_utf8(t);
    if all.len() > 200 {
        vstd::utf8::encode_utf8_valid_utf8(t);
        vstd::utf8::valid_utf8_split(all, 200);
        vstd::utf8::decode_utf8_encode_utf8(all.subrange(0, 200));
    }
}

/// A padding stands in the first alternative, is as long as it was to be, and is
/// made of the symbols of base64 alone; nothing else of the chunk changes.
pub proof fn law_padding_is_symbols(
    a: ChatCompletionsResponseChunk,
    b: ChatCompletionsResponseChunk,
    len: int,
    i: int,
)
    requires
        padded_by(a, b, len),
        0 <= i < len,
    ensures
        b.choices@[0].delta.obfuscation matches Some(p) && p@.len() == len && encoding::is_symbol(
            p@[i],
        ),
        b.choices@[0].delta.content == a.choices@[0].delta.content,
        b.choices@[0].finish_reason == a.choices@[0].finish_reason,
        b.id == a.id && b.model == a.model && b.usage == a.usage,
{
    let padding = choose|padding: Seq<char>| #[trigger]
        chunk_padded(a, b, padding) && padding.len() == len && (forall|k: int|
            0 <= k < len ==> encoding::is_symbol(#[trigger] padding[k]));
    assert(encoding::is_symbol(padding[i]));
}

} // verus!
