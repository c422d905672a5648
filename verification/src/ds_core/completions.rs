//! One conversation with the back end: session, uploads, proof of work,
//! completion, clean-up.
//!
//! Every request gets a session of its own, which goes when the answer has
//! been read. A long history travels as an uploaded file.

use vstd::prelude::*;

use crate::ds_core::{CoreError, CoreErrorV};
use crate::json;
use crate::json::Json;
use crate::openai_adapter::request::prompt;
use crate::text;

verus! {

/// The limit of a model type for which none is configured.
pub const DEFAULT_CHARACTER_LIMIT: usize = 163_840;

/// The name of the file that carries the history.
pub const SESSION_HISTORY_FILE: &'static str = "EMPTY.txt";

/// A file that goes with a request.
#[derive(Debug)]
pub struct FilePayload {
    pub filename: String,
    pub content: Vec<u8>,
    pub content_type: String,
}

/// A request to the back end.
#[derive(Debug)]
pub struct ChatRequest {
    pub prompt: String,
    pub thinking_enabled: bool,
    pub search_enabled: bool,
    pub model_type: String,
    pub files: Vec<FilePayload>,
}

/// The first position from `i` on at which `t` stands.
pub open spec fn position_from(list: Seq<Seq<char>>, t: Seq<char>, i: int) -> Option<int>
    decreases list.len() - i,
{
    if i < 0 || i >= list.len() {
        None
    } else if list[i] == t {
        Some(i)
    } else {
        position_from(list, t, i + 1)
    }
}

/// How many characters a model type takes at once.
pub open spec fn character_limit(
    types: Seq<Seq<char>>,
    limits: Seq<u32>,
    model_type: Seq<char>,
) -> int {
    match position_from(types, model_type, 0) {
        Some(i) => if i < limits.len() {
            limits[i] as int
        } else {
            DEFAULT_CHARACTER_LIMIT as int
        },
        None => DEFAULT_CHARACTER_LIMIT as int,
    }
}

/// How many characters a model type takes at once.
pub fn input_character_limit_for(
    model_types: &Vec<String>,
    limits: &Vec<u32>,
    model_type: &str,
) -> (r: usize)
    ensures
        r == character_limit(text::strs(model_types@), limits@, model_type@),
        r <= u32::MAX,
{
    let ghost types = text::strs(model_types@);
    let mut i: usize = 0;
    while i < model_types.len()
        invariant
            i <= model_types@.len(),
            types == text::strs(model_types@),
            position_from(types, model_type@, 0) == position_from(types, model_type@, i as int),
        decreases model_types@.len() - i,
    {
        if text::same(model_types[i].as_str(), model_type) {
            return if i < limits.len() {
                limits[i] as usize
            } else {
                DEFAULT_CHARACTER_LIMIT
            };
        }
        i += 1;
    }
    DEFAULT_CHARACTER_LIMIT
}

/// Three quarters of a limit.
pub open spec fn three_quarters(limit: int) -> int {
    limit * 75 / 100
}

/// Three quarters of a limit.
pub fn chunk_threshold(limit: usize) -> (r: usize)
    requires
        limit <= u32::MAX,
    ensures
        r == three_quarters(limit as int),
{
    let scaled: u64 = limit as u64 * 75 / 100;
    scaled as usize
}

/// How a request reaches the back end.
#[derive(Debug, Clone, Copy, PartialEq, Eq, Structural)]
pub enum Route {
    /// As one prompt.
    Direct,
    /// With the history as an uploaded file.
    HistoryFile,
    /// In several messages of one session.
    Chunked,
}

/// How a prompt of so many characters reaches the back end: one of more than
/// three quarters of the limit is cut into messages for the expert model, and has
/// its history uploaded for the others.
pub open spec fn route_for(chars: int, limit: int, model_type: Seq<char>) -> Route {
    if chars > three_quarters(limit) {
        if model_type == "expert"@ {
            Route::Chunked
        } else {
            Route::HistoryFile
        }
    } else {
        Route::Direct
    }
}

/// How a request reaches the back end.
pub fn choose_route(prompt: &str, limit: usize, model_type: &str) -> (r: Route)
    requires
        limit <= u32::MAX,
    ensures
        r == route_for(prompt@.len() as int, limit as int, model_type@),
{
    let threshold: usize = chunk_threshold(limit);
    if text::char_count(prompt) > threshold {
        if text::same(model_type, "expert") {
            Route::Chunked
        } else {
            Route::HistoryFile
        }
    } else {
        Route::Direct
    }
}

/// The pieces of at most `size` characters from position `pos` on.
pub open spec fn pieces_from(s: Seq<char>, size: int, pos: int) -> Seq<Seq<char>>
    decreases s.len() - pos,
{
    if size <= 0 || pos < 0 || pos >= s.len() {
        Seq::empty()
    } else if s.len() - pos <= size {
        seq![s.subrange(pos, s.len() as int)]
    } else {
        seq![s.subrange(pos, pos + size)] + pieces_from(s, size, pos + size)
    }
}

/// Cuts a prompt into pieces of `chunk_size` characters; the last may be
/// shorter.
pub fn split_prompt_chunks(prompt: &str, chunk_size: usize) -> (r: Vec<String>)
    requires
        chunk_size > 0,
    ensures
        text::strs(r@) == pieces_from(prompt@, chunk_size as int, 0),
{
    let v = text::chars_of(prompt);
    let mut out: Vec<String> = Vec::new();
    let mut pos: usize = 0;
    let ghost all = pieces_from(prompt@, chunk_size as int, 0);
    assert(text::strs(out@) + all =~= all);
    while pos < v.len()
        invariant
            pos <= v@.len(),
            v@ == prompt@,
            chunk_size > 0,
            text::strs(out@) + pieces_from(prompt@, chunk_size as int, pos as int) == all,
        decreases v@.len() - pos,
    {
        let left: usize = v.len() - pos;
        let end: usize = if left <= chunk_size {
            v.len()
        } else {
            pos + chunk_size
        };
        let ghost before = text::strs(out@);
        let ghost after = pieces_from(prompt@, chunk_size as int, end as int);
        let piece = text::text_of(&v, pos, end);
        text::add_line(&mut out, piece.as_str());
        assert(before.push(piece@) + after =~= before + (seq![piece@] + after));
        if left <= chunk_size {
            assert(after =~= Seq::empty());
            assert(seq![piece@] + after =~= seq![piece@]);
        }
        pos = end;
    }
    assert(pieces_from(prompt@, chunk_size as int, pos as int) =~= Seq::empty());
    assert(text::strs(out@) + Seq::empty() =~= text::strs(out@));
    out
}

/// Texts one after the other.
pub open spec fn concatenated(parts: Seq<Seq<char>>) -> Seq<char>
    decreases parts.len(),
{
    if parts.len() == 0 {
        Seq::empty()
    } else {
        parts[0] + concatenated(parts.subrange(1, parts.len() as int))
    }
}

/// The pieces of a prompt give the prompt back. Every piece but the last is as
/// long as asked, the last is not empty and not longer, and there are just as
/// many as that takes.
pub proof fn law_pieces_keep_all_text(s: Seq<char>, size: int, pos: int)
    requires
        size > 0,
        0 <= pos <= s.len(),
    ensures
        concatenated(pieces_from(s, size, pos)) == s.subrange(pos, s.len() as int),
        forall|i: int|
            0 <= i < pieces_from(s, size, pos).len() ==> 0 < (#[trigger] pieces_from(
                s,
                size,
                pos,
            )[i]).len() <= size,
        forall|i: int|
            0 <= i < pieces_from(s, size, pos).len() - 1 ==> (#[trigger] pieces_from(
                s,
                size,
                pos,
            )[i]).len() == size,
        pieces_from(s, size, pos).len() == (s.len() - pos + size - 1) / size,
    decreases s.len() - pos,
{
    let pieces = pieces_from(s, size, pos);
    let left = s.len() - pos;
    vstd::arithmetic::div_mod::lemma_div_plus_one(left - 1, size);
    if pos >= s.len() {
        assert(s.subrange(pos, s.len() as int) =~= Seq::empty());
        vstd::arithmetic::div_mod::lemma_basic_div(size - 1, size);
    } else if s.len() - pos <= size {
        vstd::arithmetic::div_mod::lemma_basic_div(left - 1, size);
        assert(pieces.subrange(1, 1) =~= Seq::empty());
        assert(concatenated(pieces.subrange(1, 1)) =~= Seq::empty());
        assert(concatenated(pieces) =~= s.subrange(pos, s.len() as int));
    } else {
        law_pieces_keep_all_text(s, size, pos + size);
        let rest = pieces_from(s, size, pos + size);
        assert(pieces.subrange(1, pieces.len() as int) =~= rest);
        assert(concatenated(pieces) =~= s.subrange(pos, s.len() as int));
        assert forall|i: int| 0 <= i < pieces.len() implies 0 < (#[trigger] pieces[i]).len()
            <= size && (i < pieces.len() - 1 ==> pieces[i].len() == size) by {
            if i > 0 {
                assert(pieces[i] == rest[i - 1]);
            }
        }
    }
}

/// One tagged block of a prompt.
#[derive(Debug)]
pub struct ChatBlock {
    pub role: String,
    pub content: String,
}

/// The model of a `ChatBlock`.
#[verifier::ext_equal]
pub struct BlockV {
    pub role: Seq<char>,
    pub content: Seq<char>,
}

impl View for ChatBlock {
    type V = BlockV;

    open spec fn view(&self) -> BlockV {
        BlockV { role: self.role@, content: self.content@ }
    }
}

/// The models of a sequence of blocks.
pub open spec fn blocks_view(v: Seq<ChatBlock>) -> Seq<BlockV> {
    Seq::new(v.len(), |i: int| v[i]@)
}

/// The blocks of a prompt from position `pos` on. A block begins with
/// `<｜role｜>` and ends at the next `<｜` or at the end; line breaks at its end
/// do not count.
pub open spec fn blocks_from(s: Seq<char>, pos: int) -> Seq<BlockV>
    decreases s.len() - pos,
{
    match text::find_from(s, "<｜"@, pos) {
        Some(start) => match text::find_from(s, "｜>"@, start + 2) {
            Some(role_end) => {
                let content_start = role_end + 2;
                let content_end = match text::find_from(s, "<｜"@, content_start) {
                    Some(e) => e,
                    None => s.len() as int,
                };
                if pos <= start && start + 2 <= role_end && content_start <= content_end
                    <= s.len() {
                    Seq::empty().push(
                        BlockV {
                            role: text::lowercase(
                                text::trimmed(s.subrange(start + 2, role_end)),
                            ),
                            content: text::without_tail(
                                s.subrange(content_start, content_end),
                                '\n',
                            ),
                        },
                    ) + blocks_from(s, content_end)
                } else {
                    Seq::empty()
                }
            },
            None => Seq::empty(),
        },
        None => Seq::empty(),
    }
}

/// The blocks of a prompt.
pub fn parse_native_blocks(prompt: &str) -> (r: Vec<ChatBlock>)
    ensures
        blocks_view(r@) == blocks_from(prompt@, 0),
{
    let v = text::chars_of(prompt);
    let open = text::chars_of("<｜");
    let close = text::chars_of("｜>");
    proof {
        reveal_strlit("<｜");
        reveal_strlit("｜>");
    }
    let mut out: Vec<ChatBlock> = Vec::new();
    let mut pos: usize = 0;
    let ghost all = blocks_from(prompt@, 0);
    assert(blocks_view(out@) + all =~= all);
    loop
        invariant
            v@ == prompt@,
            open@ == "<｜"@,
            close@ == "｜>"@,
            "<｜"@.len() == 2,
            "｜>"@.len() == 2,
            pos <= v@.len(),
            all == blocks_from(prompt@, 0),
            blocks_view(out@) + blocks_from(prompt@, pos as int) == all,
        decreases v@.len() - pos,
    {
        proof {
            text::lemma_find_bounds(v@, "<｜"@, pos as int);
        }
        let start: usize = match text::find_chars(&v, &open, pos) {
            Some(i) => i,
            None => {
                assert(blocks_view(out@) + Seq::empty() =~= blocks_view(out@));
                return out;
            },
        };
        assert(v.len() == v@.len());
        let role_start: usize = start + 2;
        proof {
            text::lemma_find_bounds(v@, "｜>"@, role_start as int);
        }
        let role_end: usize = match text::find_chars(&v, &close, role_start) {
            Some(i) => i,
            None => {
                assert(blocks_view(out@) + Seq::empty() =~= blocks_view(out@));
                return out;
            },
        };
        let role = text::trim(text::text_of(&v, role_start, role_end).as_str());
        let content_start: usize = role_end + 2;
        proof {
            text::lemma_find_bounds(v@, "<｜"@, content_start as int);
        }
        let content_end: usize = match text::find_chars(&v, &open, content_start) {
            Some(i) => i,
            None => v.len(),
        };
        let content = text::trim_end_char(
            text::text_of(&v, content_start, content_end).as_str(),
            '\n',
        );
        let block = ChatBlock { role: text::to_lowercase(role.as_str()), content };
        let ghost before = blocks_view(out@);
        out.push(block);
        assert(blocks_view(out@) =~= before.push(block@));
        let ghost after = blocks_from(prompt@, content_end as int);
        assert(before.push(block@) + after =~= before + (Seq::empty().push(block@) + after));
        pos = content_end;
    }
}

/// A block as it stands in a prompt.
pub open spec fn block_text(b: BlockV) -> Seq<char> {
    (prompt::tag_text(b.role) + b.content).push('\n')
}

/// The first `n` blocks one after the other.
pub open spec fn blocks_text(blocks: Seq<BlockV>, n: int) -> Seq<char>
    decreases n,
{
    if n <= 0 {
        Seq::empty()
    } else {
        blocks_text(blocks, n - 1) + block_text(blocks[n - 1])
    }
}

/// The last of the first `n` blocks whose role is the assistant's.
pub open spec fn last_assistant(blocks: Seq<BlockV>, n: int) -> Option<int>
    decreases n,
{
    if n <= 0 {
        None
    } else if blocks[n - 1].role == "assistant"@ {
        Some(n - 1)
    } else {
        last_assistant(blocks, n - 1)
    }
}

/// A prompt cut in two: what is sent with the request and what goes into the
/// history file. The last assistant block is sent; all other blocks are history.
/// Without an assistant block all is sent.
pub open spec fn split_prompt(s: Seq<char>) -> (Seq<char>, Seq<char>) {
    let blocks = blocks_from(s, 0);
    match last_assistant(blocks, blocks.len() as int) {
        Some(k) => (
            block_text(blocks[k]),
            "[file content end]\n\n"@ + blocks_text(blocks.remove(k), blocks.len() - 1)
                + "[file name]: IGNORE\n[file content begin]\n"@,
        ),
        None => (s, Seq::empty()),
    }
}

fn write_block(b: &ChatBlock) -> (r: String)
    ensures
        r@ == block_text(b@),
{
    let mut s = text::cat2(prompt::role_tag(b.role.as_str()).as_str(), b.content.as_str());
    s.push('\n');
    s
}

/// Cuts a prompt in two: what is sent and what goes into the history file.
pub fn split_history_prompt(prompt: &str) -> (r: (String, String))
    ensures
        (r.0@, r.1@) == split_prompt(prompt@),
{
    let blocks = parse_native_blocks(prompt);
    let ghost all = blocks_view(blocks@);
    let mut n: usize = blocks.len();
    while n > 0
        invariant
            n <= blocks@.len(),
            all == blocks_view(blocks@),
            all == blocks_from(prompt@, 0),
            last_assistant(all, all.len() as int) == last_assistant(all, n as int),
        decreases n,
    {
        if text::same(blocks[n - 1].role.as_str(), "assistant") {
            let inline = write_block(&blocks[n - 1]);
            let ghost rest = all.remove(n - 1);
            let mut inner = String::new();
            let mut i: usize = 0;
            while i < n - 1
                invariant
                    i <= n - 1 < blocks@.len(),
                    all == blocks_view(blocks@),
                    rest == all.remove(n - 1),
                    inner@ == blocks_text(rest, i as int),
                decreases n - i,
            {
                inner.append(write_block(&blocks[i]).as_str());
                i += 1;
            }
            i = n;
            while i < blocks.len()
                invariant
                    0 < n <= i <= blocks@.len(),
                    all == blocks_view(blocks@),
                    rest == all.remove(n - 1),
                    inner@ == blocks_text(rest, i - 1),
                decreases blocks@.len() - i,
            {
                inner.append(write_block(&blocks[i]).as_str());
                assert(rest[i - 1] == all[i as int]);
                i += 1;
            }
            let history = text::cat3(
                "[file content end]\n\n",
                inner.as_str(),
                "[file name]: IGNORE\n[file content begin]\n",
            );
            return (inline, history);
        }
        n -= 1;
    }
    (prompt.to_owned(), String::new())
}

proof fn lemma_blocks_text_holds(blocks: Seq<BlockV>, n: int, i: int)
    requires
        0 <= i < n <= blocks.len(),
    ensures
        text::occurs(blocks_text(blocks, n), block_text(blocks[i])),
    decreases n,
{
    let none = Seq::<char>::empty();
    let before = blocks_text(blocks, n - 1);
    let last = block_text(blocks[n - 1]);
    let whole = blocks_text(blocks, n);
    if i == n - 1 {
        assert(whole =~= before + last + none);
        text::lemma_occurs_between(before, last, none);
    } else {
        lemma_blocks_text_holds(blocks, n - 1, i);
        assert(whole =~= none + before + last);
        text::lemma_occurs_between(none, before, last);
        text::lemma_occurs_through(whole, before, block_text(blocks[i]));
    }
}

proof fn lemma_last_assistant(blocks: Seq<BlockV>, n: int)
    requires
        n <= blocks.len(),
    ensures
        last_assistant(blocks, n) matches Some(k) ==> 0 <= k < n && blocks[k].role
            == "assistant"@,
    decreases n,
{
    if n > 0 && blocks[n - 1].role != "assistant"@ {
        lemma_last_assistant(blocks, n - 1);
    }
}

/// Cutting a prompt in two loses no block of it: each is in what is sent or in
/// what goes into the history file.
pub proof fn law_split_keeps_every_block(s: Seq<char>, i: int)
    requires
        0 <= i < blocks_from(s, 0).len(),
    ensures
        ({
            let blocks = blocks_from(s, 0);
            match last_assistant(blocks, blocks.len() as int) {
                Some(k) => if i == k {
                    split_prompt(s).0 == block_text(blocks[i])
                } else {
                    text::occurs(split_prompt(s).1, block_text(blocks[i]))
                },
                None => split_prompt(s).0 == s,
            }
        }),
{
    let blocks = blocks_from(s, 0);
    lemma_last_assistant(blocks, blocks.len() as int);
    if let Some(k) = last_assistant(blocks, blocks.len() as int) {
        if i != k {
            let rest = blocks.remove(k);
            let at = if i < k {
                i
            } else {
                i - 1
            };
            assert(rest[at] == blocks[i]);
            lemma_blocks_text_holds(rest, rest.len() as int, at);
            let inner = blocks_text(rest, blocks.len() - 1);
            text::lemma_occurs_between(
                "[file content end]\n\n"@,
                inner,
                "[file name]: IGNORE\n[file content begin]\n"@,
            );
            text::lemma_occurs_through(split_prompt(s).1, inner, block_text(blocks[i]));
        }
    }
}

/// The first two events of a text, where both are complete.
pub open spec fn two_events(s: Seq<char>) -> Option<(Seq<char>, Seq<char>)> {
    match text::find_from(s, "\n\n"@, 0) {
        Some(i) => match text::find_from(s, "\n\n"@, i + 2) {
            Some(j) => Some((s.subrange(0, i), s.subrange(i + 2, j))),
            None => None,
        },
        None => None,
    }
}

/// The first two events of a text, where both are complete.
pub fn split_two_events(buf: &str) -> (r: Option<(String, String)>)
    ensures
        match r {
            Some(p) => two_events(buf@) == Some((p.0@, p.1@)),
            None => two_events(buf@) is None,
        },
{
    let v = text::chars_of(buf);
    let sep = text::chars_of("\n\n");
    proof {
        reveal_strlit("\n\n");
        text::lemma_find_bounds(buf@, "\n\n"@, 0);
    }
    let i: usize = match text::find_chars(&v, &sep, 0) {
        Some(i) => i,
        None => {
            return None;
        },
    };
    assert(v.len() == v@.len());
    proof {
        text::lemma_find_bounds(buf@, "\n\n"@, i + 2);
    }
    match text::find_chars(&v, &sep, i + 2) {
        Some(j) => Some((text::text_of(&v, 0, i), text::text_of(&v, i + 2, j))),
        None => None,
    }
}

/// The event name that a line gives.
pub open spec fn event_name(line: Seq<char>) -> Option<Seq<char>> {
    match text::after_prefix(text::trimmed(line), "event:"@) {
        Some(v) => Some(text::trimmed(v)),
        None => None,
    }
}

/// Whether some line of an event gives it this name.
pub open spec fn has_name(event: Seq<char>, name: Seq<char>) -> bool {
    exists|i: int|
        0 <= i < text::lines_of(event).len() && event_name(#[trigger] text::lines_of(event)[i])
            == Some(name)
}

/// Whether some line of an event gives it this name.
pub fn is_event(event: &str, name: &str) -> (r: bool)
    ensures
        r == has_name(event@, name@),
{
    let lines = text::lines(event);
    let ghost all = text::lines_of(event@);
    let mut i: usize = 0;
    while i < lines.len()
        invariant
            i <= lines@.len(),
            all == text::lines_of(event@),
            all == text::strs(lines@),
            forall|k: int| 0 <= k < i ==> event_name(#[trigger] all[k]) != Some(name@),
        decreases lines@.len() - i,
    {
        let line = text::trim(lines[i].as_str());
        assert(all[i as int] == lines@[i as int]@);
        if let Some(v) = text::strip_prefix(line.as_str(), "event:") {
            let v = text::trim(v.as_str());
            if text::same(v.as_str(), name) {
                assert(event_name(all[i as int]) == Some(name@));
                return true;
            }
        }
        i += 1;
    }
    false
}

/// The error that a hint reports: too many requests, or too long an input.
pub open spec fn hint_error(event: Seq<char>) -> Option<CoreErrorV> {
    if !has_name(event, "hint"@) {
        None
    } else if text::occurs(event, "rate_limit"@) {
        Some(CoreErrorV::Overloaded)
    } else if text::occurs(event, "input_exceeds_limit"@) {
        Some(
            CoreErrorV::ProviderError("Nội dung đầu vào quá dài, hãy rút ngắn rồi thử lại"@),
        )
    } else {
        None
    }
}

/// An optional error's model.
pub open spec fn opt_error(o: Option<CoreError>) -> Option<CoreErrorV> {
    match o {
        Some(e) => Some(e@),
        None => None,
    }
}

/// The error that a hint reports: too many requests, or too long an input.
pub fn check_hint(event_block: &str) -> (r: Option<CoreError>)
    ensures
        opt_error(r) == hint_error(event_block@),
{
    if !is_event(event_block, "hint") {
        return None;
    }
    if text::contains(event_block, "rate_limit") {
        return Some(CoreError::Overloaded);
    }
    if text::contains(event_block, "input_exceeds_limit") {
        return Some(
            CoreError::ProviderError(
                "Nội dung đầu vào quá dài, hãy rút ngắn rồi thử lại".to_owned(),
            ),
        );
    }
    None
}

/// The ids of a request's message and of its answer that a value gives.
pub open spec fn message_ids(v: Json) -> Option<(int, int)> {
    match (v.member("request_message_id"@), v.member("response_message_id"@)) {
        (Some(a), Some(b)) => match (a.int64(), b.int64()) {
            (Some(x), Some(y)) => Some((x, y)),
            _ => None,
        },
        _ => None,
    }
}

/// The ids of a request's message and of its answer that a value gives.
pub fn message_ids_of(v: &Json) -> (r: Option<(i64, i64)>)
    ensures
        match r {
            Some(p) => message_ids(*v) == Some((p.0 as int, p.1 as int)),
            None => message_ids(*v) is None,
        },
{
    match (v.get("request_message_id"), v.get("response_message_id")) {
        (Some(a), Some(b)) => match (a.as_i64(), b.as_i64()) {
            (Some(x), Some(y)) => Some((x, y)),
            _ => None,
        },
        _ => None,
    }
}

/// The ids that the lines from position `i` on give, `(1, 2)` where none does.
pub open spec fn ready_ids_from(lines: Seq<Seq<char>>, i: int) -> (int, int)
    decreases lines.len() - i,
{
    if i < 0 || i >= lines.len() {
        (1, 2)
    } else {
        let ids = match text::after_prefix(lines[i], "data: "@) {
            Some(data) => match json::parsed(data) {
                Some(v) => message_ids(v),
                None => None,
            },
            None => None,
        };
        match ids {
            Some(p) => p,
            None => ready_ids_from(lines, i + 1),
        }
    }
}

/// The ids of a request's message and of its answer that an event gives,
/// `(1, 2)` where it gives none.
pub fn parse_ready_message_ids(event: &str) -> (r: (i64, i64))
    ensures
        (r.0 as int, r.1 as int) == ready_ids_from(text::lines_of(event@), 0),
{
    let lines = text::lines(event);
    let ghost all = text::lines_of(event@);
    let mut i: usize = 0;
    while i < lines.len()
        invariant
            i <= lines@.len(),
            all == text::strs(lines@),
            all == text::lines_of(event@),
            ready_ids_from(all, 0) == ready_ids_from(all, i as int),
        decreases lines@.len() - i,
    {
        assert(all[i as int] == lines@[i as int]@);
        if let Some(data) = text::strip_prefix(lines[i].as_str(), "data: ") {
            if let Some(v) = json::parse(data.as_str()) {
                if let Some(ids) = message_ids_of(&v) {
                    return ids;
                }
            }
        }
        i += 1;
    }
    (1, 2)
}

/// The error that a JSON answer with a code stands for.
pub open spec fn code_error(code: int, msg: Seq<char>) -> CoreErrorV {
    if code == 1001 || code == 1201 {
        CoreErrorV::Overloaded
    } else if code == 40301 {
        CoreErrorV::ProviderError("INVALID_POW_RESPONSE: "@ + msg)
    } else {
        CoreErrorV::ProviderError(
            "API error code="@ + text::signed_decimal(code) + ": "@ + msg,
        )
    }
}

/// The error that an answer stands for that is no event stream, given what it
/// reads as.
pub open spec fn json_error(val: Option<Json>, raw: Seq<char>) -> CoreErrorV {
    let code = match val {
        Some(v) => match v.member("code"@) {
            Some(c) => c.int64(),
            None => None,
        },
        None => None,
    };
    match code {
        Some(c) => code_error(
            c,
            match val->0.string_member("msg"@) {
                Some(m) => m,
                None => "unknown"@,
            },
        ),
        None => CoreErrorV::Stream("Không parse được phản hồi: "@ + text::prefix(raw, 200)),
    }
}

/// The error that an answer stands for that is no event stream, given what it
/// reads as.
pub fn describe_json_error(val: Option<Json>, raw: &str) -> (r: CoreError)
    ensures
        r@ == json_error(val, raw@),
{
    if let Some(v) = &val {
        if let Some(c) = v.get("code") {
            if let Some(code) = c.as_i64() {
                let msg = match v.get_str("msg") {
                    Some(m) => m.clone(),
                    None => "unknown".to_owned(),
                };
                return if code == 1001 || code == 1201 {
                    CoreError::Overloaded
                } else if code == 40301 {
                    CoreError::ProviderError(text::cat2("INVALID_POW_RESPONSE: ", msg.as_str()))
                } else {
                    let number = text::signed_decimal_of(code);
                    CoreError::ProviderError(
                        text::cat4("API error code=", number.as_str(), ": ", msg.as_str()),
                    )
                };
            }
        }
    }
    let head = text::take_chars(raw, 200);
    CoreError::Stream(text::cat2("Không parse được phản hồi: ", head.as_str()))
}

/// The error that an answer stands for that is no event stream.
pub fn parse_json_error(t: &str) -> (r: CoreError)
    ensures
        r@ == json_error(json::parsed(text::trimmed(t@)), text::trimmed(t@)),
{
    let raw = text::trim(t);
    let val = json::parse(raw.as_str());
    describe_json_error(val, raw.as_str())
}

/// The first of the lines from position `i` on that is JSON.
pub open spec fn first_json(lines: Seq<Seq<char>>, i: int) -> Option<Json>
    decreases lines.len() - i,
{
    if i < 0 || i >= lines.len() {
        None
    } else {
        match json::parsed(lines[i]) {
            Some(v) => Some(v),
            None => first_json(lines, i + 1),
        }
    }
}

/// The error that a value reports by a business code.
pub open spec fn business_error(v: Json) -> Option<CoreErrorV> {
    match v.member("data"@) {
        Some(data) => match data.member("biz_code"@) {
            Some(c) => match c.int64() {
                Some(code) => Some(
                    CoreErrorV::ProviderError(
                        "biz_code="@ + text::signed_decimal(code) + ", "@ + (
                        match data.string_member("biz_msg"@) {
                            Some(m) => m,
                            None => ""@,
                        }),
                    ),
                ),
                None => None,
            },
            None => None,
        },
        None => None,
    }
}

/// The error that a value reports by a business code.
pub fn business_error_of(v: &Json) -> (r: Option<CoreError>)
    ensures
        opt_error(r) == business_error(*v),
{
    if let Some(data) = v.get("data") {
        if let Some(c) = data.get("biz_code") {
            if let Some(code) = c.as_i64() {
                let msg = match data.get_str("biz_msg") {
                    Some(m) => m.clone(),
                    None => "".to_owned(),
                };
                let number = text::signed_decimal_of(code);
                return Some(
                    CoreError::ProviderError(
                        text::cat4("biz_code=", number.as_str(), ", ", msg.as_str()),
                    ),
                );
            }
        }
    }
    None
}

fn find_json(lines: &Vec<String>) -> (r: Option<Json>)
    ensures
        r == first_json(text::strs(lines@), 0),
{
    let ghost all = text::strs(lines@);
    let mut i: usize = 0;
    while i < lines.len()
        invariant
            i <= lines@.len(),
            all == text::strs(lines@),
            first_json(all, 0) == first_json(all, i as int),
        decreases lines@.len() - i,
    {
        if let Some(v) = json::parse(lines[i].as_str()) {
            return Some(v);
        }
        i += 1;
    }
    None
}

/// What an answer that ended before its first two events means: whether the
/// account is at fault, and the error. With `plain_json` an answer that is one
/// JSON object counts too.
#[verifier::ext_equal]
pub struct EarlyEnd {
    pub mark: bool,
    pub error: CoreErrorV,
}

/// What an answer that ended before its first two events means, given the
/// first JSON line of it and what the whole reads as.
pub open spec fn early_end(
    raw: Seq<char>,
    byte_count: nat,
    line: Option<Json>,
    whole: Option<Json>,
    plain_json: bool,
) -> EarlyEnd {
    let business = match line {
        Some(v) => business_error(v),
        None => None,
    };
    if business is Some {
        EarlyEnd { mark: true, error: business->0 }
    } else if plain_json && text::stands_at(text::trimmed(raw), "{"@, 0) {
        EarlyEnd { mark: true, error: json_error(whole, text::trimmed(raw)) }
    } else {
        EarlyEnd {
            mark: false,
            error: CoreErrorV::Stream(
                "Stream SSE rỗng (đã nhận "@ + text::decimal(byte_count) + " byte)"@,
            ),
        }
    }
}

/// What an answer that ended before its first two events means, given the
/// first JSON line of it and what the whole reads as.
pub fn explain_early_end(
    raw: &str,
    byte_count: usize,
    line: Option<Json>,
    whole: Option<Json>,
    plain_json: bool,
) -> (r: (bool, CoreError))
    ensures
        (EarlyEnd { mark: r.0, error: r.1@ }) == early_end(
            raw@,
            byte_count as nat,
            line,
            whole,
            plain_json,
        ),
{
    if let Some(v) = &line {
        if let Some(e) = business_error_of(v) {
            return (true, e);
        }
    }
    let trimmed = text::trim(raw);
    if plain_json && text::starts_with(trimmed.as_str(), "{") {
        return (true, describe_json_error(whole, trimmed.as_str()));
    }
    let number = text::decimal_of(byte_count as u64);
    (
        false,
        CoreError::Stream(
            text::cat3("Stream SSE rỗng (đã nhận ", number.as_str(), " byte)"),
        ),
    )
}

/// What an answer of these bytes means that ended before its first two events.
pub open spec fn ended_early(bytes: Seq<u8>, plain_json: bool) -> EarlyEnd {
    let raw = text::lossy(bytes);
    early_end(
        raw,
        bytes.len(),
        first_json(text::lines_of(raw), 0),
        json::parsed(text::trimmed(raw)),
        plain_json,
    )
}

/// What an answer of these bytes means that ended before its first two events.
pub fn explain_end(bytes: &Vec<u8>, plain_json: bool) -> (r: (bool, CoreError))
    ensures
        (EarlyEnd { mark: r.0, error: r.1@ }) == ended_early(bytes@, plain_json),
{
    let raw = text::from_utf8_lossy(bytes.as_slice());
    let line = find_json(&text::lines(raw.as_str()));
    let trimmed = text::trim(raw.as_str());
    let whole = json::parse(trimmed.as_str());
    explain_early_end(raw.as_str(), bytes.len(), line, whole, plain_json)
}

/// What a search for the end of a message's registration found.
#[derive(Debug)]
pub enum ReadyScan {
    /// It is not over; the id that is known so far.
    More(Option<i64>),
    /// The back end refused.
    Failed(CoreError),
    /// The message is registered; the id of its answer.
    Ready(i64),
}

/// The model of a `ReadyScan`.
#[verifier::ext_equal]
pub enum ReadyV {
    More(Option<int>),
    Failed(CoreErrorV),
    Ready(int),
}

impl View for ReadyScan {
    type V = ReadyV;

    open spec fn view(&self) -> ReadyV {
        match *self {
            ReadyScan::More(id) => ReadyV::More(opt_int(id)),
            ReadyScan::Failed(e) => ReadyV::Failed(e@),
            ReadyScan::Ready(id) => ReadyV::Ready(id as int),
        }
    }
}

/// An optional number as an integer.
pub open spec fn opt_int(o: Option<i64>) -> Option<int> {
    match o {
        Some(n) => Some(n as int),
        None => None,
    }
}

/// How many of the pieces between blank lines are whole events.
pub open spec fn complete_count(s: Seq<char>) -> int {
    let events = text::split_from(s, "\n\n"@, 0);
    if text::stands_at(s, "\n\n"@, s.len() - 2) {
        events.len() as int
    } else {
        events.len() - 1
    }
}

/// What the events from position `i` to `n` say, given the id known so far. A
/// hint refuses; `ready` gives the id; `update_session` ends the search once
/// the id is known.
pub open spec fn ready_scan(events: Seq<Seq<char>>, i: int, n: int, id: Option<int>) -> ReadyV
    decreases n - i,
{
    if i >= n || i < 0 || n > events.len() {
        ReadyV::More(id)
    } else if events[i].len() == 0 {
        ready_scan(events, i + 1, n, id)
    } else {
        match hint_error(events[i]) {
            Some(e) => ReadyV::Failed(e),
            None => {
                let known = if has_name(events[i], "ready"@) {
                    Some(ready_ids_from(text::lines_of(events[i]), 0).1)
                } else {
                    id
                };
                if known is Some && has_name(events[i], "update_session"@) {
                    ReadyV::Ready(known->0)
                } else {
                    ready_scan(events, i + 1, n, known)
                }
            },
        }
    }
}

/// What the text so far says about a message's registration.
pub open spec fn registration(s: Seq<char>, id: Option<int>) -> ReadyV {
    ready_scan(text::split_from(s, "\n\n"@, 0), 0, complete_count(s), id)
}

/// What the text so far says about a message's registration, given the id
/// known so far.
pub fn scan_registration(s: &str, id: Option<i64>) -> (r: ReadyScan)
    ensures
        r@ == registration(s@, opt_int(id)),
{
    proof {
        reveal_strlit("\n\n");
    }
    let events = text::split(s, "\n\n");
    let ghost all = text::split_from(s@, "\n\n"@, 0);
    assert(text::strs(events@).len() == events@.len());
    let n: usize = if text::ends_with(s, "\n\n") {
        events.len()
    } else {
        events.len() - 1
    };
    let mut known = id;
    let mut i: usize = 0;
    while i < n
        invariant
            i <= n <= events@.len(),
            n == complete_count(s@),
            all == text::strs(events@),
            all == text::split_from(s@, "\n\n"@, 0),
            all.len() == events@.len(),
            ready_scan(all, 0, n as int, opt_int(id)) == ready_scan(
                all,
                i as int,
                n as int,
                opt_int(known),
            ),
        decreases n - i,
    {
        let event = events[i].as_str();
        assert(event@ == all[i as int]);
        if !event.is_empty() {
            if let Some(e) = check_hint(event) {
                return ReadyScan::Failed(e);
            }
            if is_event(event, "ready") {
                let ids = parse_ready_message_ids(event);
                known = Some(ids.1);
            }
            if let Some(k) = known {
                if is_event(event, "update_session") {
                    return ReadyScan::Ready(k);
                }
            }
        }
        i += 1;
    }
    ReadyScan::More(known)
}

/// Whether a whole event of the text so far closes the stream.
pub open spec fn closed(s: Seq<char>) -> bool {
    exists|i: int|
        0 <= i < complete_count(s) && has_name(
            #[trigger] text::split_from(s, "\n\n"@, 0)[i],
            "close"@,
        )
}

/// Whether a whole event of the text so far closes the stream.
pub fn is_closed(s: &str) -> (r: bool)
    ensures
        r == closed(s@),
{
    proof {
        reveal_strlit("\n\n");
    }
    let events = text::split(s, "\n\n");
    let ghost all = text::split_from(s@, "\n\n"@, 0);
    assert(text::strs(events@).len() == events@.len());
    let n: usize = if text::ends_with(s, "\n\n") {
        events.len()
    } else {
        events.len() - 1
    };
    let mut i: usize = 0;
    while i < n
        invariant
            i <= n <= events@.len(),
            n == complete_count(s@),
            all == text::strs(events@),
            all == text::split_from(s@, "\n\n"@, 0),
            forall|k: int| 0 <= k < i ==> !has_name(#[trigger] all[k], "close"@),
        decreases n - i,
    {
        assert(events@[i as int]@ == all[i as int]);
        if is_event(events[i].as_str(), "close") {
            assert(has_name(all[i as int], "close"@));
            return true;
        }
        i += 1;
    }
    false
}

/// The limit of a model type is the one configured at its first place, and the
/// usual one where none is.
pub proof fn law_limit_belongs_to_the_type(
    types: Seq<Seq<char>>,
    limits: Seq<u32>,
    model_type: Seq<char>,
    i: int,
)
    requires
        0 <= i < types.len(),
        types[i] == model_type,
        forall|j: int| 0 <= j < i ==> #[trigger] types[j] != model_type,
    ensures
        i < limits.len() ==> character_limit(types, limits, model_type) == limits[i],
        i >= limits.len() ==> character_limit(types, limits, model_type) == 163_840,
{
    lemma_position(types, model_type, 0, i);
}

proof fn lemma_position(list: Seq<Seq<char>>, t: Seq<char>, k: int, i: int)
    requires
        0 <= k <= i < list.len(),
        list[i] == t,
        forall|j: int| k <= j < i ==> #[trigger] list[j] != t,
    ensures
        position_from(list, t, k) == Some(i),
    decreases i - k,
{
    if k < i {
        assert(list[k] != t);
        lemma_position(list, t, k + 1, i);
    }
}

/// A model type that is not configured has the usual limit.
pub proof fn law_unknown_type_has_the_usual_limit(
    types: Seq<Seq<char>>,
    limits: Seq<u32>,
    model_type: Seq<char>,
)
    requires
        !types.contains(model_type),
    ensures
        character_limit(types, limits, model_type) == 163_840,
{
    lemma_no_position(types, model_type, 0);
}

proof fn lemma_no_position(list: Seq<Seq<char>>, t: Seq<char>, k: int)
    requires
        0 <= k,
        !list.contains(t),
    ensures
        position_from(list, t, k) is None,
    decreases list.len() - k,
{
    if k < list.len() {
        assert(list.contains(list[k]));
        lemma_no_position(list, t, k + 1);
    }
}

/// The threshold is three quarters of the limit, rounded down.
pub proof fn law_threshold_is_three_quarters(limit: int)
    requires
        0 <= limit,
    ensures
        4 * three_quarters(limit) <= 3 * limit < 4 * (three_quarters(limit) + 1),
{
}

proof fn lemma_find_at(s: Seq<char>, pat: Seq<char>, start: int, i: int)
    requires
        0 <= start <= i,
        text::stands_at(s, pat, i),
        forall|j: int| start <= j < i ==> !text::stands_at(s, pat, j),
    ensures
        text::find_from(s, pat, start) == Some(i),
    decreases i - start,
{
    if start < i {
        assert(!text::stands_at(s, pat, start));
        lemma_find_at(s, pat, start + 1, i);
    }
}

proof fn lemma_find_shift(a: Seq<char>, b: Seq<char>, pat: Seq<char>, i: int)
    requires
        0 <= i,
    ensures
        text::find_from(a + b, pat, a.len() + i) == (match text::find_from(b, pat, i) {
            Some(k) => Some(a.len() + k),
            None => None,
        }),
    decreases b.len() - i + 1,
{
    if i + pat.len() <= b.len() {
        assert((a + b).subrange(a.len() + i, a.len() + i + pat.len()) =~= b.subrange(
            i,
            i + pat.len(),
        ));
        if !text::stands_at(b, pat, i) {
            lemma_find_shift(a, b, pat, i + 1);
        }
    }
}

proof fn lemma_blocks_shift(a: Seq<char>, b: Seq<char>, pos: int)
    requires
        0 <= pos <= b.len(),
    ensures
        blocks_from(a + b, a.len() + pos) == blocks_from(b, pos),
    decreases b.len() - pos,
{
    reveal_strlit("<｜");
    reveal_strlit("｜>");
    let s = a + b;
    lemma_find_shift(a, b, "<｜"@, pos);
    text::lemma_find_bounds(b, "<｜"@, pos);
    if let Some(start) = text::find_from(b, "<｜"@, pos) {
        lemma_find_shift(a, b, "｜>"@, start + 2);
        text::lemma_find_bounds(b, "｜>"@, start + 2);
        if let Some(role_end) = text::find_from(b, "｜>"@, start + 2) {
            let content_start = role_end + 2;
            lemma_find_shift(a, b, "<｜"@, content_start);
            text::lemma_find_bounds(b, "<｜"@, content_start);
            let content_end = match text::find_from(b, "<｜"@, content_start) {
                Some(e) => e,
                None => b.len() as int,
            };
            assert(s.subrange(a.len() + (start + 2), a.len() + role_end) =~= b.subrange(
                start + 2,
                role_end,
            ));
            assert(s.subrange(a.len() + content_start, a.len() + content_end) =~= b.subrange(
                content_start,
                content_end,
            ));
            lemma_blocks_shift(a, b, content_end);
        }
    }
}

/// A prompt is read back as it was written: a tag, a content and a line break
/// are one block, and what follows is read by itself.
pub proof fn law_written_block_is_read_back(
    role: Seq<char>,
    content: Seq<char>,
    rest: Seq<char>,
)
    requires
        !text::occurs(role, "｜>"@),
        !text::occurs(content, "<｜"@),
        content.len() > 0 ==> content.last() != '\n',
        rest.len() == 0 || text::stands_at(rest, "<｜"@, 0),
    ensures
        blocks_from("<｜"@ + role + "｜>"@ + content + "\n"@ + rest, 0) == seq![
            BlockV { role: text::lowercase(text::trimmed(role)), content },
        ] + blocks_from(rest, 0),
{
    reveal_strlit("<｜");
    reveal_strlit("｜>");
    reveal_strlit("\n");
    let head = "<｜"@ + role + "｜>"@ + content + "\n"@;
    let s = head + rest;
    let r = role.len() as int;
    let c = content.len() as int;
    assert("<｜"@ + role + "｜>"@ + content + "\n"@ + rest == s);
    assert(s.subrange(0, 2) =~= "<｜"@);
    lemma_find_at(s, "<｜"@, 0, 0);
    assert(s.subrange(2 + r, 4 + r) =~= "｜>"@);
    assert forall|j: int| 2 <= j < 2 + r implies !text::stands_at(s, "｜>"@, j) by {
        if text::stands_at(s, "｜>"@, j) {
            assert(s.subrange(j, j + 2)[1] == s[j + 1]);
            if j + 2 <= 2 + r {
                assert(role.subrange(j - 2, j) =~= s.subrange(j, j + 2));
                text::lemma_find_is_first(role, "｜>"@, 0, j - 2);
            } else {
                assert(s[j + 1] == '｜');
            }
        }
    }
    lemma_find_at(s, "｜>"@, 2, 2 + r);
    let start = 4 + r;
    let end = head.len() as int;
    assert(end == start + c + 1);
    assert forall|j: int| start <= j < end implies !text::stands_at(s, "<｜"@, j) by {
        if text::stands_at(s, "<｜"@, j) {
            assert(s.subrange(j, j + 2)[0] == s[j]);
            assert(s.subrange(j, j + 2)[1] == s[j + 1]);
            if j + 2 <= start + c {
                assert(content.subrange(j - start, j - start + 2) =~= s.subrange(j, j + 2));
                text::lemma_find_is_first(content, "<｜"@, 0, j - start);
            } else if j < start + c {
                assert(s[j + 1] == '\n');
            } else {
                assert(s[j] == '\n');
            }
        }
    }
    if rest.len() > 0 {
        assert(rest.subrange(0, 2) == "<｜"@);
        assert(s.subrange(end, end + 2) =~= rest.subrange(0, 2));
        lemma_find_at(s, "<｜"@, start, end);
    } else {
        text::lemma_find_bounds(s, "<｜"@, start);
        assert(s =~= head);
        if let Some(e) = text::find_from(s, "<｜"@, start) {
            assert(!text::stands_at(s, "<｜"@, e));
        }
    }
    let said = s.subrange(start, end);
    assert(said =~= content.push('\n'));
    assert(said.drop_last() =~= content);
    assert(text::without_tail(said, '\n') == content) by {
        reveal_with_fuel(text::without_tail, 3);
    }
    assert(s.subrange(2, 2 + r) =~= role);
    lemma_blocks_shift(head, rest, 0);
    let block = BlockV { role: text::lowercase(text::trimmed(role)), content };
    assert(Seq::empty().push(block) + blocks_from(rest, 0) =~= seq![block] + blocks_from(rest, 0));
}

/// What is sent of a prompt is its last block of the assistant: no later block is
/// the assistant's.
pub proof fn law_last_answer_is_sent(s: Seq<char>, k: int)
    requires
        0 <= k < blocks_from(s, 0).len(),
        blocks_from(s, 0)[k].role == "assistant"@,
        forall|j: int|
            k < j < blocks_from(s, 0).len() ==> (#[trigger] blocks_from(s, 0)[j]).role
                != "assistant"@,
    ensures
        ({
            let b = blocks_from(s, 0)[k];
            split_prompt(s).0 == "<｜"@ + prompt::capitalized(b.role) + "｜>"@ + b.content + "\n"@
        }),
{
    let blocks = blocks_from(s, 0);
    lemma_last_is(blocks, blocks.len() as int, k);
    reveal_strlit("\n");
    let b = blocks[k];
    assert(block_text(b) =~= "<｜"@ + prompt::capitalized(b.role) + "｜>"@ + b.content + "\n"@);
}

proof fn lemma_last_is(blocks: Seq<BlockV>, n: int, k: int)
    requires
        0 <= k < n <= blocks.len(),
        blocks[k].role == "assistant"@,
        forall|j: int| k < j < n ==> (#[trigger] blocks[j]).role != "assistant"@,
    ensures
        last_assistant(blocks, n) == Some(k),
    decreases n,
{
    if n - 1 > k {
        assert(blocks[n - 1].role != "assistant"@);
        lemma_last_is(blocks, n - 1, k);
    }
}

proof fn lemma_blocks_text_prefix(a: Seq<BlockV>, b: Seq<BlockV>, n: int)
    requires
        0 <= n <= a.len(),
    ensures
        blocks_text(a + b, n) == blocks_text(a, n),
    decreases n,
{
    if n > 0 {
        lemma_blocks_text_prefix(a, b, n - 1);
        assert((a + b)[n - 1] == a[n - 1]);
    }
}

/// Blocks are written one after the other, each once.
pub proof fn law_history_keeps_the_order(a: Seq<BlockV>, b: Seq<BlockV>, n: int)
    requires
        0 <= n <= b.len(),
    ensures
        blocks_text(a + b, a.len() + n) == blocks_text(a, a.len() as int) + blocks_text(b, n),
    decreases n,
{
    if n == 0 {
        lemma_blocks_text_prefix(a, b, a.len() as int);
        assert(blocks_text(a, a.len() as int) + Seq::<char>::empty() =~= blocks_text(
            a,
            a.len() as int,
        ));
    } else {
        law_history_keeps_the_order(a, b, n - 1);
        assert((a + b)[a.len() + n - 1] == b[n - 1]);
        assert(blocks_text(a + b, a.len() + n) =~= blocks_text(a, a.len() as int) + blocks_text(
            b,
            n,
        ));
    }
}

/// A history file holds the blocks between its marks, whole and in order.
pub proof fn law_history_file_is_marked(s: Seq<char>)
    ensures
        ({
            let blocks = blocks_from(s, 0);
            match last_assistant(blocks, blocks.len() as int) {
                Some(k) => {
                    let rest = blocks.subrange(0, k) + blocks.subrange(k + 1, blocks.len() as int);
                    split_prompt(s).1 == "[file content end]\n\n"@ + blocks_text(
                        rest,
                        rest.len() as int,
                    ) + "[file name]: IGNORE\n[file content begin]\n"@
                },
                None => split_prompt(s).1.len() == 0,
            }
        }),
{
    let blocks = blocks_from(s, 0);
    lemma_last_assistant(blocks, blocks.len() as int);
    if let Some(k) = last_assistant(blocks, blocks.len() as int) {
        let rest = blocks.subrange(0, k) + blocks.subrange(k + 1, blocks.len() as int);
        assert(blocks.remove(k) =~= rest);
    }
}

/// The first two events are what stands before the first two blank lines; there
/// are two exactly where there are two blank lines.
pub proof fn law_two_events_end_with_blank_lines(s: Seq<char>)
    ensures
        two_events(s) matches Some(p) ==> {
            let n = p.0.len() + 2 + p.1.len() + 2;
            &&& n <= s.len()
            &&& s.take(n as int) == p.0 + "\n\n"@ + p.1 + "\n\n"@
            &&& !text::occurs(p.0, "\n\n"@)
            &&& !text::occurs(p.1, "\n\n"@)
        },
        two_events(s) is None ==> forall|i: int, j: int|
            !(#[trigger] text::stands_at(s, "\n\n"@, i) && #[trigger] text::stands_at(
                s,
                "\n\n"@,
                j,
            ) && i + 2 <= j),
{
    reveal_strlit("\n\n");
    let sep = "\n\n"@;
    text::lemma_find_bounds(s, sep, 0);
    match text::find_from(s, sep, 0) {
        Some(i) => {
            text::lemma_find_bounds(s, sep, i + 2);
            lemma_none_within(s, sep, 0, i);
            match text::find_from(s, sep, i + 2) {
                Some(j) => {
                    lemma_none_within(s, sep, i + 2, j);
                    let a = s.subrange(0, i);
                    let b = s.subrange(i + 2, j);
                    assert(s.subrange(i, i + 2) == sep);
                    assert(s.subrange(j, j + 2) == sep);
                    assert(s.take(j + 2) =~= a + sep + b + sep);
                },
                None => {
                    assert forall|k: int, j: int|
                        !(#[trigger] text::stands_at(s, sep, k) && #[trigger] text::stands_at(
                            s,
                            sep,
                            j,
                        ) && k + 2 <= j) by {
                        if text::stands_at(s, sep, k) && text::stands_at(s, sep, j) && k + 2 <= j {
                            text::lemma_find_is_first(s, sep, 0, k);
                            text::lemma_find_is_first(s, sep, i + 2, j);
                        }
                    }
                },
            }
        },
        None => {
            assert forall|k: int, j: int|
                !(#[trigger] text::stands_at(s, sep, k) && #[trigger] text::stands_at(s, sep, j)
                    && k + 2 <= j) by {
                if text::stands_at(s, sep, k) {
                    text::lemma_find_is_first(s, sep, 0, k);
                }
            }
        },
    }
}

proof fn lemma_none_within(s: Seq<char>, sep: Seq<char>, start: int, i: int)
    requires
        sep.len() > 0,
        0 <= start <= i <= s.len(),
        text::find_from(s, sep, start) == Some(i),
    ensures
        !text::occurs(s.subrange(start, i), sep),
{
    let head = s.subrange(start, i);
    text::lemma_find_bounds(head, sep, 0);
    if text::occurs(head, sep) {
        let j = text::find_from(head, sep, 0)->0;
        assert(s.subrange(start + j, start + j + sep.len()) =~= head.subrange(j, j + sep.len()));
        text::lemma_find_is_first(s, sep, start, start + j);
    }
}

/// A hint about too many requests means that no account is free, one about too
/// long an input is the request's own fault; no other event is an error.
pub proof fn law_hints_are_errors(event: Seq<char>)
    ensures
        !has_name(event, "hint"@) ==> hint_error(event) is None,
        has_name(event, "hint"@) && text::occurs(event, "rate_limit"@) ==> hint_error(event)
            == Some(CoreErrorV::Overloaded),
        has_name(event, "hint"@) && !text::occurs(event, "rate_limit"@) && text::occurs(
            event,
            "input_exceeds_limit"@,
        ) ==> hint_error(event) is Some && hint_error(event)->0 is ProviderError,
        hint_error(event) is Some ==> text::occurs(event, "rate_limit"@) || text::occurs(
            event,
            "input_exceeds_limit"@,
        ),
{
}

/// The ids of a line that gives both are taken, from the first such line; without
/// one they are 1 and 2.
pub proof fn law_first_ids_count(lines: Seq<Seq<char>>, i: int, k: int, v: Json)
    requires
        0 <= i <= k < lines.len(),
        text::stands_at(lines[k], "data: "@, 0),
        json::parsed(lines[k].subrange("data: "@.len() as int, lines[k].len() as int)) == Some(v),
        message_ids(v) is Some,
        forall|j: int|
            i <= j < k ==> !text::stands_at(#[trigger] lines[j], "data: "@, 0) || json::parsed(
                lines[j].subrange("data: "@.len() as int, lines[j].len() as int),
            ) is None,
    ensures
        ready_ids_from(lines, i) == message_ids(v)->0,
        ready_ids_from(lines, lines.len() as int) == (1int, 2int),
    decreases k - i,
{
    if i < k {
        assert(!text::stands_at(lines[i], "data: "@, 0) || json::parsed(
            lines[i].subrange("data: "@.len() as int, lines[i].len() as int),
        ) is None);
        law_first_ids_count(lines, i + 1, k, v);
    }
}

/// The ids are the request's and the answer's, each under its own name.
pub proof fn law_ids_have_names(v: Json)
    ensures
        message_ids(v) matches Some(p) ==> {
            &&& v.member("request_message_id"@) matches Some(a) && a.int64() == Some(p.0)
            &&& v.member("response_message_id"@) matches Some(b) && b.int64() == Some(p.1)
        },
        (v.member("request_message_id"@) matches Some(a) && a.int64() is Some) && (v.member(
            "response_message_id"@,
        ) matches Some(b) && b.int64() is Some) ==> message_ids(v) is Some,
{
}

/// An answer with a code of overload means that no account is free; every other
/// code is told with what the back end says of it.
pub proof fn law_codes_are_told(code: int, msg: Seq<char>)
    ensures
        code_error(code, msg) is Overloaded <==> code == 1001 || code == 1201,
        code_error(code, msg) matches CoreErrorV::ProviderError(t) ==> text::stands_at(
            t,
            msg,
            t.len() - msg.len(),
        ),
        code != 1001 && code != 1201 && code != 40301 ==> (code_error(
            code,
            msg,
        ) matches CoreErrorV::ProviderError(t) && text::occurs(t, text::signed_decimal(code))),
        code == 40301 ==> (code_error(code, msg) matches CoreErrorV::ProviderError(t) && t
            == "INVALID_POW_RESPONSE: "@ + msg),
{
    let a = "INVALID_POW_RESPONSE: "@ + msg;
    assert(a.subrange(a.len() - msg.len(), a.len() as int) =~= msg);
    let n = text::signed_decimal(code);
    let b = "API error code="@ + n + ": "@ + msg;
    assert(b.subrange(b.len() - msg.len(), b.len() as int) =~= msg);
    assert(b =~= "API error code="@ + n + (": "@ + msg));
    text::lemma_occurs_between("API error code="@, n, ": "@ + msg);
}

/// An answer that is no event stream is told by its code where it has one, and
/// else by its own beginning.
pub proof fn law_odd_answers_are_told(val: Option<Json>, raw: Seq<char>, v: Json, code: int)
    ensures
        val == Some(v) && (v.member("code"@) matches Some(c) && c.int64() == Some(code)) ==> (
        v.string_member("msg"@) matches Some(m) ==> json_error(val, raw) == code_error(code, m)),
        val is None ==> (json_error(val, raw) matches CoreErrorV::Stream(t) && text::stands_at(
            t,
            text::prefix(raw, 200),
            t.len() - text::prefix(raw, 200).len(),
        )),
{
    let head = text::prefix(raw, 200);
    let t = "Không parse được phản hồi: "@ + head;
    assert(t.subrange(t.len() - head.len(), t.len() as int) =~= head);
}

/// A business code is an error of the back end, told with its message.
pub proof fn law_business_codes_are_told(v: Json, data: Json, code: int)
    requires
        v.member("data"@) == Some(data),
        data.member("biz_code"@) matches Some(c) && c.int64() == Some(code),
    ensures
        business_error(v) matches Some(CoreErrorV::ProviderError(t)) && text::occurs(
            t,
            "biz_code="@ + text::signed_decimal(code),
        ) && (data.string_member("biz_msg"@) matches Some(m) ==> text::stands_at(
            t,
            m,
            t.len() - m.len(),
        )),
{
    let n = text::signed_decimal(code);
    let m = match data.string_member("biz_msg"@) {
        Some(m) => m,
        None => ""@,
    };
    let t = "biz_code="@ + n + ", "@ + m;
    let none = Seq::<char>::empty();
    let named = "biz_code="@ + n;
    assert(t =~= none + named + (", "@ + m));
    text::lemma_occurs_between(none, named, ", "@ + m);
    assert(t.subrange(t.len() - m.len(), t.len() as int) =~= m);
}

/// An answer that ended early is the account's fault exactly where the back end
/// said what is wrong; else the answer just broke off.
pub proof fn law_early_end_blames_the_account(
    raw: Seq<char>,
    byte_count: nat,
    line: Option<Json>,
    whole: Option<Json>,
    plain_json: bool,
)
    ensures
        ({
            let end = early_end(raw, byte_count, line, whole, plain_json);
            let told = line matches Some(v) && business_error(v) is Some;
            let object = plain_json && text::stands_at(text::trimmed(raw), "{"@, 0);
            &&& end.mark <==> told || object
            &&& told ==> end.error == business_error(line->0)->0
            &&& !told && object ==> end.error == json_error(whole, text::trimmed(raw))
            &&& !told && !object ==> (end.error matches CoreErrorV::Stream(t) && text::occurs(
                t,
                text::decimal(byte_count),
            ))
        }),
{
    text::lemma_occurs_between(
        "Stream SSE rỗng (đã nhận "@,
        text::decimal(byte_count),
        " byte)"@,
    );
}

/// An event says nothing of a registration.
pub open spec fn says_nothing(event: Seq<char>) -> bool {
    event.len() == 0 || hint_error(event) is None && !has_name(event, "ready"@) && !has_name(
        event,
        "update_session"@,
    )
}

/// A hint among the events of a registration refuses it.
pub proof fn law_hint_refuses_registration(
    events: Seq<Seq<char>>,
    i: int,
    n: int,
    id: Option<int>,
    k: int,
)
    requires
        0 <= i <= k < n <= events.len(),
        events[k].len() > 0,
        hint_error(events[k]) is Some,
        forall|j: int| i <= j < k ==> says_nothing(#[trigger] events[j]),
    ensures
        ready_scan(events, i, n, id) == ReadyV::Failed(hint_error(events[k])->0),
    decreases k - i,
{
    if i < k {
        assert(says_nothing(events[i]));
        law_hint_refuses_registration(events, i + 1, n, id, k);
    }
}

/// A message is registered once its session is updated after it got its ids: the
/// id is that of its answer.
pub proof fn law_registration_gives_the_answers_id(
    events: Seq<Seq<char>>,
    i: int,
    n: int,
    id: Option<int>,
    k: int,
    m: int,
)
    requires
        0 <= i <= k < m < n <= events.len(),
        events[k].len() > 0 && events[m].len() > 0,
        has_name(events[k], "ready"@) && hint_error(events[k]) is None && !has_name(
            events[k],
            "update_session"@,
        ),
        has_name(events[m], "update_session"@) && hint_error(events[m]) is None && !has_name(
            events[m],
            "ready"@,
        ),
        forall|j: int| i <= j < m && j != k ==> says_nothing(#[trigger] events[j]),
    ensures
        ready_scan(events, i, n, id) == ReadyV::Ready(
            ready_ids_from(text::lines_of(events[k]), 0).1,
        ),
    decreases k - i,
{
    if i < k {
        assert(says_nothing(events[i]));
        law_registration_gives_the_answers_id(events, i + 1, n, id, k, m);
    } else {
        lemma_updated(events, k + 1, n, ready_ids_from(text::lines_of(events[k]), 0).1, m);
    }
}

proof fn lemma_updated(events: Seq<Seq<char>>, i: int, n: int, id: int, m: int)
    requires
        0 <= i <= m < n <= events.len(),
        events[m].len() > 0,
        has_name(events[m], "update_session"@) && hint_error(events[m]) is None && !has_name(
            events[m],
            "ready"@,
        ),
        forall|j: int| i <= j < m ==> says_nothing(#[trigger] events[j]),
    ensures
        ready_scan(events, i, n, Some(id)) == ReadyV::Ready(id),
    decreases m - i,
{
    if i < m {
        assert(says_nothing(events[i]));
        lemma_updated(events, i + 1, n, id, m);
    }
}

/// Events that say nothing leave a registration as it is.
pub proof fn law_quiet_events_change_nothing(
    events: Seq<Seq<char>>,
    i: int,
    n: int,
    id: Option<int>,
)
    requires
        0 <= i <= n <= events.len(),
        forall|j: int| i <= j < n ==> says_nothing(#[trigger] events[j]),
    ensures
        ready_scan(events, i, n, id) == ReadyV::More(id),
    decreases n - i,
{
    if i < n {
        assert(says_nothing(events[i]));
        law_quiet_events_change_nothing(events, i + 1, n, id);
    }
}

/// The name of an event is what a line says after `event:`, without the white
/// space around it; any other line names none.
pub proof fn law_event_lines_name_events(line: Seq<char>, name: Seq<char>)
    ensures
        event_name(line) == Some(name) <==> exists|rest: Seq<char>|
            text::trimmed(line) == "event:"@ + rest && name == #[trigger] text::trimmed(rest),
{
    let t = text::trimmed(line);
    let tag = "event:"@;
    if event_name(line) == Some(name) {
        let rest = t.subrange(tag.len() as int, t.len() as int);
        assert(t.subrange(0, tag.len() as int) == tag);
        assert(t =~= tag + rest);
        assert(name == text::trimmed(rest));
    }
    if exists|rest: Seq<char>| t == tag + rest && name == #[trigger] text::trimmed(rest) {
        let rest = choose|rest: Seq<char>|
            t == tag + rest && name == #[trigger] text::trimmed(rest);
        assert(t.subrange(0, tag.len() as int) =~= tag);
        assert(t.subrange(tag.len() as int, t.len() as int) =~= rest);
    }
}

/// A prompt that keeps within three quarters of the limit goes out whole; a
/// longer one goes out in pieces to the expert model, and with its history as a
/// file to any other.
pub proof fn law_long_prompts_take_another_route(chars: int, limit: int, model_type: Seq<char>)
    requires
        0 <= chars,
        0 <= limit,
    ensures
        route_for(chars, limit, model_type) == Route::Direct <==> 4 * chars <= 3 * limit,
        4 * chars > 3 * limit && model_type == "expert"@ ==> route_for(chars, limit, model_type)
            == Route::Chunked,
        4 * chars > 3 * limit && model_type != "expert"@ ==> route_for(chars, limit, model_type)
            == Route::HistoryFile,
{
}

proof fn lemma_one_event(event: Seq<char>)
    requires
        event.len() > 0,
        event.last() != '\n',
        !text::occurs(event, "\n\n"@),
    ensures
        text::split_from(event + "\n\n"@, "\n\n"@, 0) == seq![event, Seq::<char>::empty()],
        complete_count(event + "\n\n"@) == 2,
{
    reveal_strlit("\n\n");
    let sep = "\n\n"@;
    let n = event.len() as int;
    let s = event + sep;
    assert(s.subrange(n, n + 2) =~= sep);
    assert(text::stands_at(s, sep, n));
    text::lemma_find_bounds(s, sep, 0);
    text::lemma_find_is_first(s, sep, 0, n);
    let j = text::find_from(s, sep, 0)->0;
    if j < n {
        assert(s.subrange(j, j + 2)[0] == s[j]);
        if j + 2 <= n {
            assert(event.subrange(j, j + 2) =~= s.subrange(j, j + 2));
            text::lemma_find_is_first(event, sep, 0, j);
        } else {
            assert(s[j] == event.last());
        }
    }
    text::lemma_find_bounds(s, sep, n + 2);
    let rest = text::split_from(s, sep, n + 2);
    assert(rest =~= seq![s.subrange(n + 2, s.len() as int)]);
    assert(s.subrange(n + 2, s.len() as int) =~= Seq::<char>::empty());
    assert(s.subrange(0, n) =~= event);
    assert(text::split_from(s, sep, 0) =~= seq![event, Seq::<char>::empty()]);
}

/// Only whole events count: before the first blank line nothing is closed, nothing
/// refused and nothing registered.
pub proof fn law_unfinished_events_say_nothing(s: Seq<char>, id: Option<int>)
    requires
        !text::occurs(s, "\n\n"@),
    ensures
        !closed(s),
        registration(s, id) == ReadyV::More(id),
{
    reveal_strlit("\n\n");
    if text::stands_at(s, "\n\n"@, s.len() - 2) {
        text::lemma_find_is_first(s, "\n\n"@, 0, s.len() - 2);
    }
    assert(text::split_from(s, "\n\n"@, 0).len() == 1);
}

/// An event counts once its blank line is there: it closes the stream exactly
/// where its name says so, refuses where it is a hint, and else the registration
/// goes on with the id that it gives, if any.
pub proof fn law_whole_event_is_heard(event: Seq<char>, id: Option<int>)
    requires
        event.len() > 0,
        event.last() != '\n',
        !text::occurs(event, "\n\n"@),
    ensures
        has_name(event, "close"@) ==> closed(event + "\n\n"@),
        hint_error(event) matches Some(e) ==> registration(event + "\n\n"@, id) == ReadyV::Failed(
            e,
        ),
        hint_error(event) is None && !has_name(event, "update_session"@) ==> registration(
            event + "\n\n"@,
            id,
        ) == ReadyV::More(
            if has_name(event, "ready"@) {
                Some(ready_ids_from(text::lines_of(event), 0).1)
            } else {
                id
            },
        ),
        hint_error(event) is None && !has_name(event, "ready"@) && has_name(
            event,
            "update_session"@,
        ) ==> (id matches Some(n) ==> registration(event + "\n\n"@, id) == ReadyV::Ready(n)),
{
    lemma_one_event(event);
    let events = text::split_from(event + "\n\n"@, "\n\n"@, 0);
    assert(events[0] == event && events[1].len() == 0);
    reveal_with_fuel(ready_scan, 4);
}

} // verus!
