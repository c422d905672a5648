//! The patch state of a response: path operations `p`/`o`/`v` applied to the
//! response, with the text deltas that they bring.
//!
//! - `p` and `o` stay in force over events that leave them out.
//! - `o` is `SET` until an event sets it.
//! - `BATCH` is taken apart item by item; the paths of the items follow that
//!   of the batch, and the outer path and operation stay as they were.

use vstd::prelude::*;

use crate::json;
use crate::json::Json;
use crate::text;

verus! {

/// One server-sent event.
#[derive(Debug)]
pub struct SseEvent {
    pub event: Option<String>,
    pub data: String,
}

/// One delta of a response.
#[derive(Debug)]
pub enum DsFrame {
    /// The response begins: the role is known.
    Role,
    /// Text that a THINK fragment gained.
    ThinkDelta(String),
    /// Text that a RESPONSE fragment gained.
    ContentDelta(String),
    /// The response's status changed.
    Status(String),
    /// The accumulated token usage.
    Usage(u32),
}

/// The model of a frame.
#[verifier::ext_equal]
pub enum FrameV {
    Role,
    Think(Seq<char>),
    Content(Seq<char>),
    Status(Seq<char>),
    Usage(u32),
}

impl View for DsFrame {
    type V = FrameV;

    open spec fn view(&self) -> FrameV {
        match *self {
            DsFrame::Role => FrameV::Role,
            DsFrame::ThinkDelta(s) => FrameV::Think(s@),
            DsFrame::ContentDelta(s) => FrameV::Content(s@),
            DsFrame::Status(s) => FrameV::Status(s@),
            DsFrame::Usage(n) => FrameV::Usage(n),
        }
    }
}

impl Clone for DsFrame {
    fn clone(&self) -> (r: DsFrame)
        ensures
            r@ == self@,
    {
        match self {
            DsFrame::Role => DsFrame::Role,
            DsFrame::ThinkDelta(s) => DsFrame::ThinkDelta(s.clone()),
            DsFrame::ContentDelta(s) => DsFrame::ContentDelta(s.clone()),
            DsFrame::Status(s) => DsFrame::Status(s.clone()),
            DsFrame::Usage(n) => DsFrame::Usage(*n),
        }
    }
}

/// The models of a sequence of frames.
pub open spec fn frames_view(v: Seq<DsFrame>) -> Seq<FrameV> {
    Seq::new(v.len(), |i: int| v[i]@)
}

/// One fragment of a response.
#[derive(Debug)]
pub struct Fragment {
    pub ty: String,
    pub content: String,
}

/// The model of a fragment.
#[verifier::ext_equal]
pub struct FragmentV {
    pub ty: Seq<char>,
    pub content: Seq<char>,
}

impl View for Fragment {
    type V = FragmentV;

    open spec fn view(&self) -> FragmentV {
        FragmentV { ty: self.ty@, content: self.content@ }
    }
}

/// The models of a sequence of fragments.
pub open spec fn fragments_view(v: Seq<Fragment>) -> Seq<FragmentV> {
    Seq::new(v.len(), |i: int| v[i]@)
}

/// The text of an optional string.
pub open spec fn opt_text(o: Option<String>) -> Option<Seq<char>> {
    match o {
        Some(s) => Some(s@),
        None => None,
    }
}

/// The patch state of one response.
#[derive(Debug)]
pub struct DsState {
    pub current_path: Option<String>,
    pub current_op: Option<String>,
    pub fragments: Vec<Fragment>,
    pub status: Option<String>,
    pub accumulated_token_usage: Option<u32>,
}

/// The model of a patch state.
#[verifier::ext_equal]
pub struct StateV {
    pub path: Option<Seq<char>>,
    pub op: Option<Seq<char>>,
    pub fragments: Seq<FragmentV>,
    pub status: Option<Seq<char>>,
    pub usage: Option<u32>,
}

impl View for DsState {
    type V = StateV;

    open spec fn view(&self) -> StateV {
        StateV {
            path: opt_text(self.current_path),
            op: opt_text(self.current_op),
            fragments: fragments_view(self.fragments@),
            status: opt_text(self.status),
            usage: self.accumulated_token_usage,
        }
    }
}

/// A state and the frames that led to it.
#[verifier::ext_equal]
pub struct Step {
    pub state: StateV,
    pub frames: Seq<FrameV>,
}

/// The delta of a new piece of text of a fragment of type `ty`.
pub open spec fn delta(ty: Seq<char>, content: Seq<char>) -> Seq<FrameV> {
    if ty == "THINK"@ {
        seq![FrameV::Think(content)]
    } else if ty == "RESPONSE"@ {
        seq![FrameV::Content(content)]
    } else {
        Seq::empty()
    }
}

/// The delta of a new fragment: none where it has no text yet.
pub open spec fn opening_delta(ty: Seq<char>, content: Seq<char>) -> Seq<FrameV> {
    if content.len() == 0 {
        Seq::empty()
    } else {
        delta(ty, content)
    }
}

/// The content member of a fragment's description, empty where it is missing.
pub open spec fn content_of(item: Json) -> Seq<char> {
    match item.string_member("content"@) {
        Some(c) => c,
        None => Seq::empty(),
    }
}

/// The fragments that the first `n` items describe; one without a type
/// describes none.
pub open spec fn fragments_of(items: Seq<Json>, n: int) -> Seq<FragmentV>
    decreases n,
{
    if n <= 0 {
        Seq::empty()
    } else {
        match items[n - 1].string_member("type"@) {
            Some(ty) => fragments_of(items, n - 1).push(
                FragmentV { ty, content: content_of(items[n - 1]) },
            ),
            None => fragments_of(items, n - 1),
        }
    }
}

/// The deltas of the fragments that the first `n` items describe.
pub open spec fn opening_frames(items: Seq<Json>, n: int) -> Seq<FrameV>
    decreases n,
{
    if n <= 0 {
        Seq::empty()
    } else {
        match items[n - 1].string_member("type"@) {
            Some(ty) => opening_frames(items, n - 1) + opening_delta(ty, content_of(items[n - 1])),
            None => opening_frames(items, n - 1),
        }
    }
}

/// The largest `u32` not above `n`.
pub open spec fn capped(n: int) -> u32 {
    if n > u32::MAX {
        u32::MAX
    } else {
        n as u32
    }
}

/// The effect of one `SET` or `APPEND` of `val` at `path`.
pub open spec fn path_step(s: StateV, path: Seq<char>, op: Seq<char>, val: Json) -> Step {
    let idle = Step { state: s, frames: Seq::empty() };
    if path == "response/status"@ {
        match val.string() {
            Some(t) => Step {
                state: StateV { status: Some(t), ..s },
                frames: seq![FrameV::Status(t)],
            },
            None => idle,
        }
    } else if path == "response/accumulated_token_usage"@ || path == "accumulated_token_usage"@ {
        match val.uint64() {
            Some(n) => Step {
                state: StateV { usage: Some(capped(n)), ..s },
                frames: seq![FrameV::Usage(capped(n))],
            },
            None => idle,
        }
    } else if path == "response/fragments/-1/content"@ {
        match val.string() {
            Some(t) => if s.fragments.len() > 0 && (s.fragments.last().ty == "THINK"@
                || s.fragments.last().ty == "RESPONSE"@) {
                Step {
                    state: StateV {
                        fragments: s.fragments.drop_last().push(
                            FragmentV {
                                ty: s.fragments.last().ty,
                                content: s.fragments.last().content + t,
                            },
                        ),
                        ..s
                    },
                    frames: delta(s.fragments.last().ty, t),
                }
            } else {
                idle
            },
            None => idle,
        }
    } else if path == "response/fragments"@ && op == "APPEND"@ {
        match val {
            Json::Array(items) => Step {
                state: StateV {
                    fragments: s.fragments + fragments_of(items@, items@.len() as int),
                    ..s
                },
                frames: opening_frames(items@, items@.len() as int),
            },
            _ => idle,
        }
    } else {
        idle
    }
}

/// The path of an item of a batch at `parent`.
pub open spec fn nested_path(parent: Seq<char>, sub: Seq<char>) -> Seq<char> {
    if parent.len() == 0 {
        sub
    } else if sub.len() == 0 {
        parent
    } else {
        parent + "/"@ + sub
    }
}

/// The path in force at item `n` of a batch, that item's own included.
pub open spec fn batch_path(items: Seq<Json>, n: int) -> Seq<char>
    decreases n,
{
    if n <= 0 {
        Seq::empty()
    } else {
        match items[n - 1].string_member("p"@) {
            Some(p) => p,
            None => batch_path(items, n - 1),
        }
    }
}

/// The operation in force at item `n` of a batch, that item's own included.
pub open spec fn batch_op(items: Seq<Json>, n: int) -> Seq<char>
    decreases n,
{
    if n <= 0 {
        "SET"@
    } else {
        match items[n - 1].string_member("o"@) {
            Some(o) => o,
            None => batch_op(items, n - 1),
        }
    }
}

/// The effect of the first `n` items of a batch at `parent`.
pub open spec fn batch_step(s: StateV, parent: Seq<char>, items: Seq<Json>, n: int) -> Step
    decreases items, n,
{
    if n <= 0 || n > items.len() {
        Step { state: s, frames: Seq::empty() }
    } else {
        let before = batch_step(s, parent, items, n - 1);
        let path = nested_path(parent, batch_path(items, n));
        match items[n - 1].member("v"@) {
            Some(v) => {
                proof {
                    json::lemma_member_smaller(items[n - 1], "v"@);
                }
                let next = if batch_op(items, n) == "BATCH"@ {
                    match v {
                        Json::Array(inner) => batch_step(
                            before.state,
                            path,
                            inner@,
                            inner@.len() as int,
                        ),
                        _ => Step { state: before.state, frames: Seq::empty() },
                    }
                } else {
                    path_step(before.state, path, batch_op(items, n), v)
                };
                Step { state: next.state, frames: before.frames + next.frames }
            },
            None => before,
        }
    }
}

/// The effect of a whole response object.
pub open spec fn snapshot_step(s: StateV, response: Json) -> Step {
    let with_status = match response.string_member("status"@) {
        Some(t) => StateV { status: Some(t), ..s },
        None => s,
    };
    let with_usage = match response.member("accumulated_token_usage"@) {
        Some(v) => match v.uint64() {
            Some(n) => StateV { usage: Some(capped(n)), ..with_status },
            None => with_status,
        },
        None => with_status,
    };
    match response.member("fragments"@) {
        Some(Json::Array(items)) => Step {
            state: StateV { fragments: fragments_of(items@, items@.len() as int), ..with_usage },
            frames: opening_frames(items@, items@.len() as int),
        },
        _ => Step { state: with_usage, frames: Seq::empty() },
    }
}

/// The state with the path and operation that an event brings.
pub open spec fn addressed(s: StateV, val: Json) -> StateV {
    StateV {
        path: match val.string_member("p"@) {
            Some(p) => Some(p),
            None => s.path,
        },
        op: match val.string_member("o"@) {
            Some(o) => Some(o),
            None => s.op,
        },
        ..s
    }
}

/// Whether an event's value is a whole response: no path is in force and the
/// value has a `response` member.
pub open spec fn is_snapshot(s: StateV, v: Json) -> bool {
    s.path is None && v.member("response"@) is Some
}

/// The effect of one patch event.
pub open spec fn patch_step(s: StateV, val: Json) -> Step {
    let s1 = addressed(s, val);
    let op = match s1.op {
        Some(o) => o,
        None => "SET"@,
    };
    let path = match s1.path {
        Some(p) => p,
        None => Seq::empty(),
    };
    match val.member("v"@) {
        Some(v) => if is_snapshot(s1, v) {
            snapshot_step(s1, v.member("response"@)->0)
        } else if op == "BATCH"@ {
            match v {
                Json::Array(items) => batch_step(s1, path, items@, items@.len() as int),
                _ => path_step(s1, path, "SET"@, v),
            }
        } else {
            path_step(s1, path, op, v)
        },
        None => Step { state: s1, frames: Seq::empty() },
    }
}

/// The effect of an event whose data reads as `data`.
pub open spec fn event_step(s: StateV, event: Option<Seq<char>>, data: Option<Json>) -> Step {
    let role = if event == Some("ready"@) {
        seq![FrameV::Role]
    } else {
        Seq::empty()
    };
    match data {
        Some(val) => {
            let next = patch_step(s, val);
            Step { state: next.state, frames: role + next.frames }
        },
        None => Step { state: s, frames: role },
    }
}

/// The text that fragments of type `ty` hold together.
pub open spec fn held(fragments: Seq<FragmentV>, ty: Seq<char>) -> Seq<char>
    decreases fragments.len(),
{
    if fragments.len() == 0 {
        Seq::empty()
    } else if fragments.last().ty == ty {
        held(fragments.drop_last(), ty) + fragments.last().content
    } else {
        held(fragments.drop_last(), ty)
    }
}

/// The text that one frame brings for fragments of type `ty`.
pub open spec fn frame_text(frame: FrameV, ty: Seq<char>) -> Seq<char> {
    match frame {
        FrameV::Think(t) => if ty == "THINK"@ {
            t
        } else {
            Seq::empty()
        },
        FrameV::Content(t) => if ty == "RESPONSE"@ {
            t
        } else {
            Seq::empty()
        },
        _ => Seq::empty(),
    }
}

/// The text that frames bring for fragments of type `ty`.
pub open spec fn sent(frames: Seq<FrameV>, ty: Seq<char>) -> Seq<char>
    decreases frames.len(),
{
    if frames.len() == 0 {
        Seq::empty()
    } else {
        sent(frames.drop_last(), ty) + frame_text(frames.last(), ty)
    }
}

/// The types of fragments whose text is shown.
pub open spec fn is_shown(ty: Seq<char>) -> bool {
    ty == "THINK"@ || ty == "RESPONSE"@
}

proof fn lemma_types_differ()
    ensures
        "THINK"@ != "RESPONSE"@,
{
    reveal_strlit("THINK");
    reveal_strlit("RESPONSE");
    assert("THINK"@.len() != "RESPONSE"@.len());
}

proof fn lemma_sent_concat(a: Seq<FrameV>, b: Seq<FrameV>, ty: Seq<char>)
    ensures
        sent(a + b, ty) == sent(a, ty) + sent(b, ty),
    decreases b.len(),
{
    if b.len() == 0 {
        assert(a + b =~= a);
    } else {
        assert((a + b).drop_last() =~= a + b.drop_last());
        lemma_sent_concat(a, b.drop_last(), ty);
    }
}

proof fn lemma_held_concat(a: Seq<FragmentV>, b: Seq<FragmentV>, ty: Seq<char>)
    ensures
        held(a + b, ty) == held(a, ty) + held(b, ty),
    decreases b.len(),
{
    if b.len() == 0 {
        assert(a + b =~= a);
    } else {
        assert((a + b).drop_last() =~= a + b.drop_last());
        lemma_held_concat(a, b.drop_last(), ty);
    }
}

proof fn lemma_delta_sent(ty: Seq<char>, content: Seq<char>, shown: Seq<char>)
    requires
        is_shown(shown),
    ensures
        sent(delta(ty, content), shown) == (if ty == shown {
            content
        } else {
            Seq::empty()
        }),
{
    lemma_types_differ();
    let d = delta(ty, content);
    if d.len() > 0 {
        assert(d.drop_last() =~= Seq::empty());
        assert(sent(d.drop_last(), shown) =~= Seq::empty());
        assert(sent(d, shown) =~= frame_text(d.last(), shown));
    }
}

/// New fragments open with frames that bring exactly their text.
pub proof fn law_opening_frames_carry_text(items: Seq<Json>, n: int, ty: Seq<char>)
    requires
        is_shown(ty),
    ensures
        held(fragments_of(items, n), ty) == sent(opening_frames(items, n), ty),
    decreases n,
{
    if n > 0 {
        law_opening_frames_carry_text(items, n - 1, ty);
        if let Some(t) = items[n - 1].string_member("type"@) {
            let c = content_of(items[n - 1]);
            let f = FragmentV { ty: t, content: c };
            assert(fragments_of(items, n - 1).push(f).drop_last() =~= fragments_of(items, n - 1));
            lemma_sent_concat(opening_frames(items, n - 1), opening_delta(t, c), ty);
            lemma_delta_sent(t, c, ty);
            if c.len() == 0 {
                assert(held(fragments_of(items, n - 1), ty) + c =~= held(
                    fragments_of(items, n - 1),
                    ty,
                ));
            }
        }
    }
}

/// One `SET` or `APPEND` brings frames with exactly the text that the
/// fragments gain.
pub proof fn law_path_step_carries_text(
    s: StateV,
    path: Seq<char>,
    op: Seq<char>,
    val: Json,
    ty: Seq<char>,
)
    requires
        is_shown(ty),
    ensures
        held(path_step(s, path, op, val).state.fragments, ty) == held(s.fragments, ty) + sent(
            path_step(s, path, op, val).frames,
            ty,
        ),
{
    let step = path_step(s, path, op, val);
    assert(held(s.fragments, ty) + Seq::empty() =~= held(s.fragments, ty));
    if path == "response/status"@ || path == "response/accumulated_token_usage"@ || path
        == "accumulated_token_usage"@ {
        if step.frames.len() > 0 {
            assert(step.frames.drop_last() =~= Seq::empty());
            assert(sent(step.frames.drop_last(), ty) =~= Seq::empty());
            assert(sent(step.frames, ty) =~= Seq::empty());
        }
    } else if path == "response/fragments/-1/content"@ {
        if let Some(t) = val.string() {
            if s.fragments.len() > 0 && is_shown(s.fragments.last().ty) {
                lemma_delta_sent(s.fragments.last().ty, t, ty);
                let f = FragmentV {
                    ty: s.fragments.last().ty,
                    content: s.fragments.last().content + t,
                };
                assert(s.fragments.drop_last().push(f).drop_last() =~= s.fragments.drop_last());
                let base = held(s.fragments.drop_last(), ty);
                if s.fragments.last().ty == ty {
                    assert(base + (s.fragments.last().content + t) =~= base
                        + s.fragments.last().content + t);
                }
            }
        }
    } else if path == "response/fragments"@ && op == "APPEND"@ {
        if let Json::Array(items) = val {
            let n = items@.len() as int;
            lemma_held_concat(s.fragments, fragments_of(items@, n), ty);
            law_opening_frames_carry_text(items@, n, ty);
        }
    }
}

/// A batch brings frames with exactly the text that the fragments gain, and
/// leaves the outer path and operation alone.
pub proof fn law_batch_step_carries_text(
    s: StateV,
    parent: Seq<char>,
    items: Seq<Json>,
    n: int,
    ty: Seq<char>,
)
    requires
        is_shown(ty),
    ensures
        held(batch_step(s, parent, items, n).state.fragments, ty) == held(s.fragments, ty) + sent(
            batch_step(s, parent, items, n).frames,
            ty,
        ),
        batch_step(s, parent, items, n).state.path == s.path,
        batch_step(s, parent, items, n).state.op == s.op,
    decreases items, n,
{
    if n <= 0 || n > items.len() {
        assert(held(s.fragments, ty) + Seq::empty() =~= held(s.fragments, ty));
    } else {
        law_batch_step_carries_text(s, parent, items, n - 1, ty);
        let before = batch_step(s, parent, items, n - 1);
        let path = nested_path(parent, batch_path(items, n));
        if let Some(v) = items[n - 1].member("v"@) {
            json::lemma_member_smaller(items[n - 1], "v"@);
            let next = if batch_op(items, n) == "BATCH"@ {
                match v {
                    Json::Array(inner) => batch_step(
                        before.state,
                        path,
                        inner@,
                        inner@.len() as int,
                    ),
                    _ => Step { state: before.state, frames: Seq::empty() },
                }
            } else {
                path_step(before.state, path, batch_op(items, n), v)
            };
            if batch_op(items, n) == "BATCH"@ {
                if let Json::Array(inner) = v {
                    law_batch_step_carries_text(
                        before.state,
                        path,
                        inner@,
                        inner@.len() as int,
                        ty,
                    );
                } else {
                    assert(held(before.state.fragments, ty) + Seq::empty() =~= held(
                        before.state.fragments,
                        ty,
                    ));
                }
            } else {
                law_path_step_carries_text(before.state, path, batch_op(items, n), v, ty);
            }
            lemma_sent_concat(before.frames, next.frames, ty);
            assert(held(s.fragments, ty) + sent(before.frames, ty) + sent(next.frames, ty)
                =~= held(s.fragments, ty) + (sent(before.frames, ty) + sent(next.frames, ty)));
        }
    }
}

/// What a reader collects from the frames of an event is what the fragments
/// gained by it. After a snapshot that lists fragments, it is all that they
/// hold.
pub proof fn law_frames_carry_text(
    s: StateV,
    event: Option<Seq<char>>,
    data: Option<Json>,
    ty: Seq<char>,
)
    requires
        is_shown(ty),
    ensures
        ({
            let step = event_step(s, event, data);
            let gained = sent(step.frames, ty);
            ||| held(step.state.fragments, ty) == held(s.fragments, ty) + gained
            ||| {
                &&& data matches Some(val)
                &&& val.member("v"@) matches Some(v)
                &&& is_snapshot(addressed(s, val), v)
                &&& held(step.state.fragments, ty) == gained
            }
        }),
{
    let step = event_step(s, event, data);
    let role = if event == Some("ready"@) {
        seq![FrameV::Role]
    } else {
        Seq::empty()
    };
    assert(sent(role, ty) =~= Seq::empty()) by {
        if role.len() > 0 {
            assert(role.drop_last() =~= Seq::empty());
            assert(sent(role.drop_last(), ty) =~= Seq::empty());
        }
    }
    assert(held(s.fragments, ty) + Seq::empty() =~= held(s.fragments, ty));
    if let Some(val) = data {
        let next = patch_step(s, val);
        lemma_sent_concat(role, next.frames, ty);
        assert(sent(role, ty) + sent(next.frames, ty) =~= sent(next.frames, ty));
        let s1 = addressed(s, val);
        let op = match s1.op {
            Some(o) => o,
            None => "SET"@,
        };
        let path = match s1.path {
            Some(p) => p,
            None => Seq::empty(),
        };
        if let Some(v) = val.member("v"@) {
            if is_snapshot(s1, v) {
                let response = v.member("response"@)->0;
                if let Some(Json::Array(items)) = response.member("fragments"@) {
                    law_opening_frames_carry_text(items@, items@.len() as int, ty);
                }
            } else if op == "BATCH"@ {
                if let Json::Array(items) = v {
                    law_batch_step_carries_text(s1, path, items@, items@.len() as int, ty);
                } else {
                    law_path_step_carries_text(s1, path, "SET"@, v, ty);
                }
            } else {
                law_path_step_carries_text(s1, path, op, v, ty);
            }
        }
    }
}

proof fn lemma_paths_differ()
    ensures
        "response/status"@ != "response/accumulated_token_usage"@,
        "response/status"@ != "accumulated_token_usage"@,
        "response/status"@ != "response/fragments/-1/content"@,
        "response/status"@ != "response/fragments"@,
        "response/accumulated_token_usage"@ != "response/fragments/-1/content"@,
        "response/accumulated_token_usage"@ != "response/fragments"@,
        "accumulated_token_usage"@ != "response/fragments/-1/content"@,
        "accumulated_token_usage"@ != "response/fragments"@,
        "response/fragments/-1/content"@ != "response/fragments"@,
{
    reveal_strlit("response/status");
    reveal_strlit("response/accumulated_token_usage");
    reveal_strlit("accumulated_token_usage");
    reveal_strlit("response/fragments/-1/content");
    reveal_strlit("response/fragments");
    assert("response/status"@.len() == 15);
    assert("response/accumulated_token_usage"@.len() == 32);
    assert("accumulated_token_usage"@.len() == 23);
    assert("response/fragments/-1/content"@.len() == 29);
    assert("response/fragments"@.len() == 18);
}

/// The two states differ in nothing but their fragments.
pub open spec fn differ_in_fragments(a: StateV, b: StateV) -> bool {
    a.path == b.path && a.op == b.op && a.status == b.status && a.usage == b.usage
}

/// Text for the last fragment goes to the end of what it holds, whatever the
/// operation, and comes out as one delta of its kind with just that text. All
/// else stays.
pub proof fn law_last_fragment_grows(s: StateV, op: Seq<char>, t: String, ty: Seq<char>)
    requires
        s.fragments.len() > 0,
        is_shown(s.fragments.last().ty),
        is_shown(ty),
    ensures
        ({
            let step = path_step(s, "response/fragments/-1/content"@, op, Json::Text(t));
            let last = s.fragments.last();
            let now = step.state.fragments;
            &&& last.ty == "THINK"@ ==> step.frames == seq![FrameV::Think(t@)]
            &&& last.ty == "RESPONSE"@ ==> step.frames == seq![FrameV::Content(t@)]
            &&& now.len() == s.fragments.len()
            &&& forall|i: int| 0 <= i < now.len() - 1 ==> #[trigger] now[i] == s.fragments[i]
            &&& now.last() == (FragmentV { ty: last.ty, content: last.content + t@ })
            &&& held(now, ty) == held(s.fragments, ty) + (if last.ty == ty {
                t@
            } else {
                Seq::empty()
            })
            &&& differ_in_fragments(step.state, s)
        }),
{
    lemma_paths_differ();
    lemma_types_differ();
    let val = Json::Text(t);
    law_path_step_carries_text(s, "response/fragments/-1/content"@, op, val, ty);
    lemma_delta_sent(s.fragments.last().ty, t@, ty);
}

/// Where there is no last fragment whose text is shown, and where what comes is
/// no text, nothing happens to the fragments.
pub proof fn law_unshown_fragment_stays(s: StateV, op: Seq<char>, val: Json)
    requires
        s.fragments.len() == 0 || !is_shown(s.fragments.last().ty) || !(val is Text),
    ensures
        path_step(s, "response/fragments/-1/content"@, op, val) == (Step {
            state: s,
            frames: Seq::empty(),
        }),
{
    lemma_paths_differ();
}

/// A status is taken over and told, and nothing but a text is one.
pub proof fn law_status_is_told(s: StateV, op: Seq<char>, val: Json)
    ensures
        ({
            let step = path_step(s, "response/status"@, op, val);
            &&& val matches Json::Text(t) ==> step.frames == seq![FrameV::Status(t@)]
                && step.state.status == Some(t@)
            &&& !(val is Text) ==> step.frames.len() == 0 && step.state.status == s.status
            &&& step.state.fragments == s.fragments && step.state.usage == s.usage
            &&& step.state.path == s.path && step.state.op == s.op
        }),
{
}

/// A number of tokens is taken over and told at either path, cut to what 32 bits
/// hold. Nothing else happens there.
pub proof fn law_usage_is_told(s: StateV, path: Seq<char>, op: Seq<char>, val: Json)
    requires
        path == "response/accumulated_token_usage"@ || path == "accumulated_token_usage"@,
    ensures
        ({
            let step = path_step(s, path, op, val);
            &&& val.uint64() matches Some(n) ==> {
                &&& step.state.usage matches Some(u) && step.frames == seq![FrameV::Usage(u)]
                &&& n <= u32::MAX ==> step.state.usage == Some(n as u32)
                &&& n > u32::MAX ==> step.state.usage == Some(u32::MAX)
            }
            &&& val.uint64() is None ==> step.frames.len() == 0 && step.state.usage == s.usage
            &&& step.state.fragments == s.fragments && step.state.status == s.status
            &&& step.state.path == s.path && step.state.op == s.op
        }),
{
    lemma_paths_differ();
}

/// At any other path nothing happens; fragments are only ever appended as a
/// list.
pub proof fn law_other_paths_are_idle(s: StateV, path: Seq<char>, op: Seq<char>, val: Json)
    requires
        path != "response/status"@,
        path != "response/accumulated_token_usage"@,
        path != "accumulated_token_usage"@,
        path != "response/fragments/-1/content"@,
        path != "response/fragments"@ || op != "APPEND"@ || !(val is Array),
    ensures
        path_step(s, path, op, val) == (Step { state: s, frames: Seq::empty() }),
{
}

/// A described fragment is appended with its type and its text, which is empty
/// where it is missing. Text that is shown comes out as one delta; what has no
/// type is no fragment.
pub proof fn law_fragment_is_added(s: StateV, items: Vec<Json>)
    requires
        items@.len() == 1,
    ensures
        ({
            let step = path_step(s, "response/fragments"@, "APPEND"@, Json::Array(items));
            let item = items@[0];
            let body = match item.string_member("content"@) {
                Some(c) => c,
                None => Seq::empty(),
            };
            &&& differ_in_fragments(step.state, s)
            &&& item.string_member("type"@) matches Some(ty) ==> {
                &&& step.state.fragments == s.fragments.push(FragmentV { ty, content: body })
                &&& body.len() > 0 && ty == "THINK"@ ==> step.frames == seq![FrameV::Think(body)]
                &&& body.len() > 0 && ty == "RESPONSE"@ ==> step.frames == seq![
                    FrameV::Content(body),
                ]
                &&& body.len() == 0 || !is_shown(ty) ==> step.frames.len() == 0
            }
            &&& item.string_member("type"@) is None ==> step.state.fragments == s.fragments
                && step.frames.len() == 0
        }),
{
    lemma_paths_differ();
    lemma_types_differ();
    reveal_with_fuel(fragments_of, 2);
    reveal_with_fuel(opening_frames, 2);
    let step = path_step(s, "response/fragments"@, "APPEND"@, Json::Array(items));
    assert(step.state.fragments == s.fragments + fragments_of(items@, 1));
    assert(step.frames == opening_frames(items@, 1));
    match items@[0].string_member("type"@) {
        Some(ty) => {
            let f = FragmentV { ty, content: content_of(items@[0]) };
            assert(fragments_of(items@, 1) =~= Seq::empty().push(f));
            assert(step.state.fragments =~= s.fragments.push(f));
            assert(step.frames =~= opening_delta(ty, content_of(items@[0])));
        },
        None => {
            assert(step.state.fragments =~= s.fragments);
        },
    }
}

proof fn lemma_described_concat(a: Seq<Json>, b: Seq<Json>, n: int)
    requires
        0 <= n <= b.len(),
    ensures
        fragments_of(a + b, a.len() + n) == fragments_of(a, a.len() as int) + fragments_of(b, n),
        opening_frames(a + b, a.len() + n) == opening_frames(a, a.len() as int) + opening_frames(
            b,
            n,
        ),
    decreases n,
{
    if n == 0 {
        lemma_described_prefix(a, b, a.len() as int);
        assert(fragments_of(b, 0) =~= Seq::empty());
        assert(opening_frames(b, 0) =~= Seq::empty());
        assert(fragments_of(a, a.len() as int) + Seq::<FragmentV>::empty() =~= fragments_of(
            a,
            a.len() as int,
        ));
        assert(opening_frames(a, a.len() as int) + Seq::<FrameV>::empty() =~= opening_frames(
            a,
            a.len() as int,
        ));
    } else {
        lemma_described_concat(a, b, n - 1);
        assert((a + b)[a.len() + n - 1] == b[n - 1]);
        assert(fragments_of(a + b, a.len() + n) =~= fragments_of(a, a.len() as int)
            + fragments_of(b, n));
        assert(opening_frames(a + b, a.len() + n) =~= opening_frames(a, a.len() as int)
            + opening_frames(b, n));
    }
}

proof fn lemma_described_prefix(a: Seq<Json>, b: Seq<Json>, n: int)
    requires
        0 <= n <= a.len(),
    ensures
        fragments_of(a + b, n) == fragments_of(a, n),
        opening_frames(a + b, n) == opening_frames(a, n),
    decreases n,
{
    if n > 0 {
        lemma_described_prefix(a, b, n - 1);
        assert((a + b)[n - 1] == a[n - 1]);
    }
}

/// To append a list of fragments is to append its beginning and then its rest.
pub proof fn law_fragments_are_added_in_order(
    s: StateV,
    first: Vec<Json>,
    rest: Vec<Json>,
    all: Vec<Json>,
)
    requires
        all@ == first@ + rest@,
    ensures
        ({
            let path = "response/fragments"@;
            let one = path_step(s, path, "APPEND"@, Json::Array(first));
            let two = path_step(one.state, path, "APPEND"@, Json::Array(rest));
            path_step(s, path, "APPEND"@, Json::Array(all)) == (Step {
                state: two.state,
                frames: one.frames + two.frames,
            })
        }),
{
    lemma_paths_differ();
    lemma_described_concat(first@, rest@, rest@.len() as int);
    let a = fragments_of(first@, first@.len() as int);
    let b = fragments_of(rest@, rest@.len() as int);
    assert(s.fragments + (a + b) =~= s.fragments + a + b);
}

/// An empty list of fragments changes nothing.
pub proof fn law_no_fragments_change_nothing(s: StateV, none: Vec<Json>)
    requires
        none@.len() == 0,
    ensures
        path_step(s, "response/fragments"@, "APPEND"@, Json::Array(none)) == (Step {
            state: s,
            frames: Seq::empty(),
        }),
{
    lemma_paths_differ();
    assert(s.fragments + fragments_of(none@, 0) =~= s.fragments);
}

/// The path and the operation of an event stay in force until another event
/// names others.
pub proof fn law_address_stays_in_force(s: StateV, val: Json)
    ensures
        ({
            let now = patch_step(s, val).state;
            &&& val.string_member("p"@) matches Some(p) ==> now.path == Some(p)
            &&& val.string_member("p"@) is None ==> now.path == s.path
            &&& val.string_member("o"@) matches Some(o) ==> now.op == Some(o)
            &&& val.string_member("o"@) is None ==> now.op == s.op
            &&& val.member("v"@) is None ==> patch_step(s, val).frames.len() == 0
                && differ_in_fragments(now, StateV { path: now.path, op: now.op, ..s })
                && now.fragments == s.fragments
        }),
{
    let s1 = addressed(s, val);
    if let Some(Json::Array(items)) = val.member("v"@) {
        law_batch_step_carries_text(
            s1,
            or_nothing(s1.path),
            items@,
            items@.len() as int,
            "THINK"@,
        );
    }
}

/// A text, or the empty one.
pub open spec fn or_nothing(o: Option<Seq<char>>) -> Seq<char> {
    match o {
        Some(t) => t,
        None => Seq::empty(),
    }
}

/// What an event does to the response is what its operation does at the path in
/// force: `SET` where none was ever named, and the items of the list in turn for
/// a batch. Where a batch is in force and no list comes, it is `SET`.
pub proof fn law_event_acts_at_its_path(s: StateV, val: Json, v: Json)
    requires
        val.member("v"@) == Some(v),
        patch_step(s, val).state.path is Some || v.member("response"@) is None,
    ensures
        ({
            let step = patch_step(s, val);
            let path = or_nothing(step.state.path);
            let there = StateV { path: step.state.path, op: step.state.op, ..s };
            &&& step.state.op is None ==> step == path_step(there, path, "SET"@, v)
            &&& step.state.op matches Some(o) ==> {
                &&& o != "BATCH"@ ==> step == path_step(there, path, o, v)
                &&& o == "BATCH"@ && !(v is Array) ==> step == path_step(there, path, "SET"@, v)
                &&& o == "BATCH"@ ==> (v matches Json::Array(items) ==> step == batch_step(
                    there,
                    path,
                    items@,
                    items@.len() as int,
                ))
            }
        }),
{
    law_address_stays_in_force(s, val);
    assert("SET"@ != "BATCH"@) by {
        reveal_strlit("SET");
        reveal_strlit("BATCH");
        assert("SET"@.len() != "BATCH"@.len());
    }
    let there = StateV { path: patch_step(s, val).state.path, op: patch_step(s, val).state.op, ..s };
    assert(there =~= addressed(s, val));
}

/// A whole response replaces the fragments by those that it lists, with the
/// deltas that appending them to none brings; its status and usage are taken
/// over, and what it leaves out stays.
pub proof fn law_snapshot_replaces(s: StateV, val: Json, v: Json, response: Json)
    requires
        s.path is None,
        val.string_member("p"@) is None,
        val.member("v"@) == Some(v),
        v.member("response"@) == Some(response),
    ensures
        ({
            let step = patch_step(s, val);
            let none = StateV { fragments: Seq::empty(), ..s };
            &&& response.member("fragments"@) matches Some(Json::Array(items)) ==> {
                let opened = path_step(
                    none,
                    "response/fragments"@,
                    "APPEND"@,
                    Json::Array(items),
                );
                step.state.fragments == opened.state.fragments && step.frames == opened.frames
            }
            &&& !(response.member("fragments"@) matches Some(Json::Array(_)))
                ==> step.state.fragments == s.fragments && step.frames.len() == 0
            &&& response.string_member("status"@) matches Some(t) ==> step.state.status == Some(t)
            &&& response.string_member("status"@) is None ==> step.state.status == s.status
            &&& json::uint64_member(response, "accumulated_token_usage"@) matches Some(n) ==> {
                &&& n <= u32::MAX ==> step.state.usage == Some(n as u32)
                &&& n > u32::MAX ==> step.state.usage == Some(u32::MAX)
            }
            &&& json::uint64_member(response, "accumulated_token_usage"@) is None
                ==> step.state.usage == s.usage
        }),
{
    lemma_paths_differ();
    if let Some(Json::Array(items)) = response.member("fragments"@) {
        let f = fragments_of(items@, items@.len() as int);
        assert(Seq::<FragmentV>::empty() + f =~= f);
    }
}

/// The role is told first, by an event named `ready` and by no other; data that
/// are no JSON do nothing more.
pub proof fn law_ready_tells_the_role(s: StateV, event: Option<Seq<char>>, data: Option<Json>)
    ensures
        ({
            let step = event_step(s, event, data);
            let patch = match data {
                Some(val) => patch_step(s, val),
                None => Step { state: s, frames: Seq::empty() },
            };
            &&& step.state == patch.state
            &&& event == Some("ready"@) ==> step.frames == seq![FrameV::Role] + patch.frames
            &&& event != Some("ready"@) ==> step.frames == patch.frames
        }),
{
    let patch = match data {
        Some(val) => patch_step(s, val),
        None => Step { state: s, frames: Seq::empty() },
    };
    assert(Seq::<FrameV>::empty() + patch.frames =~= patch.frames);
    assert(seq![FrameV::Role] + Seq::<FrameV>::empty() =~= seq![FrameV::Role]);
}

/// A batch of one item does what the item says, at its path below that of the
/// batch. A path that is empty adds nothing to the other.
pub proof fn law_batch_of_one(
    s: StateV,
    parent: Seq<char>,
    items: Seq<Json>,
    p: Seq<char>,
    o: Seq<char>,
    full: Seq<char>,
)
    requires
        items.len() == 1,
        items[0].string_member("p"@) == Some(p),
        items[0].string_member("o"@) == Some(o),
        parent.len() == 0 ==> full == p,
        p.len() == 0 ==> full == parent,
        parent.len() > 0 && p.len() > 0 ==> full == parent + "/"@ + p,
    ensures
        ({
            let step = batch_step(s, parent, items, 1);
            &&& items[0].member("v"@) is None ==> step == (Step {
                state: s,
                frames: Seq::empty(),
            })
            &&& items[0].member("v"@) matches Some(v) ==> {
                &&& o != "BATCH"@ ==> step == path_step(s, full, o, v)
                &&& o == "BATCH"@ ==> (v matches Json::Array(inner) ==> step == batch_step(
                    s,
                    full,
                    inner@,
                    inner@.len() as int,
                ))
                &&& o == "BATCH"@ && !(v is Array) ==> step == (Step {
                    state: s,
                    frames: Seq::empty(),
                })
            }
        }),
{
    reveal_with_fuel(batch_step, 2);
    let full_path = nested_path(parent, batch_path(items, 1));
    assert(batch_path(items, 1) == p);
    assert(batch_op(items, 1) == o);
    assert(full_path =~= full);
    assert(batch_step(s, parent, items, 0) == (Step { state: s, frames: Seq::<FrameV>::empty() }));
    if let Some(v) = items[0].member("v"@) {
        let next = if o == "BATCH"@ {
            match v {
                Json::Array(inner) => batch_step(s, full, inner@, inner@.len() as int),
                _ => Step { state: s, frames: Seq::empty() },
            }
        } else {
            path_step(s, full, o, v)
        };
        assert(Seq::<FrameV>::empty() + next.frames =~= next.frames);
    }
}

proof fn lemma_batch_prefix(s: StateV, parent: Seq<char>, a: Seq<Json>, b: Seq<Json>, n: int)
    requires
        0 <= n <= a.len(),
    ensures
        batch_path(a + b, n) == batch_path(a, n),
        batch_op(a + b, n) == batch_op(a, n),
        batch_step(s, parent, a + b, n) == batch_step(s, parent, a, n),
    decreases n,
{
    if n > 0 {
        lemma_batch_prefix(s, parent, a, b, n - 1);
        assert((a + b)[n - 1] == a[n - 1]);
    }
}

proof fn lemma_batch_concat(s: StateV, parent: Seq<char>, a: Seq<Json>, b: Seq<Json>, n: int)
    requires
        0 <= n <= b.len(),
        b.len() > 0,
        b[0].string_member("p"@) is Some,
        b[0].string_member("o"@) is Some,
    ensures
        n > 0 ==> batch_path(a + b, a.len() + n) == batch_path(b, n) && batch_op(
            a + b,
            a.len() + n,
        ) == batch_op(b, n),
        ({
            let one = batch_step(s, parent, a, a.len() as int);
            let two = batch_step(one.state, parent, b, n);
            batch_step(s, parent, a + b, a.len() + n) == (Step {
                state: two.state,
                frames: one.frames + two.frames,
            })
        }),
    decreases n,
{
    let one = batch_step(s, parent, a, a.len() as int);
    if n == 0 {
        lemma_batch_prefix(s, parent, a, b, a.len() as int);
        assert(one.frames + Seq::<FrameV>::empty() =~= one.frames);
    } else {
        lemma_batch_concat(s, parent, a, b, n - 1);
        assert((a + b)[a.len() + n - 1] == b[n - 1]);
        let two = batch_step(one.state, parent, b, n - 1);
        let path = nested_path(parent, batch_path(b, n));
        if let Some(v) = b[n - 1].member("v"@) {
            let next = if batch_op(b, n) == "BATCH"@ {
                match v {
                    Json::Array(inner) => batch_step(two.state, path, inner@, inner@.len() as int),
                    _ => Step { state: two.state, frames: Seq::empty() },
                }
            } else {
                path_step(two.state, path, batch_op(b, n), v)
            };
            assert(one.frames + two.frames + next.frames =~= one.frames + (two.frames
                + next.frames));
        }
    }
}

/// The items of a batch act in turn: where the rest begins with an item that
/// names its path and operation, the batch is its beginning and then its rest.
pub proof fn law_batch_goes_in_turn(
    s: StateV,
    parent: Seq<char>,
    first: Seq<Json>,
    rest: Seq<Json>,
)
    requires
        rest.len() > 0,
        rest[0].string_member("p"@) is Some,
        rest[0].string_member("o"@) is Some,
    ensures
        ({
            let one = batch_step(s, parent, first, first.len() as int);
            let two = batch_step(one.state, parent, rest, rest.len() as int);
            batch_step(s, parent, first + rest, (first + rest).len() as int) == (Step {
                state: two.state,
                frames: one.frames + two.frames,
            })
        }),
{
    lemma_batch_concat(s, parent, first, rest, rest.len() as int);
}

/// An item of a batch that leaves out its path or operation acts as if it named
/// those of the item before it; the first one, as if it named the empty path
/// and `SET`.
pub proof fn law_batch_address_is_carried(
    s: StateV,
    parent: Seq<char>,
    short: Seq<Json>,
    long: Seq<Json>,
    k: int,
    p: Seq<char>,
    o: Seq<char>,
    n: int,
)
    requires
        0 <= k < short.len(),
        short.len() == long.len(),
        0 <= n <= short.len(),
        forall|i: int| 0 <= i < short.len() && i != k ==> #[trigger] short[i] == long[i],
        k > 0 ==> short[k - 1].string_member("p"@) == Some(p) && short[k - 1].string_member("o"@)
            == Some(o),
        k == 0 ==> p == Seq::<char>::empty() && o == "SET"@,
        short[k].string_member("p"@) is None,
        short[k].string_member("o"@) is None,
        long[k].string_member("p"@) == Some(p),
        long[k].string_member("o"@) == Some(o),
        long[k].member("v"@) == short[k].member("v"@),
    ensures
        batch_step(s, parent, short, n) == batch_step(s, parent, long, n),
        batch_path(short, n) == batch_path(long, n),
        batch_op(short, n) == batch_op(long, n),
    decreases n,
{
    if n > 0 {
        law_batch_address_is_carried(s, parent, short, long, k, p, o, n - 1);
        if n - 1 == k {
            if k > 0 {
                assert(short[k - 1] == long[k - 1]);
                assert(batch_path(short, k) == p);
                assert(batch_op(short, k) == o);
            }
        } else {
            assert(short[n - 1] == long[n - 1]);
        }
    }
}

impl Default for DsState {
    /// A response of which nothing is known.
    fn default() -> (r: DsState)
        ensures
            r@ == (StateV {
                path: None,
                op: None,
                fragments: Seq::empty(),
                status: None,
                usage: None,
            }),
    {
        DsState {
            current_path: None,
            current_op: None,
            fragments: Vec::new(),
            status: None,
            accumulated_token_usage: None,
        }
    }
}

/// Adds the delta of a new piece of text of a fragment of type `ty`.
fn push_delta(frames: &mut Vec<DsFrame>, ty: &str, content: &str)
    ensures
        frames_view(final(frames)@) == frames_view(old(frames)@) + delta(ty@, content@),
{
    let ghost before = frames_view(frames@);
    if text::same(ty, "THINK") {
        frames.push(DsFrame::ThinkDelta(content.to_owned()));
        assert(frames_view(frames@) =~= before.push(FrameV::Think(content@)));
    } else if text::same(ty, "RESPONSE") {
        frames.push(DsFrame::ContentDelta(content.to_owned()));
        assert(frames_view(frames@) =~= before.push(FrameV::Content(content@)));
    }
}

/// Adds all frames of `more`.
fn extend_frames(frames: &mut Vec<DsFrame>, more: Vec<DsFrame>)
    ensures
        frames_view(final(frames)@) == frames_view(old(frames)@) + frames_view(more@),
{
    let mut rest = more;
    frames.append(&mut rest);
}

impl DsState {
    /// Adds the fragments that `items` describe.
    fn push_fragments(&mut self, items: &Vec<Json>) -> (frames: Vec<DsFrame>)
        ensures
            final(self)@ == (StateV {
                fragments: old(self)@.fragments + fragments_of(items@, items@.len() as int),
                ..old(self)@
            }),
            frames_view(frames@) == opening_frames(items@, items@.len() as int),
    {
        let mut frames: Vec<DsFrame> = Vec::new();
        let ghost start = self@;
        let mut i: usize = 0;
        assert(self@.fragments =~= start.fragments + fragments_of(items@, 0));
        while i < items.len()
            invariant
                i <= items@.len(),
                self@ == (StateV {
                    fragments: start.fragments + fragments_of(items@, i as int),
                    ..start
                }),
                frames_view(frames@) == opening_frames(items@, i as int),
            decreases items@.len() - i,
        {
            if let Some(ty) = items[i].get_str("type") {
                let content = match items[i].get_str("content") {
                    Some(c) => c.clone(),
                    None => String::new(),
                };
                let ghost before = self@.fragments;
                if !content.as_str().is_empty() {
                    push_delta(&mut frames, ty.as_str(), content.as_str());
                }
                let fragment = Fragment { ty: ty.clone(), content };
                self.fragments.push(fragment);
                assert(fragments_view(self.fragments@) =~= before.push(fragment@));
                assert(fragment@.content =~= content_of(items@[i as int]));
                assert(self@.fragments =~= start.fragments + fragments_of(items@, i + 1));
                assert(frames_view(frames@) =~= opening_frames(items@, i + 1));
            }
            i += 1;
        }
        frames
    }

    /// Applies one `SET` or `APPEND` of `val` at `path`.
    pub fn apply_path(&mut self, path: &str, op: &str, val: &Json) -> (frames: Vec<DsFrame>)
        ensures
            (Step { state: final(self)@, frames: frames_view(frames@) }) == path_step(
                old(self)@,
                path@,
                op@,
                *val,
            ),
    {
        let mut frames: Vec<DsFrame> = Vec::new();
        if text::same(path, "response/status") {
            if let Some(s) = val.as_str() {
                self.status = Some(s.clone());
                frames.push(DsFrame::Status(s.clone()));
            }
        } else if text::same(path, "response/accumulated_token_usage") || text::same(
            path,
            "accumulated_token_usage",
        ) {
            if let Some(n) = val.as_u64() {
                let u: u32 = if n > u32::MAX as u64 {
                    u32::MAX
                } else {
                    n as u32
                };
                self.accumulated_token_usage = Some(u);
                frames.push(DsFrame::Usage(u));
            }
        } else if text::same(path, "response/fragments/-1/content") {
            if let Some(s) = val.as_str() {
                let n: usize = self.fragments.len();
                if n > 0 && (text::same(self.fragments[n - 1].ty.as_str(), "THINK") || text::same(
                    self.fragments[n - 1].ty.as_str(),
                    "RESPONSE",
                )) {
                    let ghost before = self@.fragments;
                    match self.fragments.pop() {
                        Some(fragment) => {
                            let mut fragment = fragment;
                            push_delta(&mut frames, fragment.ty.as_str(), s.as_str());
                            fragment.content.append(s.as_str());
                            self.fragments.push(fragment);
                            assert(self@.fragments =~= before.drop_last().push(fragment@));
                        },
                        None => {},
                    }
                }
            }
        } else if text::same(path, "response/fragments") && text::same(op, "APPEND") {
            if let Json::Array(items) = val {
                frames = self.push_fragments(items);
            }
        }
        assert(frames_view(frames@) =~= path_step(old(self)@, path@, op@, *val).frames);
        frames
    }

    /// Applies the items of a batch at `parent_path`; the path and operation in
    /// force outside the batch stay as they are.
    pub fn apply_batch(&mut self, parent_path: &str, v: &Json) -> (frames: Vec<DsFrame>)
        ensures
            (Step { state: final(self)@, frames: frames_view(frames@) }) == (match *v {
                Json::Array(items) => batch_step(
                    old(self)@,
                    parent_path@,
                    items@,
                    items@.len() as int,
                ),
                _ => Step { state: old(self)@, frames: Seq::empty() },
            }),
        decreases *v,
    {
        let mut frames: Vec<DsFrame> = Vec::new();
        assert(frames_view(frames@) =~= Seq::empty());
        let Json::Array(items) = v else {
            return frames;
        };
        let ghost start = self@;
        let mut sub_path = String::new();
        let mut sub_op = "SET".to_owned();
        let mut i: usize = 0;
        assert(sub_path@ =~= batch_path(items@, 0));
        while i < items.len()
            invariant
                i <= items@.len(),
                *v == Json::Array(*items),
                sub_path@ == batch_path(items@, i as int),
                sub_op@ == batch_op(items@, i as int),
                (Step { state: self@, frames: frames_view(frames@) }) == batch_step(
                    start,
                    parent_path@,
                    items@,
                    i as int,
                ),
            decreases items@.len() - i,
        {
            if let Some(p) = items[i].get_str("p") {
                sub_path = p.clone();
            }
            if let Some(o) = items[i].get_str("o") {
                sub_op = o.clone();
            }
            if let Some(inner) = items[i].get("v") {
                let full_path = if parent_path.is_empty() {
                    sub_path.clone()
                } else if sub_path.as_str().is_empty() {
                    parent_path.to_owned()
                } else {
                    let mut t = parent_path.to_owned();
                    t.append("/");
                    t.append(sub_path.as_str());
                    t
                };
                let more = if text::same(sub_op.as_str(), "BATCH") {
                    proof {
                        json::lemma_member_smaller(items@[i as int], "v"@);
                        assert(decreases_to!(*v => (*v)->Array_0));
                        assert(decreases_to!(*items => items@));
                        assert(decreases_to!(items@ => items@[i as int]));
                    }
                    self.apply_batch(full_path.as_str(), inner)
                } else {
                    self.apply_path(full_path.as_str(), sub_op.as_str(), inner)
                };
                extend_frames(&mut frames, more);
            }
            i += 1;
        }
        frames
    }

    /// Takes over a whole response object.
    pub fn apply_initial_snapshot(&mut self, response: &Json) -> (frames: Vec<DsFrame>)
        ensures
            (Step { state: final(self)@, frames: frames_view(frames@) }) == snapshot_step(
                old(self)@,
                *response,
            ),
    {
        if let Some(s) = response.get_str("status") {
            self.status = Some(s.clone());
        }
        if let Some(v) = response.get("accumulated_token_usage") {
            if let Some(n) = v.as_u64() {
                let u: u32 = if n > u32::MAX as u64 {
                    u32::MAX
                } else {
                    n as u32
                };
                self.accumulated_token_usage = Some(u);
            }
        }
        if let Some(Json::Array(items)) = response.get("fragments") {
            self.fragments.clear();
            let frames = self.push_fragments(items);
            assert(self@.fragments =~= fragments_of(items@, items@.len() as int));
            frames
        } else {
            let frames: Vec<DsFrame> = Vec::new();
            assert(frames_view(frames@) =~= Seq::empty());
            frames
        }
    }

    /// Applies one patch event.
    pub fn apply_patch_value(&mut self, val: &Json) -> (frames: Vec<DsFrame>)
        ensures
            (Step { state: final(self)@, frames: frames_view(frames@) }) == patch_step(
                old(self)@,
                *val,
            ),
    {
        if let Some(p) = val.get_str("p") {
            self.current_path = Some(p.clone());
        }
        if let Some(o) = val.get_str("o") {
            self.current_op = Some(o.clone());
        }
        assert(self@ =~= addressed(old(self)@, *val));
        let op = match &self.current_op {
            Some(o) => o.clone(),
            None => "SET".to_owned(),
        };
        let path = match &self.current_path {
            Some(p) => p.clone(),
            None => String::new(),
        };
        let Some(v) = val.get("v") else {
            let frames: Vec<DsFrame> = Vec::new();
            assert(frames_view(frames@) =~= Seq::empty());
            return frames;
        };
        if self.current_path.is_none() {
            if let Some(response) = v.get("response") {
                return self.apply_initial_snapshot(response);
            }
        }
        if text::same(op.as_str(), "BATCH") {
            if let Json::Array(_) = v {
                return self.apply_batch(path.as_str(), v);
            }
            return self.apply_path(path.as_str(), "SET", v);
        }
        self.apply_path(path.as_str(), op.as_str(), v)
    }

    /// Takes in one event whose data was read as `data`.
    pub fn apply_parsed(&mut self, event: &Option<String>, data: Option<Json>) -> (frames: Vec<
        DsFrame,
    >)
        ensures
            (Step { state: final(self)@, frames: frames_view(frames@) }) == event_step(
                old(self)@,
                opt_text(*event),
                data,
            ),
    {
        let mut frames: Vec<DsFrame> = Vec::new();
        if let Some(name) = event {
            if text::same(name.as_str(), "ready") {
                frames.push(DsFrame::Role);
            }
        }
        assert(frames_view(frames@) =~= (if opt_text(*event) == Some("ready"@) {
            seq![FrameV::Role]
        } else {
            Seq::empty()
        }));
        if let Some(val) = data {
            let more = self.apply_patch_value(&val);
            extend_frames(&mut frames, more);
        }
        frames
    }

    /// Takes in one event.
    pub fn apply_event(&mut self, evt: &SseEvent) -> (frames: Vec<DsFrame>)
        ensures
            (Step { state: final(self)@, frames: frames_view(frames@) }) == event_step(
                old(self)@,
                opt_text(evt.event),
                json::parsed(evt.data@),
            ),
    {
        let data = json::parse(evt.data.as_str());
        self.apply_parsed(&evt.event, data)
    }
}

/// A stream of events with the frames that they brought.
pub struct StateStream<S> {
    pub inner: S,
    pub state: DsState,
    /// The frames that wait, last to go first.
    pub pending: Vec<DsFrame>,
}

/// The frames from the last to the first.
fn backwards(frames: Vec<DsFrame>) -> (r: Vec<DsFrame>)
    ensures
        r@ == frames@.reverse(),
{
    let mut left = frames;
    let ghost all = left@;
    let mut r: Vec<DsFrame> = Vec::new();
    while left.len() > 0
        invariant
            left@.len() + r@.len() == all.len(),
            left@ == all.take(left@.len() as int),
            forall|i: int| 0 <= i < r@.len() ==> #[trigger] r@[i] == all[all.len() - 1 - i],
        decreases left@.len(),
    {
        if let Some(f) = left.pop() {
            r.push(f);
        }
    }
    r
}

impl<S> StateStream<S> {
    /// The patch state so far.
    pub open spec fn state(self) -> StateV {
        self.state@
    }

    /// The frames that wait to be handed out, first to go first.
    pub open spec fn queue(self) -> Seq<FrameV> {
        frames_view(self.pending@).reverse()
    }

    /// A stream over `inner` with nothing taken in yet.
    pub fn new(inner: S) -> (r: StateStream<S>)
        ensures
            r.inner == inner,
            r.state() == (StateV {
                path: None,
                op: None,
                fragments: Seq::empty(),
                status: None,
                usage: None,
            }),
            r.queue().len() == 0,
    {
        StateStream { inner, state: DsState::default(), pending: Vec::new() }
    }

    /// The next frame that waits.
    pub fn next_pending(&mut self) -> (r: Option<DsFrame>)
        ensures
            final(self).inner == old(self).inner,
            final(self).state() == old(self).state(),
            match r {
                Some(f) => old(self).queue().len() > 0 && f@ == old(self).queue()[0]
                    && final(self).queue() == old(self).queue().subrange(
                    1,
                    old(self).queue().len() as int,
                ),
                None => old(self).queue().len() == 0 && final(self).queue() == old(self).queue(),
            },
    {
        let r = self.pending.pop();
        proof {
            if r is Some {
                assert(self.queue() =~= old(self).queue().subrange(
                    1,
                    old(self).queue().len() as int,
                ));
            }
        }
        r
    }

    /// Takes in an event: its first frame comes back, the others wait in order.
    pub fn on_event(&mut self, evt: &SseEvent) -> (r: Option<DsFrame>)
        requires
            old(self).queue().len() == 0,
        ensures
            final(self).inner == old(self).inner,
            ({
                let step = event_step(
                    old(self).state(),
                    opt_text(evt.event),
                    json::parsed(evt.data@),
                );
                &&& final(self).state() == step.state
                &&& match r {
                    Some(f) => step.frames == seq![f@] + final(self).queue(),
                    None => step.frames.len() == 0 && final(self).queue().len() == 0,
                }
            }),
    {
        let mut frames = self.state.apply_event(evt);
        let ghost all = frames_view(frames@);
        if frames.len() == 0 {
            return None;
        }
        let first = frames.remove(0);
        let ghost rest = frames_view(frames@);
        assert(all =~= seq![first@] + rest);
        let ghost waiting = frames@;
        let pending = backwards(frames);
        assert(frames_view(pending@).reverse() =~= rest) by {
            assert(forall|i: int|
                0 <= i < waiting.len() ==> pending@[waiting.len() - 1 - i] == waiting[i]);
        }
        self.pending = pending;
        Some(first)
    }
}

/// The path of an item of a batch goes on from that of the batch; where one of the
/// two is empty it is the other.
pub proof fn law_paths_go_on(parent: Seq<char>, sub: Seq<char>)
    ensures
        parent.len() == 0 ==> nested_path(parent, sub) == sub,
        sub.len() == 0 ==> nested_path(parent, sub) == parent,
        parent.len() > 0 && sub.len() > 0 ==> {
            let p = nested_path(parent, sub);
            &&& p.len() == parent.len() + 1 + sub.len()
            &&& p.subrange(0, parent.len() as int) == parent
            &&& p[parent.len() as int] == '/'
            &&& p.subrange(p.len() - sub.len(), p.len() as int) == sub
        },
{
    reveal_strlit("/");
    let p = nested_path(parent, sub);
    if parent.len() == 0 && sub.len() == 0 {
        assert(parent =~= sub);
    }
    if parent.len() > 0 && sub.len() > 0 {
        assert(p.subrange(0, parent.len() as int) =~= parent);
        assert(p.subrange(p.len() - sub.len(), p.len() as int) =~= sub);
    }
}

} // verus!
