//! Answers that are handed on, and the sessions behind them.

use vstd::prelude::*;

use crate::ds_core::accounts::AccountGuard;
use crate::ds_core::attempt;
use crate::ds_core::attempt::StopStreamPayload;
use crate::ds_core::{CoreError, CoreErrorV};
use crate::table;
use crate::table::Table;
use crate::text;

verus! {

/// So often is a failed attempt made at most.
pub const MAX_ATTEMPTS: usize = 3;

/// How long to wait before the next attempt, in milliseconds.
pub const ATTEMPT_PAUSE_MS: u64 = 500;

/// How long to wait before looking at an upload again, in milliseconds.
pub const UPLOAD_POLL_INTERVAL_MS: u64 = 2000;

/// So often an upload is looked at.
pub const UPLOAD_POLL_MAX_RETRIES: usize = 30;

/// What to do after a failed attempt.
#[derive(Debug)]
pub enum AfterFailure {
    /// Wait so many milliseconds and try again.
    Again(u64),
    GiveUp(CoreError),
}

/// What to do after the attempt number `attempt`, counted from 0, failed: try
/// again while attempts are left, else report the last error.
pub fn after_failure(attempt: usize, error: CoreError) -> (r: AfterFailure)
    ensures
        attempt + 1 < MAX_ATTEMPTS ==> r == AfterFailure::Again(ATTEMPT_PAUSE_MS),
        attempt + 1 >= MAX_ATTEMPTS ==> r == AfterFailure::GiveUp(error),
{
    if attempt < MAX_ATTEMPTS - 1 {
        AfterFailure::Again(ATTEMPT_PAUSE_MS)
    } else {
        AfterFailure::GiveUp(error)
    }
}

/// What to do about an upload.
#[derive(Debug)]
pub enum UploadAction {
    /// Ask for the state of the file.
    Fetch,
    /// Wait so many milliseconds.
    Sleep(u64),
    /// The file is there, under this id.
    Ready(String),
    Fail(CoreError),
}

/// The model of an `UploadAction`.
#[verifier::ext_equal]
pub enum UploadV {
    Fetch,
    Sleep(u64),
    Ready(Seq<char>),
    Fail(CoreErrorV),
}

impl View for UploadAction {
    type V = UploadV;

    open spec fn view(&self) -> UploadV {
        match *self {
            UploadAction::Fetch => UploadV::Fetch,
            UploadAction::Sleep(ms) => UploadV::Sleep(ms),
            UploadAction::Ready(id) => UploadV::Ready(id@),
            UploadAction::Fail(e) => UploadV::Fail(e@),
        }
    }
}

/// A file that was uploaded and is being worked on.
#[derive(Debug)]
pub struct Upload {
    pub file_id: String,
    /// How often it was looked at.
    pub polls: usize,
}

/// What the state of a file, given as its status and name, asks for.
pub open spec fn upload_verdict(
    file_id: Seq<char>,
    file: Result<Option<(Seq<char>, Seq<char>)>, Seq<char>>,
) -> UploadV {
    match file {
        Err(m) => UploadV::Fail(CoreErrorV::ProviderError(m)),
        Ok(Some(f)) => if f.0 == "SUCCESS"@ {
            UploadV::Ready(file_id)
        } else if f.0 == "FAILED"@ {
            UploadV::Fail(CoreErrorV::ProviderError("Tải tệp thất bại: "@ + f.1))
        } else {
            UploadV::Sleep(UPLOAD_POLL_INTERVAL_MS)
        },
        Ok(None) => UploadV::Sleep(UPLOAD_POLL_INTERVAL_MS),
    }
}

/// The state of a file as a model.
pub open spec fn file_view(file: Result<Option<(String, String)>, String>) -> Result<
    Option<(Seq<char>, Seq<char>)>,
    Seq<char>,
> {
    match file {
        Err(m) => Err(m@),
        Ok(Some(f)) => Ok(Some((f.0@, f.1@))),
        Ok(None) => Ok(None),
    }
}

impl Upload {
    /// An upload that gave this id.
    pub fn new(file_id: String) -> (r: Upload)
        ensures
            r.file_id == file_id && r.polls == 0,
    {
        Upload { file_id, polls: 0 }
    }

    /// What to do with the state of the file: its status and name, nothing if
    /// it is not listed, or the message of a failure.
    pub fn on_file(&mut self, file: Result<Option<(String, String)>, String>) -> (r: UploadAction)
        requires
            old(self).polls < UPLOAD_POLL_MAX_RETRIES,
        ensures
            final(self).file_id == old(self).file_id,
            final(self).polls == old(self).polls + 1,
            r@ == upload_verdict(old(self).file_id@, file_view(file)),
    {
        self.polls = self.polls + 1;
        match file {
            Err(m) => UploadAction::Fail(CoreError::from_client(m)),
            Ok(Some((status, name))) => {
                if text::same(status.as_str(), "SUCCESS") {
                    UploadAction::Ready(self.file_id.clone())
                } else if text::same(status.as_str(), "FAILED") {
                    UploadAction::Fail(
                        CoreError::ProviderError(
                            text::cat2("Tải tệp thất bại: ", name.as_str()),
                        ),
                    )
                } else {
                    UploadAction::Sleep(UPLOAD_POLL_INTERVAL_MS)
                }
            },
            Ok(None) => UploadAction::Sleep(UPLOAD_POLL_INTERVAL_MS),
        }
    }

    /// What to do first, and after each wait: look at the file, unless it was
    /// looked at often enough.
    pub fn next(&self) -> (r: UploadAction)
        ensures
            r@ == if self.polls < UPLOAD_POLL_MAX_RETRIES {
                UploadV::Fetch
            } else {
                UploadV::Fail(CoreErrorV::ProviderError("Xử lý tệp quá thời gian"@))
            },
    {
        if self.polls < UPLOAD_POLL_MAX_RETRIES {
            UploadAction::Fetch
        } else {
            UploadAction::Fail(CoreError::ProviderError("Xử lý tệp quá thời gian".to_owned()))
        }
    }
}

/// A session whose answer is being handed on.
#[derive(Debug)]
pub struct ActiveSession {
    pub token: String,
    pub session_id: String,
    pub message_id: i64,
}

/// The model of an `ActiveSession`.
#[verifier::ext_equal]
pub struct SessionV {
    pub token: Seq<char>,
    pub session: Seq<char>,
    pub message: int,
}

impl View for ActiveSession {
    type V = SessionV;

    open spec fn view(&self) -> SessionV {
        SessionV {
            token: self.token@,
            session: self.session_id@,
            message: self.message_id as int,
        }
    }
}

/// The sessions whose answers are being handed on, by their ids.
pub struct Sessions {
    pub active: Table<ActiveSession>,
}

impl View for Sessions {
    type V = Map<Seq<char>, SessionV>;

    open spec fn view(&self) -> Map<Seq<char>, SessionV> {
        self.active@.map_values(|s: ActiveSession| s@)
    }
}

/// The models of some sessions.
pub open spec fn session_views(v: Seq<ActiveSession>) -> Seq<SessionV> {
    Seq::new(v.len(), |i: int| v[i]@)
}

impl Sessions {
    /// The table is in order.
    pub open spec fn wf(&self) -> bool {
        self.active.wf()
    }

    /// No sessions.
    pub fn new() -> (r: Sessions)
        ensures
            r.wf(),
            r@ == Map::<Seq<char>, SessionV>::empty(),
    {
        let r = Sessions { active: Table::new() };
        assert(r@ =~= Map::<Seq<char>, SessionV>::empty());
        r
    }

    /// Takes a session in.
    pub fn insert(&mut self, session: ActiveSession)
        requires
            old(self).wf(),
        ensures
            final(self).wf(),
            final(self)@ == old(self)@.insert(session@.session, session@),
    {
        let ghost s = session@;
        self.active.insert(session.session_id.clone(), session);
        assert(self@ =~= old(self)@.insert(s.session, s));
    }

    /// Forgets a session.
    pub fn remove(&mut self, session_id: &str)
        requires
            old(self).wf(),
        ensures
            final(self).wf(),
            final(self)@ == old(self)@.remove(session_id@),
    {
        self.active.remove(session_id);
        assert(self@ =~= old(self)@.remove(session_id@));
    }

    /// Hands all sessions out, to be stopped and deleted, in no order to rely
    /// on; none is left.
    pub fn take_all(&mut self) -> (r: Vec<ActiveSession>)
        requires
            old(self).wf(),
        ensures
            final(self).wf(),
            final(self)@ == Map::<Seq<char>, SessionV>::empty(),
            exists|ids: Seq<Seq<char>>| #[trigger]
                table::lists_all(ids, old(self)@.dom()) && session_views(r@) == Seq::new(
                    ids.len(),
                    |i: int| old(self)@[ids[i]],
                ),
    {
        let ghost before = self@;
        let keys = self.active.keys();
        let ghost ids = text::strs(keys@);
        assert(before.dom() =~= self.active@.dom());
        assert(table::lists_all(ids, before.dom()));
        let mut out: Vec<ActiveSession> = Vec::new();
        let mut i: usize = 0;
        while i < keys.len()
            invariant
                i <= keys@.len(),
                self.wf(),
                ids == text::strs(keys@),
                table::lists_all(ids, before.dom()),
                forall|j: int| i <= j < ids.len() ==> self@.dom().contains(#[trigger] ids[j])
                    && self@[ids[j]] == before[ids[j]],
                forall|k: Seq<char>| #[trigger]
                    self@.dom().contains(k) ==> before.dom().contains(k) && forall|j: int|
                        0 <= j < i ==> #[trigger] ids[j] != k,
                out@.len() == i,
                forall|j: int| 0 <= j < i ==> (#[trigger] out@[j])@ == before[ids[j]],
            decreases keys@.len() - i,
        {
            let ghost now = self@;
            assert(ids[i as int] == keys@[i as int]@);
            assert(self@.dom().contains(ids[i as int]));
            assert(self.active@.dom().contains(ids[i as int]));
            if let Some(s) = self.active.remove(keys[i].as_str()) {
                assert(s@ == now[ids[i as int]]);
                out.push(s);
            }
            assert(self@ =~= now.remove(ids[i as int]));
            i += 1;
        }
        assert(self@ =~= Map::<Seq<char>, SessionV>::empty()) by {
            assert forall|k: Seq<char>| !self@.dom().contains(k) by {
                if self@.dom().contains(k) {
                    assert(before.dom().contains(k));
                    let j = choose|j: int| 0 <= j < ids.len() && #[trigger] ids[j] == k;
                    assert(ids[j] == k);
                }
            }
        }
        assert(session_views(out@) =~= Seq::new(ids.len(), |i: int| before[ids[i]]));
        out
    }
}

/// An answer that is handed on, with the account and the session behind it.
#[derive(Debug)]
pub struct GuardedStream<S> {
    pub stream: S,
    pub guard: AccountGuard,
    pub token: String,
    pub session_id: String,
    pub message_id: i64,
    /// The answer came to its end.
    pub finished: bool,
}

/// What is left to tell the back end once an answer is no longer handed on.
#[derive(Debug)]
pub struct Farewell {
    pub token: String,
    /// The session, to be deleted.
    pub session_id: String,
    /// The message to stop first, where its answer did not come to its end.
    pub stop: Option<StopStreamPayload>,
}

/// A piece of an answer as it is handed on.
pub open spec fn handed_on(item: Option<Result<Seq<u8>, Seq<char>>>) -> Option<
    Result<Seq<u8>, CoreErrorV>,
> {
    match item {
        None => None,
        Some(Ok(b)) => Some(Ok(b)),
        Some(Err(m)) => Some(Err(CoreErrorV::Stream(m))),
    }
}

/// A piece of an answer that is handed on, as a model.
pub open spec fn item_view(item: Option<Result<Vec<u8>, CoreError>>) -> Option<
    Result<Seq<u8>, CoreErrorV>,
> {
    match item {
        None => None,
        Some(Ok(b)) => Some(Ok(b@)),
        Some(Err(e)) => Some(Err(e@)),
    }
}

/// `f` is what is left to tell the back end of the answer `g`.
pub open spec fn ends<S>(g: GuardedStream<S>, f: Farewell) -> bool {
    &&& f.token@ == g.token@
    &&& f.session_id@ == g.session_id@
    &&& match f.stop {
        Some(p) => !g.finished && p.chat_session_id@ == g.session_id@ && p.message_id
            == g.message_id,
        None => g.finished,
    }
}

impl<S> GuardedStream<S> {
    /// An answer to hand on.
    pub fn new(
        stream: S,
        guard: AccountGuard,
        token: String,
        session_id: String,
        message_id: i64,
    ) -> (r: GuardedStream<S>)
        ensures
            r == (GuardedStream {
                stream,
                guard,
                token,
                session_id,
                message_id,
                finished: false,
            }),
    {
        GuardedStream { stream, guard, token, session_id, message_id, finished: false }
    }

    /// Hands on a piece of the answer, and notes its end.
    pub fn on_item(&mut self, item: Option<Result<Vec<u8>, String>>) -> (r: Option<
        Result<Vec<u8>, CoreError>,
    >)
        ensures
            item_view(r) == handed_on(attempt::chunk_view(item)),
            *final(self) == (GuardedStream {
                finished: old(self).finished || item is None,
                ..*old(self)
            }),
    {
        match item {
            None => {
                self.finished = true;
                None
            },
            Some(Ok(bytes)) => Some(Ok(bytes)),
            Some(Err(m)) => Some(Err(CoreError::Stream(m))),
        }
    }

    /// The account, to be handed back, and what is left to tell the back end:
    /// the session always goes; an answer that is not at its end is stopped
    /// first.
    pub fn farewell(self) -> (r: (AccountGuard, Farewell))
        ensures
            r.0 == self.guard,
            ends(self, r.1),
    {
        let stop = if self.finished {
            None
        } else {
            Some(
                StopStreamPayload {
                    chat_session_id: self.session_id.clone(),
                    message_id: self.message_id,
                },
            )
        };
        (self.guard, Farewell { token: self.token, session_id: self.session_id, stop })
    }
}

/// A session that was taken in and forgotten leaves no trace.
pub proof fn law_forgotten_session_is_gone(m: Map<Seq<char>, SessionV>, s: SessionV)
    requires
        !m.dom().contains(s.session),
    ensures
        m.insert(s.session, s).remove(s.session) == m,
{
    assert(m.insert(s.session, s).remove(s.session) =~= m);
}

/// A file is there once its state is success, under the id that the upload gave;
/// it is lost once its state is failure or cannot be had; else it is looked at
/// again later.
pub proof fn law_upload_waits_for_success(
    id: Seq<char>,
    status: Seq<char>,
    name: Seq<char>,
    m: Seq<char>,
)
    ensures
        upload_verdict(id, Ok(Some(("SUCCESS"@, name)))) == UploadV::Ready(id),
        upload_verdict(id, Ok(Some(("FAILED"@, name)))) matches UploadV::Fail(
            CoreErrorV::ProviderError(t),
        ) && text::stands_at(t, name, t.len() - name.len()),
        status != "SUCCESS"@ && status != "FAILED"@ ==> upload_verdict(
            id,
            Ok(Some((status, name))),
        ) is Sleep,
        upload_verdict(id, Ok(None)) is Sleep,
        upload_verdict(id, Err(m)) == UploadV::Fail(CoreErrorV::ProviderError(m)),
{
    reveal_strlit("SUCCESS");
    reveal_strlit("FAILED");
    assert("SUCCESS"@.len() != "FAILED"@.len());
    let t = "Tải tệp thất bại: "@ + name;
    assert(t.subrange(t.len() - name.len(), t.len() as int) =~= name);
}

/// Pieces of an answer are handed on unchanged, and so is its end; a failure is
/// told with its message.
pub proof fn law_answer_is_handed_on_unchanged(b: Seq<u8>, m: Seq<char>)
    ensures
        handed_on(Some(Ok(b))) == Some(Ok::<Seq<u8>, CoreErrorV>(b)),
        handed_on(Some(Err(m))) == Some(Err::<Seq<u8>, CoreErrorV>(CoreErrorV::Stream(m))),
        handed_on(None) is None,
{
}

/// The session behind an answer always goes; the message is stopped first exactly
/// where its answer did not come to its end.
pub proof fn law_unfinished_answers_are_stopped<S>(g: GuardedStream<S>, f: Farewell)
    requires
        ends(g, f),
    ensures
        f.session_id@ == g.session_id@ && f.token@ == g.token@,
        f.stop is Some <==> !g.finished,
        f.stop matches Some(p) ==> p.chat_session_id@ == g.session_id@ && p.message_id
            == g.message_id,
{
}

} // verus!
