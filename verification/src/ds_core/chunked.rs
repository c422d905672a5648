//! The steps of a conversation whose prompt goes out in several messages of
//! one session.
//!
//! Each message but the last is registered and then stopped; its answer is the
//! parent of the next message. The answer to the last is handed on.

use vstd::prelude::*;

use crate::ds_core::attempt;
use crate::ds_core::attempt::{
    ActionV, ChatAction, CompletionPayload, Opening, PayloadV, StopStreamPayload, WhoV,
    ACCOUNT_WAIT_MS,
};
use crate::ds_core::completions;
use crate::ds_core::completions::{ChatRequest, ReadyScan, ReadyV};
use crate::ds_core::{CoreError, CoreErrorV};
use crate::json;
use crate::text;

verus! {

/// Where a conversation in several messages stands.
#[derive(Debug, Clone, Copy, PartialEq, Eq, Structural)]
pub enum ChunkedPhase {
    Account,
    Session,
    Proof,
    Completion,
    /// A message that is not the last waits for its registration.
    Registering,
    /// The answer to it is being stopped.
    Stopping,
    /// It waits for the end of its answer.
    Closing,
    /// The answer to the last message is being opened.
    Reading,
    Over,
}

/// A conversation in several messages.
#[derive(Debug)]
pub struct ChunkedChat {
    pub phase: ChunkedPhase,
    pub request_id: String,
    pub chunks: Vec<String>,
    pub index: usize,
    pub model_type: String,
    pub thinking_enabled: bool,
    pub search_enabled: bool,
    pub account_id: String,
    pub token: String,
    pub session_id: String,
    pub parent: Option<i64>,
    pub ready: Option<i64>,
    /// What has been read of the answer to a message that is not the last.
    pub buf: Vec<u8>,
    pub opening: Opening,
}

/// The model of a `ChunkedChat`.
#[verifier::ext_equal]
pub struct ChunkedV {
    pub phase: ChunkedPhase,
    pub request_id: Seq<char>,
    pub chunks: Seq<Seq<char>>,
    pub index: int,
    pub model_type: Seq<char>,
    pub thinking: bool,
    pub search: bool,
    pub account: Seq<char>,
    pub token: Seq<char>,
    pub session: Seq<char>,
    pub parent: Option<int>,
    pub ready: Option<int>,
    pub buf: Seq<u8>,
    pub opening_buf: Seq<u8>,
    pub opening_text: Seq<char>,
}

impl View for ChunkedChat {
    type V = ChunkedV;

    open spec fn view(&self) -> ChunkedV {
        ChunkedV {
            phase: self.phase,
            request_id: self.request_id@,
            chunks: text::strs(self.chunks@),
            index: self.index as int,
            model_type: self.model_type@,
            thinking: self.thinking_enabled,
            search: self.search_enabled,
            account: self.account_id@,
            token: self.token@,
            session: self.session_id@,
            parent: completions::opt_int(self.parent),
            ready: completions::opt_int(self.ready),
            buf: self.buf@,
            opening_buf: self.opening.buf@,
            opening_text: self.opening.text@,
        }
    }
}

/// A state and what to do in it.
#[verifier::ext_equal]
pub struct ChunkedStep {
    pub state: ChunkedV,
    pub action: ActionV,
}

/// The conversation is over.
pub open spec fn chunked_over(s: ChunkedV, action: ActionV) -> ChunkedStep {
    ChunkedStep { state: ChunkedV { phase: ChunkedPhase::Over, ..s }, action }
}

/// The conversation fails and its session goes; the account is not at fault.
pub open spec fn chunked_broken(s: ChunkedV, error: CoreErrorV) -> ChunkedStep {
    chunked_over(s, ActionV::Fail { mark: false, delete: true, error })
}

/// What names a message in an error: the request and the message's number
/// among those before the last.
pub open spec fn chunk_place(s: ChunkedV) -> Seq<char> {
    "req="@ + s.request_id + " chunk "@ + text::decimal((s.index + 1) as nat) + "/"@
        + text::decimal((s.chunks.len() - 1) as nat)
}

/// With an account a session is made; without one the conversation fails.
pub open spec fn chunked_account(
    s: ChunkedV,
    account: Option<(Seq<char>, Seq<char>)>,
) -> ChunkedStep {
    match account {
        Some(a) => ChunkedStep {
            state: ChunkedV { phase: ChunkedPhase::Session, account: a.0, token: a.1, ..s },
            action: ActionV::CreateSession,
        },
        None => chunked_over(
            s,
            ActionV::Fail { mark: false, delete: false, error: CoreErrorV::Overloaded },
        ),
    }
}

/// With a session the first message gets its proof; without one the account is
/// at fault.
pub open spec fn chunked_session(
    s: ChunkedV,
    session: Result<Seq<char>, Seq<char>>,
) -> ChunkedStep {
    match session {
        Ok(id) => ChunkedStep {
            state: ChunkedV { phase: ChunkedPhase::Proof, session: id, ..s },
            action: ActionV::SolvePow,
        },
        Err(m) => chunked_over(
            s,
            ActionV::Fail { mark: true, delete: false, error: CoreErrorV::ProviderError(m) },
        ),
    }
}

/// With the proof the next piece is sent, after the answer to the one before.
/// Only the last piece makes the model think or search. Without the proof the
/// account is at fault and the session goes.
pub open spec fn chunked_proof(s: ChunkedV, proof_error: Option<CoreErrorV>) -> ChunkedStep {
    match proof_error {
        None => {
            let last = s.index + 1 == s.chunks.len();
            ChunkedStep {
                state: ChunkedV { phase: ChunkedPhase::Completion, ..s },
                action: ActionV::Send(
                    PayloadV {
                        session: s.session,
                        parent: s.parent,
                        model_type: s.model_type,
                        prompt: s.chunks[s.index],
                        file_ids: Seq::empty(),
                        thinking: last && s.thinking,
                        search: last && s.search,
                        preempt: false,
                    },
                ),
            }
        },
        Some(e) => chunked_over(s, ActionV::Fail { mark: true, delete: true, error: e }),
    }
}

/// A message that was accepted has its answer read; one that was not is the
/// account's fault, and the session goes.
pub open spec fn chunked_completion(s: ChunkedV, refusal: Option<Seq<char>>) -> ChunkedStep {
    match refusal {
        None => ChunkedStep {
            state: ChunkedV {
                phase: if s.index + 1 == s.chunks.len() {
                    ChunkedPhase::Reading
                } else {
                    ChunkedPhase::Registering
                },
                buf: Seq::empty(),
                ready: None,
                ..s
            },
            action: ActionV::Read,
        },
        Some(m) => chunked_over(
            s,
            ActionV::Fail { mark: true, delete: true, error: CoreErrorV::ProviderError(m) },
        ),
    }
}

/// What a registration that breaks off means.
pub open spec fn registration_end(s: ChunkedV) -> CoreErrorV {
    let raw = text::lossy(s.buf);
    if text::stands_at(text::trimmed(raw), "{"@, 0) {
        completions::json_error(json::parsed(text::trimmed(raw)), text::trimmed(raw))
    } else {
        CoreErrorV::Stream(chunk_place(s) + " nhận stream rỗng"@)
    }
}

/// A further piece of the answer is read until the message is registered; then
/// the answer is stopped, and becomes the parent of the next message.
pub open spec fn chunked_registering(
    s: ChunkedV,
    chunk: Option<Result<Seq<u8>, Seq<char>>>,
) -> ChunkedStep {
    match chunk {
        None => chunked_broken(s, registration_end(s)),
        Some(Err(m)) => chunked_broken(s, CoreErrorV::Stream(m)),
        Some(Ok(c)) => {
            let next = ChunkedV { buf: s.buf + c, ..s };
            match completions::registration(text::lossy(next.buf), s.ready) {
                ReadyV::More(id) => ChunkedStep {
                    state: ChunkedV { ready: id, ..next },
                    action: ActionV::Read,
                },
                ReadyV::Failed(e) => chunked_broken(next, e),
                ReadyV::Ready(id) => ChunkedStep {
                    state: ChunkedV {
                        phase: ChunkedPhase::Stopping,
                        parent: Some(id),
                        ..next
                    },
                    action: ActionV::Stop { session: s.session, message: id },
                },
            }
        },
    }
}

/// Once the answer is closed the next message gets its proof.
pub open spec fn chunked_until_closed(s: ChunkedV) -> ChunkedStep {
    if completions::closed(text::lossy(s.buf)) {
        ChunkedStep {
            state: ChunkedV { phase: ChunkedPhase::Proof, index: s.index + 1, ..s },
            action: ActionV::SolvePow,
        }
    } else {
        ChunkedStep {
            state: ChunkedV { phase: ChunkedPhase::Closing, ..s },
            action: ActionV::Read,
        }
    }
}

/// A further piece of the answer is read until the answer is closed.
pub open spec fn chunked_closing(
    s: ChunkedV,
    chunk: Option<Result<Seq<u8>, Seq<char>>>,
) -> ChunkedStep {
    match chunk {
        None => chunked_broken(
            s,
            CoreErrorV::Stream(chunk_place(s) + " stream kết thúc trước close"@),
        ),
        Some(Err(m)) => chunked_broken(s, CoreErrorV::Stream(m)),
        Some(Ok(c)) => chunked_until_closed(ChunkedV { buf: s.buf + c, ..s }),
    }
}

/// A further piece of the last answer is read until its first two events are
/// there.
pub open spec fn chunked_reading(
    s: ChunkedV,
    chunk: Option<Result<Seq<u8>, Seq<char>>>,
) -> ChunkedStep {
    let who = WhoV { account: s.account, token: s.token, session: s.session };
    let action = attempt::opening_action(who, s.opening_buf, s.opening_text, chunk, true);
    let state = match chunk {
        Some(Ok(c)) => ChunkedV {
            opening_buf: s.opening_buf + c,
            opening_text: s.opening_text + text::lossy(c),
            ..s
        },
        _ => s,
    };
    if action is Read {
        ChunkedStep { state, action }
    } else {
        chunked_over(state, action)
    }
}

/// What to do with a further piece of an answer.
pub open spec fn chunked_chunk(
    s: ChunkedV,
    chunk: Option<Result<Seq<u8>, Seq<char>>>,
) -> ChunkedStep {
    if s.phase == ChunkedPhase::Registering {
        chunked_registering(s, chunk)
    } else if s.phase == ChunkedPhase::Closing {
        chunked_closing(s, chunk)
    } else {
        chunked_reading(s, chunk)
    }
}

impl ChunkedChat {
    /// A conversation that sends the prompt of `req` in pieces of `chunk_size`
    /// characters.
    pub fn new(req: ChatRequest, chunk_size: usize, request_id: &str) -> (r: ChunkedChat)
        requires
            chunk_size > 0,
            req.prompt@.len() > 0,
        ensures
            r@ == (ChunkedV {
                phase: ChunkedPhase::Account,
                request_id: request_id@,
                chunks: completions::pieces_from(req.prompt@, chunk_size as int, 0),
                index: 0,
                model_type: req.model_type@,
                thinking: req.thinking_enabled,
                search: req.search_enabled,
                account: Seq::empty(),
                token: Seq::empty(),
                session: Seq::empty(),
                parent: None,
                ready: None,
                buf: Seq::empty(),
                opening_buf: Seq::empty(),
                opening_text: Seq::empty(),
            }),
            r@.chunks.len() > 0,
    {
        let chunks = completions::split_prompt_chunks(req.prompt.as_str(), chunk_size);
        let r = ChunkedChat {
            phase: ChunkedPhase::Account,
            request_id: request_id.to_owned(),
            chunks,
            index: 0,
            model_type: req.model_type,
            thinking_enabled: req.thinking_enabled,
            search_enabled: req.search_enabled,
            account_id: String::new(),
            token: String::new(),
            session_id: String::new(),
            parent: None,
            ready: None,
            buf: Vec::new(),
            opening: Opening { buf: Vec::new(), text: String::new() },
        };
        assert(r@.buf =~= Seq::empty());
        r
    }

    /// The first thing to do: get an account, and wait for it.
    pub fn begin(&self) -> (r: ChatAction)
        ensures
            r@ == ActionV::Acquire(Some(ACCOUNT_WAIT_MS)),
    {
        ChatAction::AcquireAccount(Some(ACCOUNT_WAIT_MS))
    }

    fn broken(&mut self, error: CoreError) -> (r: ChatAction)
        ensures
            (ChunkedStep { state: final(self)@, action: r@ }) == chunked_broken(
                old(self)@,
                error@,
            ),
    {
        self.phase = ChunkedPhase::Over;
        ChatAction::Fail { mark_error: false, delete_session: true, error }
    }

    /// What to do with the account, given by its id and token, if there is one.
    pub fn on_account(&mut self, account: Option<(String, String)>) -> (r: ChatAction)
        requires
            old(self)@.phase == ChunkedPhase::Account,
        ensures
            (ChunkedStep { state: final(self)@, action: r@ }) == chunked_account(
                old(self)@,
                attempt::account_view(account),
            ),
    {
        match account {
            Some((id, token)) => {
                self.account_id = id;
                self.token = token;
                self.phase = ChunkedPhase::Session;
                ChatAction::CreateSession
            },
            None => {
                self.phase = ChunkedPhase::Over;
                ChatAction::Fail {
                    mark_error: false,
                    delete_session: false,
                    error: CoreError::Overloaded,
                }
            },
        }
    }

    /// What to do with the session, or with the message of a failure.
    pub fn on_session(&mut self, session: Result<String, String>) -> (r: ChatAction)
        requires
            old(self)@.phase == ChunkedPhase::Session,
        ensures
            (ChunkedStep { state: final(self)@, action: r@ }) == chunked_session(
                old(self)@,
                attempt::text_result(session),
            ),
    {
        match session {
            Ok(id) => {
                self.session_id = id;
                self.phase = ChunkedPhase::Proof;
                ChatAction::SolvePow
            },
            Err(m) => {
                self.phase = ChunkedPhase::Over;
                ChatAction::Fail {
                    mark_error: true,
                    delete_session: false,
                    error: CoreError::ProviderError(m),
                }
            },
        }
    }

    /// What to do after the proof of work, or with its error.
    pub fn on_proof(&mut self, proof_error: Option<CoreError>) -> (r: ChatAction)
        requires
            old(self)@.phase == ChunkedPhase::Proof,
            old(self)@.index < old(self)@.chunks.len(),
        ensures
            (ChunkedStep { state: final(self)@, action: r@ }) == chunked_proof(
                old(self)@,
                completions::opt_error(proof_error),
            ),
    {
        match proof_error {
            None => {
                self.phase = ChunkedPhase::Completion;
                let last = self.index == self.chunks.len() - 1;
                let ref_file_ids: Vec<String> = Vec::new();
                assert(text::strs(ref_file_ids@) =~= Seq::empty());
                ChatAction::SendCompletion(
                    CompletionPayload {
                        chat_session_id: self.session_id.clone(),
                        parent_message_id: self.parent,
                        model_type: self.model_type.clone(),
                        prompt: self.chunks[self.index].clone(),
                        ref_file_ids,
                        thinking_enabled: last && self.thinking_enabled,
                        search_enabled: last && self.search_enabled,
                        preempt: false,
                    },
                )
            },
            Some(error) => {
                self.phase = ChunkedPhase::Over;
                ChatAction::Fail { mark_error: true, delete_session: true, error }
            },
        }
    }

    /// What to do after a message was sent, or with the refusal of it.
    pub fn on_completion(&mut self, refusal: Option<String>) -> (r: ChatAction)
        requires
            old(self)@.phase == ChunkedPhase::Completion,
            old(self)@.index < old(self)@.chunks.len(),
        ensures
            (ChunkedStep { state: final(self)@, action: r@ }) == chunked_completion(
                old(self)@,
                refusal.deep_view(),
            ),
    {
        match refusal {
            None => {
                self.phase = if self.index == self.chunks.len() - 1 {
                    ChunkedPhase::Reading
                } else {
                    ChunkedPhase::Registering
                };
                self.buf = Vec::new();
                self.ready = None;
                assert(self@.buf =~= Seq::empty());
                ChatAction::ReadChunk
            },
            Some(m) => {
                self.phase = ChunkedPhase::Over;
                ChatAction::Fail {
                    mark_error: true,
                    delete_session: true,
                    error: CoreError::ProviderError(m),
                }
            },
        }
    }

    fn place(&self) -> (r: String)
        requires
            self@.chunks.len() > 0,
            self.index < usize::MAX,
        ensures
            r@ == chunk_place(self@),
    {
        let i = text::decimal_of(self.index as u64 + 1);
        let n = text::decimal_of((self.chunks.len() - 1) as u64);
        text::cat6("req=", self.request_id.as_str(), " chunk ", i.as_str(), "/", n.as_str())
    }

    fn on_registering(&mut self, chunk: Option<Result<Vec<u8>, String>>) -> (r: ChatAction)
        requires
            old(self)@.index < old(self)@.chunks.len(),
            old(self)@.phase == ChunkedPhase::Registering,
        ensures
            (ChunkedStep { state: final(self)@, action: r@ }) == chunked_registering(
                old(self)@,
                attempt::chunk_view(chunk),
            ),
    {
        match chunk {
            None => {
                let raw = text::from_utf8_lossy(self.buf.as_slice());
                let trimmed = text::trim(raw.as_str());
                let error = if text::starts_with(trimmed.as_str(), "{") {
                    completions::parse_json_error(raw.as_str())
                } else {
                    assert(self.chunks.len() == self.chunks@.len());
                    CoreError::Stream(
                        text::cat2(self.place().as_str(), " nhận stream rỗng"),
                    )
                };
                self.broken(error)
            },
            Some(Err(m)) => self.broken(CoreError::Stream(m)),
            Some(Ok(c)) => {
                attempt::append_bytes(&mut self.buf, &c);
                let t = text::from_utf8_lossy(self.buf.as_slice());
                match completions::scan_registration(t.as_str(), self.ready) {
                    ReadyScan::More(id) => {
                        self.ready = id;
                        ChatAction::ReadChunk
                    },
                    ReadyScan::Failed(e) => self.broken(e),
                    ReadyScan::Ready(id) => {
                        self.parent = Some(id);
                        self.phase = ChunkedPhase::Stopping;
                        ChatAction::StopMessage(
                            StopStreamPayload {
                                chat_session_id: self.session_id.clone(),
                                message_id: id,
                            },
                        )
                    },
                }
            },
        }
    }

    fn until_closed(&mut self) -> (r: ChatAction)
        requires
            old(self)@.index + 1 < old(self)@.chunks.len(),
        ensures
            (ChunkedStep { state: final(self)@, action: r@ }) == chunked_until_closed(old(self)@),
    {
        let t = text::from_utf8_lossy(self.buf.as_slice());
        if completions::is_closed(t.as_str()) {
            assert(self.chunks.len() == self.chunks@.len());
            self.phase = ChunkedPhase::Proof;
            self.index = self.index + 1;
            ChatAction::SolvePow
        } else {
            self.phase = ChunkedPhase::Closing;
            ChatAction::ReadChunk
        }
    }

    /// What to do after the answer to a message was told to stop.
    pub fn on_stopped(&mut self) -> (r: ChatAction)
        requires
            old(self)@.phase == ChunkedPhase::Stopping,
            old(self)@.index + 1 < old(self)@.chunks.len(),
        ensures
            (ChunkedStep { state: final(self)@, action: r@ }) == chunked_until_closed(old(self)@),
    {
        self.until_closed()
    }

    fn on_closing(&mut self, chunk: Option<Result<Vec<u8>, String>>) -> (r: ChatAction)
        requires
            old(self)@.index + 1 < old(self)@.chunks.len(),
            old(self)@.phase == ChunkedPhase::Closing,
        ensures
            (ChunkedStep { state: final(self)@, action: r@ }) == chunked_closing(
                old(self)@,
                attempt::chunk_view(chunk),
            ),
    {
        match chunk {
            None => {
                assert(self.chunks.len() == self.chunks@.len());
                let error = CoreError::Stream(
                    text::cat2(self.place().as_str(), " stream kết thúc trước close"),
                );
                self.broken(error)
            },
            Some(Err(m)) => self.broken(CoreError::Stream(m)),
            Some(Ok(c)) => {
                attempt::append_bytes(&mut self.buf, &c);
                self.until_closed()
            },
        }
    }

    /// What to do with a further piece of an answer.
    pub fn on_chunk(&mut self, chunk: Option<Result<Vec<u8>, String>>) -> (r: ChatAction)
        requires
            old(self)@.phase == ChunkedPhase::Reading || ((old(self)@.phase
                == ChunkedPhase::Registering || old(self)@.phase == ChunkedPhase::Closing)
                && old(self)@.index + 1 < old(self)@.chunks.len()),
        ensures
            (ChunkedStep { state: final(self)@, action: r@ }) == chunked_chunk(
                old(self)@,
                attempt::chunk_view(chunk),
            ),
    {
        if self.phase == ChunkedPhase::Registering {
            self.on_registering(chunk)
        } else if self.phase == ChunkedPhase::Closing {
            self.on_closing(chunk)
        } else {
            let r = attempt::read_opening(
                &self.account_id,
                &self.token,
                &self.session_id,
                &mut self.opening,
                chunk,
                true,
            );
            match &r {
                ChatAction::ReadChunk => {},
                _ => {
                    self.phase = ChunkedPhase::Over;
                },
            }
            r
        }
    }
}

/// What holds in every phase: a message not yet answered is within the pieces,
/// and all but the last are registered and closed before the next is sent.
pub open spec fn chunked_in_order(s: ChunkedV) -> bool {
    &&& s.chunks.len() > 0
    &&& 0 <= s.index < s.chunks.len()
    &&& s.phase == ChunkedPhase::Reading ==> s.index + 1 == s.chunks.len()
    &&& (s.phase == ChunkedPhase::Registering || s.phase == ChunkedPhase::Stopping || s.phase
        == ChunkedPhase::Closing) ==> s.index + 1 < s.chunks.len()
    &&& s.index > 0 ==> s.parent is Some
    &&& s.phase == ChunkedPhase::Stopping || s.phase == ChunkedPhase::Closing ==> s.parent is Some
}

/// Every step keeps the conversation in order; so every message but the first
/// has a parent, and the answer that is handed on is that to the last piece.
pub proof fn law_chunked_stays_in_order(
    s: ChunkedV,
    account: Option<(Seq<char>, Seq<char>)>,
    session: Result<Seq<char>, Seq<char>>,
    proof_error: Option<CoreErrorV>,
    refusal: Option<Seq<char>>,
    chunk: Option<Result<Seq<u8>, Seq<char>>>,
)
    requires
        chunked_in_order(s),
    ensures
        s.phase == ChunkedPhase::Account ==> chunked_in_order(chunked_account(s, account).state),
        s.phase == ChunkedPhase::Session ==> chunked_in_order(chunked_session(s, session).state),
        s.phase == ChunkedPhase::Proof ==> chunked_in_order(chunked_proof(s, proof_error).state),
        s.phase == ChunkedPhase::Completion ==> chunked_in_order(
            chunked_completion(s, refusal).state,
        ),
        s.phase == ChunkedPhase::Stopping ==> chunked_in_order(chunked_until_closed(s).state),
        s.phase == ChunkedPhase::Registering || s.phase == ChunkedPhase::Closing || s.phase
            == ChunkedPhase::Reading ==> chunked_in_order(chunked_chunk(s, chunk).state),
        s.phase == ChunkedPhase::Proof && proof_error is None ==> (chunked_proof(
            s,
            proof_error,
        ).action matches ActionV::Send(p) && (s.index > 0 ==> p.parent is Some) && p.prompt
            == s.chunks[s.index]),
        chunked_chunk(s, chunk).action is Serve && s.phase == ChunkedPhase::Reading ==> s.index + 1
            == s.chunks.len(),
{
}

/// The conversation has a session.
pub open spec fn chunked_has_session(s: ChunkedV) -> bool {
    s.phase != ChunkedPhase::Account && s.phase != ChunkedPhase::Session && s.phase
        != ChunkedPhase::Over
}

/// No session outlives its request: in every phase after the session was made,
/// a conversation that fails deletes it, and one that succeeds hands it on; and
/// without a session there is none to delete.
pub proof fn law_chunked_session_is_cleaned_up(
    s: ChunkedV,
    account: Option<(Seq<char>, Seq<char>)>,
    session: Result<Seq<char>, Seq<char>>,
    proof_error: Option<CoreErrorV>,
    refusal: Option<Seq<char>>,
    chunk: Option<Result<Seq<u8>, Seq<char>>>,
)
    ensures
        chunked_account(s, account).action matches ActionV::Fail { delete, .. } ==> !delete,
        chunked_session(s, session).action matches ActionV::Fail { delete, .. } ==> !delete
            && session is Err,
        session matches Ok(id) ==> chunked_has_session(chunked_session(s, session).state)
            && chunked_session(s, session).state.session == id,
        chunked_has_session(s) ==> attempt::keeps_hold(
            chunked_proof(s, proof_error).action,
            s.session,
        ) && chunked_proof(s, proof_error).state.session == s.session,
        chunked_has_session(s) ==> attempt::keeps_hold(
            chunked_completion(s, refusal).action,
            s.session,
        ) && chunked_completion(s, refusal).state.session == s.session,
        chunked_has_session(s) ==> attempt::keeps_hold(chunked_until_closed(s).action, s.session)
            && chunked_until_closed(s).state.session == s.session,
        chunked_has_session(s) ==> attempt::keeps_hold(chunked_chunk(s, chunk).action, s.session)
            && chunked_chunk(s, chunk).state.session == s.session,
{
}

/// The next piece goes out as it is, to the session and model of the request,
/// after the answer to the piece before. Only the last piece makes the model
/// think or search, and then as the request asks.
pub proof fn law_piece_goes_out_after_the_last_answer(s: ChunkedV)
    ensures
        ({
            let step = chunked_proof(s, None);
            &&& step.state == ChunkedV { phase: ChunkedPhase::Completion, ..s }
            &&& step.action matches ActionV::Send(p) && {
                &&& p.prompt == s.chunks[s.index]
                &&& p.parent == s.parent
                &&& p.session == s.session && p.model_type == s.model_type
                &&& p.file_ids.len() == 0
                &&& s.index + 1 == s.chunks.len() ==> p.thinking == s.thinking && p.search
                    == s.search
                &&& s.index + 1 < s.chunks.len() ==> !p.thinking && !p.search
            }
        }),
{
}

/// A registered piece has its answer stopped, and that answer is the parent of
/// the next piece; until it is registered more is read, and nothing that was read
/// is lost.
pub proof fn law_answer_becomes_the_parent(s: ChunkedV, c: Seq<u8>)
    ensures
        ({
            let step = chunked_registering(s, Some(Ok(c)));
            &&& step.state.buf == s.buf + c
            &&& step.state.index == s.index && step.state.chunks == s.chunks
            &&& match completions::registration(text::lossy(s.buf + c), s.ready) {
                ReadyV::Ready(id) => step.action == (ActionV::Stop {
                    session: s.session,
                    message: id,
                }) && step.state.parent == Some(id) && step.state.phase == ChunkedPhase::Stopping,
                ReadyV::More(id) => step.action is Read && step.state.ready == id
                    && step.state.parent == s.parent && step.state.phase == s.phase,
                ReadyV::Failed(e) => step.action == (ActionV::Fail {
                    mark: false,
                    delete: true,
                    error: e,
                }),
            }
        }),
{
}

/// The next piece comes up exactly when the answer to the one before is closed,
/// and it is the very next one.
pub proof fn law_pieces_follow_one_another(s: ChunkedV, c: Seq<u8>)
    ensures
        ({
            let step = chunked_closing(s, Some(Ok(c)));
            let done = completions::closed(text::lossy(s.buf + c));
            &&& step.state.chunks == s.chunks && step.state.parent == s.parent
            &&& done ==> step.state.index == s.index + 1 && step.action is SolvePow
                && step.state.phase == ChunkedPhase::Proof
            &&& !done ==> step.state.index == s.index && step.action is Read && step.state.phase
                == ChunkedPhase::Closing && step.state.buf == s.buf + c
        }),
        ({
            let step = chunked_until_closed(s);
            let done = completions::closed(text::lossy(s.buf));
            &&& step.state.parent == s.parent && step.state.chunks == s.chunks
            &&& done ==> step.state.index == s.index + 1 && step.action is SolvePow
            &&& !done ==> step.state.index == s.index && step.action is Read
        }),
{
}

/// A piece that was accepted is read from its beginning: as the last answer, or
/// until it is registered.
pub proof fn law_accepted_piece_is_read(s: ChunkedV)
    ensures
        ({
            let step = chunked_completion(s, None);
            &&& step.action is Read
            &&& step.state.buf.len() == 0 && step.state.ready is None
            &&& step.state.index == s.index && step.state.parent == s.parent
            &&& s.index + 1 == s.chunks.len() ==> step.state.phase == ChunkedPhase::Reading
            &&& s.index + 1 != s.chunks.len() ==> step.state.phase == ChunkedPhase::Registering
        }),
{
}

/// The account is to blame where the back end refused it a session, a proof or a
/// message; an answer that breaks off is nobody's fault, and its message says
/// what went wrong.
pub proof fn law_chunked_blame_follows_the_refusal(
    s: ChunkedV,
    m: Seq<char>,
    e: CoreErrorV,
    account: (Seq<char>, Seq<char>),
)
    ensures
        chunked_account(s, None).action == (ActionV::Fail {
            mark: false,
            delete: false,
            error: CoreErrorV::Overloaded,
        }),
        chunked_account(s, Some(account)).action is CreateSession,
        chunked_account(s, Some(account)).state.account == account.0,
        chunked_account(s, Some(account)).state.token == account.1,
        chunked_session(s, Err(m)).action == (ActionV::Fail {
            mark: true,
            delete: false,
            error: CoreErrorV::ProviderError(m),
        }),
        chunked_session(s, Ok(m)).action is SolvePow,
        chunked_proof(s, Some(e)).action == (ActionV::Fail { mark: true, delete: true, error: e }),
        chunked_completion(s, Some(m)).action == (ActionV::Fail {
            mark: true,
            delete: true,
            error: CoreErrorV::ProviderError(m),
        }),
        chunked_registering(s, Some(Err(m))).action == (ActionV::Fail {
            mark: false,
            delete: true,
            error: CoreErrorV::Stream(m),
        }),
        chunked_closing(s, Some(Err(m))).action == (ActionV::Fail {
            mark: false,
            delete: true,
            error: CoreErrorV::Stream(m),
        }),
        chunked_closing(s, None).action matches ActionV::Fail { error, .. } && error is Stream,
        chunked_registering(s, None).action is Fail,
{
}

/// The answer to the last piece is opened like that to a single message, and all
/// that is read of it is kept.
pub proof fn law_last_answer_is_opened(s: ChunkedV, c: Seq<u8>)
    requires
        s.phase == ChunkedPhase::Reading,
    ensures
        ({
            let who = WhoV { account: s.account, token: s.token, session: s.session };
            let step = chunked_chunk(s, Some(Ok(c)));
            &&& step.action == attempt::opening_action(
                who,
                s.opening_buf,
                s.opening_text,
                Some(Ok(c)),
                true,
            )
            &&& step.state.opening_buf == s.opening_buf + c
            &&& step.action matches ActionV::Serve { buffered, .. } ==> buffered == s.opening_buf
                + c
        }),
{
}

/// A stream that ends too early is told with the request and with the number of
/// the piece, out of those before the last.
pub proof fn law_early_end_names_the_piece(s: ChunkedV)
    requires
        0 <= s.index,
        s.index + 1 < s.chunks.len(),
    ensures
        chunked_closing(s, None).action matches ActionV::Fail {
            error: CoreErrorV::Stream(t),
            mark,
            ..
        } && !mark && text::occurs(t, s.request_id) && text::occurs(
            t,
            text::decimal((s.index + 1) as nat) + "/"@ + text::decimal(
                (s.chunks.len() - 1) as nat,
            ),
        ) && text::occurs(t, " stream kết thúc trước close"@),
        !text::stands_at(text::trimmed(text::lossy(s.buf)), "{"@, 0) ==> (registration_end(s)
            matches CoreErrorV::Stream(t) && text::occurs(t, chunk_place(s))),
{
    let a = text::decimal((s.index + 1) as nat);
    let b = text::decimal((s.chunks.len() - 1) as nat);
    let end = " stream kết thúc trước close"@;
    let none = Seq::<char>::empty();
    let t = chunk_place(s) + end;
    assert(t =~= "req="@ + s.request_id + (" chunk "@ + a + "/"@ + b + end));
    text::lemma_occurs_between("req="@, s.request_id, " chunk "@ + a + "/"@ + b + end);
    assert(t =~= ("req="@ + s.request_id + " chunk "@) + (a + "/"@ + b) + end);
    text::lemma_occurs_between("req="@ + s.request_id + " chunk "@, a + "/"@ + b, end);
    assert(t =~= chunk_place(s) + end + none);
    text::lemma_occurs_between(chunk_place(s), end, none);
    let other = " nhận stream rỗng"@;
    assert(chunk_place(s) + other =~= none + chunk_place(s) + other);
    text::lemma_occurs_between(none, chunk_place(s), other);
}

} // verus!
