//! The steps of one attempt at a conversation with the back end.
//!
//! An attempt says what to do next; whoever does it comes back with what
//! happened. Nothing here waits or sends.
//!
//! No session outlives its request: where an attempt fails, its session is
//! deleted; where it succeeds, the end of the answer deletes it.

use vstd::prelude::*;

use crate::ds_core::completions;
use crate::ds_core::completions::{ChatRequest, FilePayload, SESSION_HISTORY_FILE};
use crate::ds_core::{CoreError, CoreErrorV};
use crate::text;

verus! {

/// How long the first attempt waits for an account, in milliseconds.
pub const ACCOUNT_WAIT_MS: u64 = 30_000;

/// A message to the back end.
#[derive(Debug)]
pub struct CompletionPayload {
    pub chat_session_id: String,
    pub parent_message_id: Option<i64>,
    pub model_type: String,
    pub prompt: String,
    pub ref_file_ids: Vec<String>,
    pub thinking_enabled: bool,
    pub search_enabled: bool,
    pub preempt: bool,
}

/// A message whose answer is to end.
#[derive(Debug)]
pub struct StopStreamPayload {
    pub chat_session_id: String,
    pub message_id: i64,
}

/// An answer that can be handed on.
#[derive(Debug)]
pub struct Served {
    pub account_id: String,
    pub token: String,
    pub session_id: String,
    pub message_id: i64,
    /// What has been read of the answer already.
    pub buffered: Vec<u8>,
}

/// What to do next.
#[derive(Debug)]
pub enum ChatAction {
    /// Get an account, waiting so many milliseconds or not at all.
    AcquireAccount(Option<u64>),
    CreateSession,
    Upload { filename: String, content_type: String, content: Vec<u8> },
    /// Work out the proof for a completion.
    SolvePow,
    SendCompletion(CompletionPayload),
    ReadChunk,
    /// End the answer to a message, without waiting for it to end.
    StopMessage(StopStreamPayload),
    /// Give up: mark the account or not, delete the session or not.
    Fail { mark_error: bool, delete_session: bool, error: CoreError },
    Serve(Served),
}

/// The model of a `CompletionPayload`.
#[verifier::ext_equal]
pub struct PayloadV {
    pub session: Seq<char>,
    pub parent: Option<int>,
    pub model_type: Seq<char>,
    pub prompt: Seq<char>,
    pub file_ids: Seq<Seq<char>>,
    pub thinking: bool,
    pub search: bool,
    pub preempt: bool,
}

/// The model of a `ChatAction`.
#[verifier::ext_equal]
pub enum ActionV {
    Acquire(Option<u64>),
    CreateSession,
    Upload { filename: Seq<char>, content_type: Seq<char>, content: Seq<u8> },
    SolvePow,
    Send(PayloadV),
    Read,
    Stop { session: Seq<char>, message: int },
    Fail { mark: bool, delete: bool, error: CoreErrorV },
    Serve {
        account: Seq<char>,
        token: Seq<char>,
        session: Seq<char>,
        message: int,
        buffered: Seq<u8>,
    },
}

impl View for CompletionPayload {
    type V = PayloadV;

    open spec fn view(&self) -> PayloadV {
        PayloadV {
            session: self.chat_session_id@,
            parent: completions::opt_int(self.parent_message_id),
            model_type: self.model_type@,
            prompt: self.prompt@,
            file_ids: text::strs(self.ref_file_ids@),
            thinking: self.thinking_enabled,
            search: self.search_enabled,
            preempt: self.preempt,
        }
    }
}

impl View for ChatAction {
    type V = ActionV;

    open spec fn view(&self) -> ActionV {
        match *self {
            ChatAction::AcquireAccount(ms) => ActionV::Acquire(ms),
            ChatAction::CreateSession => ActionV::CreateSession,
            ChatAction::Upload { filename, content_type, content } => ActionV::Upload {
                filename: filename@,
                content_type: content_type@,
                content: content@,
            },
            ChatAction::SolvePow => ActionV::SolvePow,
            ChatAction::SendCompletion(p) => ActionV::Send(p@),
            ChatAction::ReadChunk => ActionV::Read,
            ChatAction::StopMessage(p) => ActionV::Stop {
                session: p.chat_session_id@,
                message: p.message_id as int,
            },
            ChatAction::Fail { mark_error, delete_session, error } => ActionV::Fail {
                mark: mark_error,
                delete: delete_session,
                error: error@,
            },
            ChatAction::Serve(s) => ActionV::Serve {
                account: s.account_id@,
                token: s.token@,
                session: s.session_id@,
                message: s.message_id as int,
                buffered: s.buffered@,
            },
        }
    }
}

/// The beginning of an answer: its bytes, and its text chunk by chunk.
#[derive(Debug)]
pub struct Opening {
    pub buf: Vec<u8>,
    pub text: String,
}

impl Opening {
    fn new() -> (r: Opening)
        ensures
            r.buf@.len() == 0 && r.text@.len() == 0,
    {
        Opening { buf: Vec::new(), text: String::new() }
    }

    fn append(&mut self, chunk: &Vec<u8>)
        ensures
            final(self).buf@ == old(self).buf@ + chunk@,
            final(self).text@ == old(self).text@ + text::lossy(chunk@),
    {
        append_bytes(&mut self.buf, chunk);
        let t = text::from_utf8_lossy(chunk.as_slice());
        self.text.append(t.as_str());
    }
}

/// Appends bytes.
pub fn append_bytes(buf: &mut Vec<u8>, more: &Vec<u8>)
    ensures
        final(buf)@ == old(buf)@ + more@,
{
    let ghost before = buf@;
    let mut i: usize = 0;
    assert(before + more@.take(0) =~= before);
    while i < more.len()
        invariant
            i <= more@.len(),
            buf@ == before + more@.take(i as int),
        decreases more@.len() - i,
    {
        buf.push(more[i]);
        i += 1;
        assert(buf@ =~= before + more@.take(i as int));
    }
    assert(more@.take(more@.len() as int) =~= more@);
}

fn copy_bytes(bytes: &Vec<u8>) -> (r: Vec<u8>)
    ensures
        r@ == bytes@,
{
    let mut r: Vec<u8> = Vec::new();
    append_bytes(&mut r, bytes);
    assert(r@ =~= bytes@);
    r
}

/// What an account and its session are known by.
#[verifier::ext_equal]
pub struct WhoV {
    pub account: Seq<char>,
    pub token: Seq<char>,
    pub session: Seq<char>,
}

/// What to do once the first two events of an answer are there, given what has
/// been read: a hint fails the attempt, else the answer is handed on.
pub open spec fn opened(
    who: WhoV,
    first: Seq<char>,
    second: Seq<char>,
    buffered: Seq<u8>,
) -> ActionV {
    match completions::hint_error(second) {
        Some(e) => ActionV::Fail { mark: e is Overloaded, delete: true, error: e },
        None => ActionV::Serve {
            account: who.account,
            token: who.token,
            session: who.session,
            message: completions::ready_ids_from(text::lines_of(first), 0).1,
            buffered,
        },
    }
}

/// What to do with a further piece of an answer that is being opened.
pub open spec fn opening_action(
    who: WhoV,
    buf: Seq<u8>,
    t: Seq<char>,
    chunk: Option<Result<Seq<u8>, Seq<char>>>,
    plain_json: bool,
) -> ActionV {
    match chunk {
        None => {
            let end = completions::ended_early(buf, plain_json);
            ActionV::Fail { mark: end.mark, delete: true, error: end.error }
        },
        Some(Err(m)) => ActionV::Fail { mark: false, delete: true, error: CoreErrorV::Stream(m) },
        Some(Ok(c)) => match completions::two_events(t + text::lossy(c)) {
            Some(p) => opened(who, p.0, p.1, buf + c),
            None => ActionV::Read,
        },
    }
}

/// What a stream of bytes brought, as a model.
pub open spec fn chunk_view(chunk: Option<Result<Vec<u8>, String>>) -> Option<
    Result<Seq<u8>, Seq<char>>,
> {
    match chunk {
        None => None,
        Some(Ok(c)) => Some(Ok(c@)),
        Some(Err(m)) => Some(Err(m@)),
    }
}

/// The first `n` chunks one after the other.
pub open spec fn all_bytes(chunks: Seq<Seq<u8>>, n: int) -> Seq<u8>
    decreases n,
{
    if n <= 0 {
        Seq::empty()
    } else {
        all_bytes(chunks, n - 1) + chunks[n - 1]
    }
}

fn open_answer(
    account_id: &String,
    token: &String,
    session_id: &String,
    first: &str,
    second: &str,
    buffered: &Vec<u8>,
) -> (r: ChatAction)
    ensures
        r@ == opened(
            WhoV { account: account_id@, token: token@, session: session_id@ },
            first@,
            second@,
            buffered@,
        ),
{
    if let Some(error) = completions::check_hint(second) {
        let mark_error = match &error {
            CoreError::Overloaded => true,
            _ => false,
        };
        return ChatAction::Fail { mark_error, delete_session: true, error };
    }
    let ids = completions::parse_ready_message_ids(first);
    ChatAction::Serve(
        Served {
            account_id: account_id.clone(),
            token: token.clone(),
            session_id: session_id.clone(),
            message_id: ids.1,
            buffered: copy_bytes(buffered),
        },
    )
}

/// Takes in a further piece of an answer that is being opened.
pub fn read_opening(
    account_id: &String,
    token: &String,
    session_id: &String,
    opening: &mut Opening,
    chunk: Option<Result<Vec<u8>, String>>,
    plain_json: bool,
) -> (r: ChatAction)
    ensures
        r@ == opening_action(
            WhoV { account: account_id@, token: token@, session: session_id@ },
            old(opening).buf@,
            old(opening).text@,
            chunk_view(chunk),
            plain_json,
        ),
        chunk matches Some(Ok(c)) ==> final(opening).buf@ == old(opening).buf@ + c@
            && final(opening).text@ == old(opening).text@ + text::lossy(c@),
        !(chunk matches Some(Ok(c))) ==> *final(opening) == *old(opening),
{
    match chunk {
        None => {
            let (mark_error, error) = completions::explain_end(&opening.buf, plain_json);
            ChatAction::Fail { mark_error, delete_session: true, error }
        },
        Some(Err(m)) => ChatAction::Fail {
            mark_error: false,
            delete_session: true,
            error: CoreError::Stream(m),
        },
        Some(Ok(c)) => {
            opening.append(&c);
            match completions::split_two_events(opening.text.as_str()) {
                Some(p) => open_answer(
                    account_id,
                    token,
                    session_id,
                    p.0.as_str(),
                    p.1.as_str(),
                    &opening.buf,
                ),
                None => ChatAction::ReadChunk,
            }
        },
    }
}

/// Where a direct attempt stands.
#[derive(Debug, Clone, Copy, PartialEq, Eq, Structural)]
pub enum OncePhase {
    Account,
    Session,
    History,
    File,
    Proof,
    Completion,
    Reading,
    Over,
}

/// One attempt to have a request answered by one message.
#[derive(Debug)]
pub struct ChatOnce {
    pub phase: OncePhase,
    pub first_try: bool,
    /// The whole prompt, which is sent where the history could not be uploaded.
    pub prompt: String,
    pub inline_prompt: String,
    pub history: String,
    pub files: Vec<FilePayload>,
    pub model_type: String,
    pub thinking_enabled: bool,
    pub search_enabled: bool,
    pub account_id: String,
    pub token: String,
    pub session_id: String,
    pub ref_file_ids: Vec<String>,
    pub history_failed: bool,
    pub next_file: usize,
    pub opening: Opening,
}

/// The model of a `ChatOnce`.
#[verifier::ext_equal]
pub struct OnceV {
    pub phase: OncePhase,
    pub first_try: bool,
    pub prompt: Seq<char>,
    pub inline_prompt: Seq<char>,
    pub history: Seq<char>,
    pub files: Seq<FilePayload>,
    pub model_type: Seq<char>,
    pub thinking: bool,
    pub search: bool,
    pub account: Seq<char>,
    pub token: Seq<char>,
    pub session: Seq<char>,
    pub file_ids: Seq<Seq<char>>,
    pub history_failed: bool,
    pub next_file: int,
    pub buf: Seq<u8>,
    pub text: Seq<char>,
}

impl View for ChatOnce {
    type V = OnceV;

    open spec fn view(&self) -> OnceV {
        OnceV {
            phase: self.phase,
            first_try: self.first_try,
            prompt: self.prompt@,
            inline_prompt: self.inline_prompt@,
            history: self.history@,
            files: self.files@,
            model_type: self.model_type@,
            thinking: self.thinking_enabled,
            search: self.search_enabled,
            account: self.account_id@,
            token: self.token@,
            session: self.session_id@,
            file_ids: text::strs(self.ref_file_ids@),
            history_failed: self.history_failed,
            next_file: self.next_file as int,
            buf: self.opening.buf@,
            text: self.opening.text@,
        }
    }
}

/// A state of a direct attempt and what to do in it.
#[verifier::ext_equal]
pub struct OnceStep {
    pub state: OnceV,
    pub action: ActionV,
}

/// The attempt is over.
pub open spec fn once_over(s: OnceV, action: ActionV) -> OnceStep {
    OnceStep { state: OnceV { phase: OncePhase::Over, ..s }, action }
}

/// The next file of the request is uploaded; after the last comes the proof.
pub open spec fn once_files(s: OnceV) -> OnceStep {
    if s.next_file < s.files.len() {
        OnceStep {
            state: OnceV { phase: OncePhase::File, ..s },
            action: ActionV::Upload {
                filename: s.files[s.next_file].filename@,
                content_type: s.files[s.next_file].content_type@,
                content: s.files[s.next_file].content@,
            },
        }
    } else {
        OnceStep { state: OnceV { phase: OncePhase::Proof, ..s }, action: ActionV::SolvePow }
    }
}

/// With an account a session is made; without one the attempt fails.
pub open spec fn once_account(s: OnceV, account: Option<(Seq<char>, Seq<char>)>) -> OnceStep {
    match account {
        Some(a) => OnceStep {
            state: OnceV { phase: OncePhase::Session, account: a.0, token: a.1, ..s },
            action: ActionV::CreateSession,
        },
        None => once_over(
            s,
            ActionV::Fail { mark: false, delete: false, error: CoreErrorV::Overloaded },
        ),
    }
}

/// With a session the history is uploaded, where there is one; without one the
/// account is at fault.
pub open spec fn once_session(s: OnceV, session: Result<Seq<char>, Seq<char>>) -> OnceStep {
    match session {
        Ok(id) => {
            let next = OnceV { session: id, ..s };
            if s.history.len() > 0 {
                OnceStep {
                    state: OnceV { phase: OncePhase::History, ..next },
                    action: ActionV::Upload {
                        filename: SESSION_HISTORY_FILE@,
                        content_type: "text/plain"@,
                        content: vstd::utf8::encode_utf8(s.history),
                    },
                }
            } else {
                once_files(next)
            }
        },
        Err(m) => once_over(
            s,
            ActionV::Fail { mark: true, delete: false, error: CoreErrorV::ProviderError(m) },
        ),
    }
}

/// An uploaded file is referred to. Without its history the whole prompt will
/// be sent; without another file the attempt fails, and the session goes.
pub open spec fn once_upload(s: OnceV, file_id: Result<Seq<char>, CoreErrorV>) -> OnceStep {
    match (s.phase, file_id) {
        (OncePhase::History, Ok(id)) => once_files(OnceV { file_ids: s.file_ids.push(id), ..s }),
        (OncePhase::History, Err(_)) => once_files(OnceV { history_failed: true, ..s }),
        (_, Ok(id)) => once_files(
            OnceV { file_ids: s.file_ids.push(id), next_file: s.next_file + 1, ..s },
        ),
        (_, Err(e)) => once_over(
            s,
            ActionV::Fail {
                mark: false,
                delete: true,
                error: CoreErrorV::ProviderError(
                    "Tải tệp ngoài thất bại ("@ + s.files[s.next_file].filename@ + "): "@
                        + crate::ds_core::core_error_text(e),
                ),
            },
        ),
    }
}

/// With the proof the message is sent; without it the account is at fault, and
/// the session goes.
pub open spec fn once_proof(s: OnceV, proof_error: Option<CoreErrorV>) -> OnceStep {
    match proof_error {
        None => OnceStep {
            state: OnceV { phase: OncePhase::Completion, ..s },
            action: ActionV::Send(
                PayloadV {
                    session: s.session,
                    parent: None,
                    model_type: s.model_type,
                    prompt: if s.history_failed {
                        s.prompt
                    } else {
                        s.inline_prompt
                    },
                    file_ids: s.file_ids,
                    thinking: s.thinking,
                    search: s.search,
                    preempt: false,
                },
            ),
        },
        Some(e) => once_over(s, ActionV::Fail { mark: true, delete: true, error: e }),
    }
}

/// A message that was accepted has its answer read; one that was not is the
/// account's fault, and the session goes.
pub open spec fn once_completion(s: OnceV, refusal: Option<Seq<char>>) -> OnceStep {
    match refusal {
        None => OnceStep {
            state: OnceV { phase: OncePhase::Reading, ..s },
            action: ActionV::Read,
        },
        Some(m) => once_over(
            s,
            ActionV::Fail { mark: true, delete: true, error: CoreErrorV::ProviderError(m) },
        ),
    }
}

/// A further piece of the answer is read until its first two events are there.
pub open spec fn once_chunk(s: OnceV, chunk: Option<Result<Seq<u8>, Seq<char>>>) -> OnceStep {
    let who = WhoV { account: s.account, token: s.token, session: s.session };
    let action = opening_action(who, s.buf, s.text, chunk, false);
    let state = match chunk {
        Some(Ok(c)) => OnceV { buf: s.buf + c, text: s.text + text::lossy(c), ..s },
        _ => s,
    };
    if action is Read {
        OnceStep { state, action }
    } else {
        once_over(state, action)
    }
}

/// A text result, as a model.
pub open spec fn text_result(r: Result<String, String>) -> Result<Seq<char>, Seq<char>> {
    match r {
        Ok(t) => Ok(t@),
        Err(m) => Err(m@),
    }
}

/// An upload's result, as a model.
pub open spec fn upload_result(r: Result<String, CoreError>) -> Result<Seq<char>, CoreErrorV> {
    match r {
        Ok(t) => Ok(t@),
        Err(e) => Err(e@),
    }
}

/// A pair of an account's id and token, as a model.
pub open spec fn account_view(a: Option<(String, String)>) -> Option<(Seq<char>, Seq<char>)> {
    match a {
        Some(p) => Some((p.0@, p.1@)),
        None => None,
    }
}

fn copy_ids(ids: &Vec<String>) -> (r: Vec<String>)
    ensures
        text::strs(r@) == text::strs(ids@),
{
    let mut r: Vec<String> = Vec::new();
    let mut i: usize = 0;
    while i < ids.len()
        invariant
            i <= ids@.len(),
            r@.len() == i,
            text::strs(r@) =~= text::strs(ids@).take(i as int),
        decreases ids@.len() - i,
    {
        text::add_line(&mut r, ids[i].as_str());
        i += 1;
    }
    assert(text::strs(r@) =~= text::strs(ids@));
    r
}

impl ChatOnce {
    /// An attempt at `req`, of whose prompt `inline_prompt` is sent and
    /// `history` uploaded.
    pub fn new(req: ChatRequest, inline_prompt: String, history: String, first_try: bool) -> (r:
        ChatOnce)
        ensures
            r@ == (OnceV {
                phase: OncePhase::Account,
                first_try,
                prompt: req.prompt@,
                inline_prompt: inline_prompt@,
                history: history@,
                files: req.files@,
                model_type: req.model_type@,
                thinking: req.thinking_enabled,
                search: req.search_enabled,
                account: Seq::empty(),
                token: Seq::empty(),
                session: Seq::empty(),
                file_ids: Seq::empty(),
                history_failed: false,
                next_file: 0,
                buf: Seq::empty(),
                text: Seq::empty(),
            }),
    {
        let r = ChatOnce {
            phase: OncePhase::Account,
            first_try,
            prompt: req.prompt,
            inline_prompt,
            history,
            files: req.files,
            model_type: req.model_type,
            thinking_enabled: req.thinking_enabled,
            search_enabled: req.search_enabled,
            account_id: String::new(),
            token: String::new(),
            session_id: String::new(),
            ref_file_ids: Vec::new(),
            history_failed: false,
            next_file: 0,
            opening: Opening::new(),
        };
        assert(text::strs(r.ref_file_ids@) =~= Seq::empty());
        assert(r@.buf =~= Seq::empty());
        r
    }

    /// The first thing to do: get an account. Only the first attempt waits.
    pub fn begin(&self) -> (r: ChatAction)
        ensures
            r@ == ActionV::Acquire(if self.first_try {
                Some(ACCOUNT_WAIT_MS)
            } else {
                None
            }),
    {
        ChatAction::AcquireAccount(if self.first_try {
            Some(ACCOUNT_WAIT_MS)
        } else {
            None
        })
    }

    /// What to do with the account, given by its id and token, if there is one.
    pub fn on_account(&mut self, account: Option<(String, String)>) -> (r: ChatAction)
        requires
            old(self)@.phase == OncePhase::Account,
        ensures
            (OnceStep { state: final(self)@, action: r@ }) == once_account(
                old(self)@,
                account_view(account),
            ),
    {
        match account {
            Some((id, token)) => {
                self.account_id = id;
                self.token = token;
                self.phase = OncePhase::Session;
                ChatAction::CreateSession
            },
            None => {
                self.phase = OncePhase::Over;
                ChatAction::Fail {
                    mark_error: false,
                    delete_session: false,
                    error: CoreError::Overloaded,
                }
            },
        }
    }

    fn upload_next(&mut self) -> (r: ChatAction)
        ensures
            (OnceStep { state: final(self)@, action: r@ }) == once_files(old(self)@),
    {
        if self.next_file < self.files.len() {
            self.phase = OncePhase::File;
            let f = &self.files[self.next_file];
            ChatAction::Upload {
                filename: f.filename.clone(),
                content_type: f.content_type.clone(),
                content: copy_bytes(&f.content),
            }
        } else {
            self.phase = OncePhase::Proof;
            ChatAction::SolvePow
        }
    }

    /// What to do with the session, or with the message of a failure.
    pub fn on_session(&mut self, session: Result<String, String>) -> (r: ChatAction)
        requires
            old(self)@.phase == OncePhase::Session,
        ensures
            (OnceStep { state: final(self)@, action: r@ }) == once_session(
                old(self)@,
                text_result(session),
            ),
    {
        match session {
            Ok(id) => {
                self.session_id = id;
                if !self.history.as_str().is_empty() {
                    self.phase = OncePhase::History;
                    let content = text::bytes_of(self.history.as_str());
                    ChatAction::Upload {
                        filename: SESSION_HISTORY_FILE.to_owned(),
                        content_type: "text/plain".to_owned(),
                        content,
                    }
                } else {
                    self.upload_next()
                }
            },
            Err(m) => {
                self.phase = OncePhase::Over;
                ChatAction::Fail {
                    mark_error: true,
                    delete_session: false,
                    error: CoreError::ProviderError(m),
                }
            },
        }
    }

    /// What to do with the id of the file that was uploaded, or with the error.
    pub fn on_upload(&mut self, file_id: Result<String, CoreError>) -> (r: ChatAction)
        requires
            old(self)@.phase == OncePhase::History || (old(self)@.phase == OncePhase::File
                && old(self)@.next_file < old(self)@.files.len()),
        ensures
            (OnceStep { state: final(self)@, action: r@ }) == once_upload(
                old(self)@,
                upload_result(file_id),
            ),
    {
        match file_id {
            Ok(id) => {
                text::add_line(&mut self.ref_file_ids, id.as_str());
                if self.phase == OncePhase::File {
                    assert(self.files.len() == self.files@.len());
                    self.next_file = self.next_file + 1;
                }
                self.upload_next()
            },
            Err(e) => {
                if self.phase == OncePhase::History {
                    self.history_failed = true;
                    self.upload_next()
                } else {
                    self.phase = OncePhase::Over;
                    let message = text::cat4(
                        "Tải tệp ngoài thất bại (",
                        self.files[self.next_file].filename.as_str(),
                        "): ",
                        e.message().as_str(),
                    );
                    ChatAction::Fail {
                        mark_error: false,
                        delete_session: true,
                        error: CoreError::ProviderError(message),
                    }
                }
            },
        }
    }

    /// What to do after the proof of work, or with its error.
    pub fn on_proof(&mut self, proof_error: Option<CoreError>) -> (r: ChatAction)
        requires
            old(self)@.phase == OncePhase::Proof,
        ensures
            (OnceStep { state: final(self)@, action: r@ }) == once_proof(
                old(self)@,
                completions::opt_error(proof_error),
            ),
    {
        match proof_error {
            None => {
                self.phase = OncePhase::Completion;
                let prompt = if self.history_failed {
                    self.prompt.clone()
                } else {
                    self.inline_prompt.clone()
                };
                ChatAction::SendCompletion(
                    CompletionPayload {
                        chat_session_id: self.session_id.clone(),
                        parent_message_id: None,
                        model_type: self.model_type.clone(),
                        prompt,
                        ref_file_ids: copy_ids(&self.ref_file_ids),
                        thinking_enabled: self.thinking_enabled,
                        search_enabled: self.search_enabled,
                        preempt: false,
                    },
                )
            },
            Some(error) => {
                self.phase = OncePhase::Over;
                ChatAction::Fail { mark_error: true, delete_session: true, error }
            },
        }
    }

    /// What to do after the message was sent, or with the refusal of it.
    pub fn on_completion(&mut self, refusal: Option<String>) -> (r: ChatAction)
        requires
            old(self)@.phase == OncePhase::Completion,
        ensures
            (OnceStep { state: final(self)@, action: r@ }) == once_completion(
                old(self)@,
                refusal.deep_view(),
            ),
    {
        match refusal {
            None => {
                self.phase = OncePhase::Reading;
                ChatAction::ReadChunk
            },
            Some(m) => {
                self.phase = OncePhase::Over;
                ChatAction::Fail {
                    mark_error: true,
                    delete_session: true,
                    error: CoreError::ProviderError(m),
                }
            },
        }
    }

    /// What to do with a further piece of the answer.
    pub fn on_chunk(&mut self, chunk: Option<Result<Vec<u8>, String>>) -> (r: ChatAction)
        requires
            old(self)@.phase == OncePhase::Reading,
        ensures
            (OnceStep { state: final(self)@, action: r@ }) == once_chunk(
                old(self)@,
                chunk_view(chunk),
            ),
    {
        let r = read_opening(
            &self.account_id,
            &self.token,
            &self.session_id,
            &mut self.opening,
            chunk,
            false,
        );
        match &r {
            ChatAction::ReadChunk => {},
            _ => {
                self.phase = OncePhase::Over;
            },
        }
        r
    }
}

/// What holds of an attempt in every phase: each file uploaded so far has its
/// id, the history's first.
pub open spec fn once_in_order(s: OnceV) -> bool {
    &&& 0 <= s.next_file <= s.files.len()
    &&& s.phase == OncePhase::File ==> s.next_file < s.files.len()
    &&& match s.phase {
        OncePhase::Account | OncePhase::Session | OncePhase::History => s.file_ids.len() == 0
            && s.next_file == 0 && !s.history_failed,
        _ => s.phase != OncePhase::Over ==> s.file_ids.len() == s.next_file + (if s.history.len()
            > 0 && !s.history_failed {
            1int
        } else {
            0
        }),
    }
    &&& s.phase == OncePhase::History ==> s.history.len() > 0
    &&& s.history_failed ==> s.history.len() > 0
    &&& (s.phase == OncePhase::Proof || s.phase == OncePhase::Completion || s.phase
        == OncePhase::Reading) ==> s.next_file == s.files.len()
}

/// Every step keeps an attempt in order; so a message goes out only after all
/// files of the request were uploaded, and refers to each of them.
pub proof fn law_attempt_stays_in_order(
    s: OnceV,
    account: Option<(Seq<char>, Seq<char>)>,
    session: Result<Seq<char>, Seq<char>>,
    file_id: Result<Seq<char>, CoreErrorV>,
    proof_error: Option<CoreErrorV>,
    refusal: Option<Seq<char>>,
    chunk: Option<Result<Seq<u8>, Seq<char>>>,
)
    requires
        once_in_order(s),
    ensures
        s.phase == OncePhase::Account ==> once_in_order(once_account(s, account).state),
        s.phase == OncePhase::Session ==> once_in_order(once_session(s, session).state),
        s.phase == OncePhase::History || s.phase == OncePhase::File ==> once_in_order(
            once_upload(s, file_id).state,
        ),
        s.phase == OncePhase::Proof ==> once_in_order(once_proof(s, proof_error).state),
        s.phase == OncePhase::Completion ==> once_in_order(once_completion(s, refusal).state),
        s.phase == OncePhase::Reading ==> once_in_order(once_chunk(s, chunk).state),
        s.phase == OncePhase::Proof && proof_error is None ==> (once_proof(
            s,
            proof_error,
        ).action matches ActionV::Send(p) && p.file_ids.len() == s.files.len() + (if s.history.len()
            > 0 && !s.history_failed {
            1int
        } else {
            0
        })),
{
}

/// An answer that is handed on lacks nothing: what was read of it before is
/// all that came, in order.
pub proof fn law_served_answer_keeps_all_bytes(s: OnceV, chunks: Seq<Seq<u8>>, n: int)
    requires
        0 < n <= chunks.len(),
        s.phase == OncePhase::Reading,
        s.buf == all_bytes(chunks, n - 1),
    ensures
        once_chunk(s, Some(Ok(chunks[n - 1]))).state.buf == all_bytes(chunks, n),
        once_chunk(s, Some(Ok(chunks[n - 1]))).action matches ActionV::Serve {
            buffered,
            account,
            token,
            session,
            message,
        } ==> buffered == all_bytes(chunks, n),
{
}

/// The attempt has a session.
pub open spec fn once_has_session(s: OnceV) -> bool {
    s.phase != OncePhase::Account && s.phase != OncePhase::Session && s.phase != OncePhase::Over
}

/// A step that keeps hold of a session: it goes on with it, deletes it where the
/// attempt fails, or hands it on with the answer, whose end deletes it.
pub open spec fn keeps_hold(action: ActionV, session: Seq<char>) -> bool {
    match action {
        ActionV::Fail { delete, .. } => delete,
        ActionV::Serve { session: served, .. } => served == session,
        ActionV::Send(p) => p.session == session,
        ActionV::Stop { session: stopped, .. } => stopped == session,
        _ => true,
    }
}

/// No session outlives its request: in every phase after the session was made,
/// an attempt that fails deletes it, and one that succeeds hands it on.
pub proof fn law_session_is_cleaned_up(
    s: OnceV,
    file_id: Result<Seq<char>, CoreErrorV>,
    proof_error: Option<CoreErrorV>,
    refusal: Option<Seq<char>>,
    chunk: Option<Result<Seq<u8>, Seq<char>>>,
)
    requires
        once_has_session(s),
    ensures
        keeps_hold(once_upload(s, file_id).action, s.session),
        keeps_hold(once_proof(s, proof_error).action, s.session),
        keeps_hold(once_completion(s, refusal).action, s.session),
        keeps_hold(once_chunk(s, chunk).action, s.session),
        once_upload(s, file_id).state.session == s.session,
        once_proof(s, proof_error).state.session == s.session,
        once_completion(s, refusal).state.session == s.session,
        once_chunk(s, chunk).state.session == s.session,
{
}

/// An attempt without a session has none to delete: it fails without a session,
/// or comes to have the one that was made.
pub proof fn law_session_is_taken_in(
    s: OnceV,
    account: Option<(Seq<char>, Seq<char>)>,
    session: Result<Seq<char>, Seq<char>>,
)
    ensures
        once_account(s, account).action matches ActionV::Fail { delete, .. } ==> !delete,
        once_session(s, session).action matches ActionV::Fail { delete, .. } ==> !delete
            && session is Err,
        session matches Ok(id) ==> once_has_session(once_session(s, session).state)
            && once_session(s, session).state.session == id,
{
}

/// What an attempt sends is what the request asks for: to its session and model,
/// with its settings and all uploaded files, and with the part of the prompt that
/// is not in the uploaded history, or all of it where there is none.
pub proof fn law_message_carries_the_request(s: OnceV)
    ensures
        ({
            let step = once_proof(s, None);
            &&& step.state == OnceV { phase: OncePhase::Completion, ..s }
            &&& step.action matches ActionV::Send(p) && {
                &&& p.session == s.session && p.model_type == s.model_type
                &&& p.thinking == s.thinking && p.search == s.search
                &&& p.file_ids == s.file_ids
                &&& p.parent is None && !p.preempt
                &&& s.history_failed ==> p.prompt == s.prompt
                &&& !s.history_failed ==> p.prompt == s.inline_prompt
            }
        }),
{
}

/// The history goes up as a text file before anything else; without one the files
/// of the request follow at once.
pub proof fn law_history_goes_up_first(s: OnceV, id: Seq<char>)
    ensures
        ({
            let step = once_session(s, Ok(id));
            &&& step.state.session == id
            &&& s.history.len() > 0 ==> step.state.phase == OncePhase::History && step.action
                == (ActionV::Upload {
                filename: "EMPTY.txt"@,
                content_type: "text/plain"@,
                content: vstd::utf8::encode_utf8(s.history),
            })
            &&& s.history.len() == 0 && s.next_file == s.files.len() ==> step.state.phase
                == OncePhase::Proof && step.action is SolvePow
            &&& s.history.len() == 0 && 0 <= s.next_file < s.files.len() ==> step.state.phase
                == OncePhase::File && step.action == (ActionV::Upload {
                filename: s.files[s.next_file].filename@,
                content_type: s.files[s.next_file].content_type@,
                content: s.files[s.next_file].content@,
            })
        }),
{
}

/// Each file goes up whole, in the order of the request; its id is noted last,
/// and after the last file comes the proof. A file that cannot be uploaded fails
/// the attempt by its name, without blame for the account; a history that cannot
/// be is done without.
pub proof fn law_files_go_up_in_order(s: OnceV, id: Seq<char>, e: CoreErrorV)
    requires
        0 <= s.next_file < s.files.len(),
        s.phase == OncePhase::File,
    ensures
        ({
            let step = once_upload(s, Ok(id));
            let next = s.next_file + 1;
            &&& step.state.file_ids == s.file_ids.push(id)
            &&& step.state.next_file == next
            &&& next < s.files.len() ==> step.action == (ActionV::Upload {
                filename: s.files[next].filename@,
                content_type: s.files[next].content_type@,
                content: s.files[next].content@,
            })
            &&& next == s.files.len() ==> step.action is SolvePow && step.state.phase
                == OncePhase::Proof
        }),
        once_upload(s, Err(e)).action matches ActionV::Fail { mark, delete, error } && !mark
            && delete && (error matches CoreErrorV::ProviderError(t) && text::occurs(
            t,
            s.files[s.next_file].filename@,
        )),
        once_upload(OnceV { phase: OncePhase::History, ..s }, Ok(id)).state.file_ids
            == s.file_ids.push(id),
        once_upload(OnceV { phase: OncePhase::History, ..s }, Ok(id)).state.next_file
            == s.next_file,
        once_upload(OnceV { phase: OncePhase::History, ..s }, Err(e)).state.history_failed,
        once_upload(OnceV { phase: OncePhase::History, ..s }, Err(e)).state.file_ids == s.file_ids,
        !(once_upload(OnceV { phase: OncePhase::History, ..s }, Err(e)).action is Fail),
{
    let name = s.files[s.next_file].filename@;
    let end = "): "@ + crate::ds_core::core_error_text(e);
    let t = "Tải tệp ngoài thất bại ("@ + name + "): "@ + crate::ds_core::core_error_text(e);
    assert(t =~= "Tải tệp ngoài thất bại ("@ + name + end);
    text::lemma_occurs_between("Tải tệp ngoài thất bại ("@, name, end);
}

/// The account is to blame where the back end refused it something: a session, a
/// proof, a message; the error is the one that came. Without an account nobody
/// is.
pub proof fn law_blame_follows_the_refusal(
    s: OnceV,
    m: Seq<char>,
    e: CoreErrorV,
    account: (Seq<char>, Seq<char>),
)
    ensures
        once_account(s, None).action == (ActionV::Fail {
            mark: false,
            delete: false,
            error: CoreErrorV::Overloaded,
        }),
        once_account(s, Some(account)).action is CreateSession,
        once_account(s, Some(account)).state.account == account.0,
        once_account(s, Some(account)).state.token == account.1,
        once_session(s, Err(m)).action == (ActionV::Fail {
            mark: true,
            delete: false,
            error: CoreErrorV::ProviderError(m),
        }),
        once_proof(s, Some(e)).action == (ActionV::Fail { mark: true, delete: true, error: e }),
        once_completion(s, Some(m)).action == (ActionV::Fail {
            mark: true,
            delete: true,
            error: CoreErrorV::ProviderError(m),
        }),
        once_completion(s, None).action is Read,
        once_completion(s, None).state == (OnceV { phase: OncePhase::Reading, ..s }),
{
}

/// An answer is handed on as soon as its first two events are there, unless the
/// second is a hint: with the account, token and session of the attempt, the id
/// that the first event gives, and all that was read. Before that more is read.
pub proof fn law_answer_is_handed_on(
    who: WhoV,
    buf: Seq<u8>,
    t: Seq<char>,
    c: Seq<u8>,
    plain_json: bool,
)
    ensures
        ({
            let action = opening_action(who, buf, t, Some(Ok(c)), plain_json);
            match completions::two_events(t + text::lossy(c)) {
                None => action is Read,
                Some(p) => match completions::hint_error(p.1) {
                    Some(e) => action == (ActionV::Fail {
                        mark: e is Overloaded,
                        delete: true,
                        error: e,
                    }),
                    None => action == (ActionV::Serve {
                        account: who.account,
                        token: who.token,
                        session: who.session,
                        message: completions::ready_ids_from(text::lines_of(p.0), 0).1,
                        buffered: buf + c,
                    }),
                },
            }
        }),
{
}

/// An answer that breaks off fails the attempt: with the message of the failure,
/// or with what its end means.
pub proof fn law_broken_answer_fails(
    who: WhoV,
    buf: Seq<u8>,
    t: Seq<char>,
    m: Seq<char>,
    plain_json: bool,
)
    ensures
        opening_action(who, buf, t, Some(Err(m)), plain_json) == (ActionV::Fail {
            mark: false,
            delete: true,
            error: CoreErrorV::Stream(m),
        }),
        opening_action(who, buf, t, None, plain_json) == (ActionV::Fail {
            mark: completions::ended_early(buf, plain_json).mark,
            delete: true,
            error: completions::ended_early(buf, plain_json).error,
        }),
{
}

/// While an answer is being opened nothing that is read of it is lost, and who
/// asked stays the same.
pub proof fn law_opening_keeps_what_was_read(s: OnceV, c: Seq<u8>, d: Seq<u8>)
    ensures
        ({
            let one = once_chunk(s, Some(Ok(c)));
            let two = once_chunk(one.state, Some(Ok(d)));
            &&& one.state.buf == s.buf + c && one.state.text == s.text + text::lossy(c)
            &&& one.action is Read ==> two.state.buf == s.buf + c + d && two.state.text == s.text
                + text::lossy(c) + text::lossy(d)
            &&& one.state.account == s.account && one.state.token == s.token && one.state.session
                == s.session
            &&& one.action is Read ==> one.state.phase == s.phase
        }),
{
}

} // verus!
