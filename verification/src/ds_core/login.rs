//! The steps of a login: the account is given, logged in, and tried out on a
//! short conversation.

use vstd::prelude::*;

use crate::config;
use crate::ds_core::accounts::{PoolError, PoolErrorV};
use crate::ds_core::attempt;
use crate::ds_core::attempt::{CompletionPayload, PayloadV};
use crate::text;

verus! {

/// What an account logs in with.
#[derive(Debug)]
pub struct LoginPayload {
    pub email: Option<String>,
    pub mobile: Option<String>,
    pub password: String,
    pub area_code: Option<String>,
    pub device_id: String,
    pub os: String,
}

/// The model of a `LoginPayload`.
#[verifier::ext_equal]
pub struct LoginV {
    pub email: Option<Seq<char>>,
    pub mobile: Option<Seq<char>>,
    pub password: Seq<char>,
    pub area_code: Option<Seq<char>>,
    pub device_id: Seq<char>,
    pub os: Seq<char>,
}

impl View for LoginPayload {
    type V = LoginV;

    open spec fn view(&self) -> LoginV {
        LoginV {
            email: self.email.deep_view(),
            mobile: self.mobile.deep_view(),
            password: self.password@,
            area_code: self.area_code.deep_view(),
            device_id: self.device_id@,
            os: self.os@,
        }
    }
}

/// A text, if there is anything in it.
pub open spec fn given(s: Seq<char>) -> Option<Seq<char>> {
    if s.len() == 0 {
        None
    } else {
        Some(s)
    }
}

fn some_text(s: &String) -> (r: Option<String>)
    ensures
        r.deep_view() == given(s@),
{
    if s.as_str().is_empty() {
        None
    } else {
        Some(s.clone())
    }
}

/// What an account logs in with; it must have an email or a mobile number.
pub open spec fn login_of(creds: config::AccountV) -> Result<LoginV, PoolErrorV> {
    if creds.email.len() == 0 && creds.mobile.len() == 0 {
        Err(PoolErrorV::Validation("email và mobile không được đồng thời để trống"@))
    } else {
        Ok(
            LoginV {
                email: given(creds.email),
                mobile: given(creds.mobile),
                password: creds.password,
                area_code: given(creds.area_code),
                device_id: Seq::empty(),
                os: "web"@,
            },
        )
    }
}

/// What an account logs in with.
pub fn login_payload(creds: &config::Account) -> (r: Result<LoginPayload, PoolError>)
    ensures
        match r {
            Ok(p) => login_of(creds.deep_view()) == Ok::<LoginV, PoolErrorV>(p@),
            Err(e) => login_of(creds.deep_view()) == Err::<LoginV, PoolErrorV>(e@),
        },
{
    if creds.email.as_str().is_empty() && creds.mobile.as_str().is_empty() {
        return Err(
            PoolError::Validation("email và mobile không được đồng thời để trống".to_owned()),
        );
    }
    let device_id = String::new();
    assert(device_id@ =~= Seq::empty());
    Ok(
        LoginPayload {
            email: some_text(&creds.email),
            mobile: some_text(&creds.mobile),
            password: creds.password.clone(),
            area_code: some_text(&creds.area_code),
            device_id,
            os: "web".to_owned(),
        },
    )
}

/// The message on which an account is tried out.
pub open spec fn trial(session: Seq<char>) -> PayloadV {
    PayloadV {
        session,
        parent: None,
        model_type: "default"@,
        prompt: "Chỉ trả lời `Hello, world!`"@,
        file_ids: Seq::empty(),
        thinking: false,
        search: false,
        preempt: false,
    }
}

/// The message on which an account is tried out.
pub fn trial_payload(session_id: &String) -> (r: CompletionPayload)
    ensures
        r@ == trial(session_id@),
{
    let ref_file_ids: Vec<String> = Vec::new();
    assert(text::strs(ref_file_ids@) =~= Seq::empty());
    CompletionPayload {
        chat_session_id: session_id.clone(),
        parent_message_id: None,
        model_type: "default".to_owned(),
        prompt: "Chỉ trả lời `Hello, world!`".to_owned(),
        ref_file_ids,
        thinking_enabled: false,
        search_enabled: false,
        preempt: false,
    }
}

/// What is wrong with an account whose trial was answered so.
pub open spec fn trial_error(answer: Seq<char>) -> Option<PoolErrorV> {
    if text::occurs(answer, "\"biz_code\":"@) {
        Some(PoolErrorV::Validation("Tài khoản bất thường (muted/limited)"@))
    } else if !text::occurs(answer, "\"FINISHED\""@) && !text::occurs(answer, "\"INCOMPLETE\""@) {
        Some(PoolErrorV::Validation("Stream SSE không kết thúc bình thường"@))
    } else {
        None
    }
}

/// What is wrong with an account whose trial was answered so: it is muted or
/// limited, or the answer did not come to its end.
pub fn check_trial(answer: &str) -> (r: Option<PoolError>)
    ensures
        match r {
            Some(e) => trial_error(answer@) == Some(e@),
            None => trial_error(answer@) is None,
        },
{
    if text::contains(answer, "\"biz_code\":") {
        return Some(PoolError::Validation("Tài khoản bất thường (muted/limited)".to_owned()));
    }
    if !text::contains(answer, "\"FINISHED\"") && !text::contains(answer, "\"INCOMPLETE\"") {
        return Some(PoolError::Validation("Stream SSE không kết thúc bình thường".to_owned()));
    }
    None
}

/// Where a login stands.
#[derive(Debug, Clone, Copy, PartialEq, Eq, Structural)]
pub enum LoginPhase {
    Login,
    Session,
    Proof,
    Completion,
    Reading,
    Over,
}

/// What to do next.
#[derive(Debug)]
pub enum LoginAction {
    Login(LoginPayload),
    CreateSession,
    /// Work out the proof for a completion.
    SolvePow,
    SendCompletion(CompletionPayload),
    ReadChunk,
    /// The account is good: delete the session and keep the token.
    Good { token: String },
    /// The account is not good: delete the session or not.
    Bad { delete_session: bool, error: PoolError },
}

/// The model of a `LoginAction`.
#[verifier::ext_equal]
pub enum LoginActionV {
    Login(LoginV),
    CreateSession,
    SolvePow,
    Send(PayloadV),
    Read,
    Good { token: Seq<char> },
    Bad { delete: bool, error: PoolErrorV },
}

impl View for LoginAction {
    type V = LoginActionV;

    open spec fn view(&self) -> LoginActionV {
        match *self {
            LoginAction::Login(p) => LoginActionV::Login(p@),
            LoginAction::CreateSession => LoginActionV::CreateSession,
            LoginAction::SolvePow => LoginActionV::SolvePow,
            LoginAction::SendCompletion(p) => LoginActionV::Send(p@),
            LoginAction::ReadChunk => LoginActionV::Read,
            LoginAction::Good { token } => LoginActionV::Good { token: token@ },
            LoginAction::Bad { delete_session, error } => LoginActionV::Bad {
                delete: delete_session,
                error: error@,
            },
        }
    }
}

/// A login under way.
#[derive(Debug)]
pub struct AccountLogin {
    pub phase: LoginPhase,
    pub token: String,
    pub session_id: String,
    pub data: Vec<u8>,
}

/// The model of an `AccountLogin`.
#[verifier::ext_equal]
pub struct LoggingV {
    pub phase: LoginPhase,
    pub token: Seq<char>,
    pub session: Seq<char>,
    pub data: Seq<u8>,
}

impl View for AccountLogin {
    type V = LoggingV;

    open spec fn view(&self) -> LoggingV {
        LoggingV {
            phase: self.phase,
            token: self.token@,
            session: self.session_id@,
            data: self.data@,
        }
    }
}

/// A state and what to do in it.
#[verifier::ext_equal]
pub struct LoginStep {
    pub state: LoggingV,
    pub action: LoginActionV,
}

/// The login is over, and the account is not good.
pub open spec fn login_failed(s: LoggingV, delete: bool, error: PoolErrorV) -> LoginStep {
    LoginStep {
        state: LoggingV { phase: LoginPhase::Over, ..s },
        action: LoginActionV::Bad { delete, error },
    }
}

/// With a token a session is made.
pub open spec fn login_token(s: LoggingV, token: Result<Seq<char>, Seq<char>>) -> LoginStep {
    match token {
        Ok(t) => LoginStep {
            state: LoggingV { phase: LoginPhase::Session, token: t, ..s },
            action: LoginActionV::CreateSession,
        },
        Err(m) => login_failed(s, false, PoolErrorV::Client(m)),
    }
}

/// With a session the trial gets its proof.
pub open spec fn login_session(s: LoggingV, session: Result<Seq<char>, Seq<char>>) -> LoginStep {
    match session {
        Ok(id) => LoginStep {
            state: LoggingV { phase: LoginPhase::Proof, session: id, ..s },
            action: LoginActionV::SolvePow,
        },
        Err(m) => login_failed(s, false, PoolErrorV::Client(m)),
    }
}

/// With the proof the trial is sent.
pub open spec fn login_proof(s: LoggingV, error: Option<PoolErrorV>) -> LoginStep {
    match error {
        None => LoginStep {
            state: LoggingV { phase: LoginPhase::Completion, ..s },
            action: LoginActionV::Send(trial(s.session)),
        },
        Some(e) => login_failed(s, true, e),
    }
}

/// The answer to the trial is read.
pub open spec fn login_completion(s: LoggingV, refusal: Option<Seq<char>>) -> LoginStep {
    match refusal {
        None => LoginStep {
            state: LoggingV { phase: LoginPhase::Reading, ..s },
            action: LoginActionV::Read,
        },
        Some(m) => login_failed(s, true, PoolErrorV::Client(m)),
    }
}

/// At the end of the answer it is looked at.
pub open spec fn login_chunk(
    s: LoggingV,
    chunk: Option<Result<Seq<u8>, Seq<char>>>,
) -> LoginStep {
    match chunk {
        Some(Ok(c)) => LoginStep {
            state: LoggingV { data: s.data + c, ..s },
            action: LoginActionV::Read,
        },
        Some(Err(m)) => login_failed(s, true, PoolErrorV::Client(m)),
        None => match trial_error(text::lossy(s.data)) {
            Some(e) => login_failed(s, true, e),
            None => LoginStep {
                state: LoggingV { phase: LoginPhase::Over, ..s },
                action: LoginActionV::Good { token: s.token },
            },
        },
    }
}

/// An error as a model.
pub open spec fn pool_error_view(e: Option<PoolError>) -> Option<PoolErrorV> {
    match e {
        Some(e) => Some(e@),
        None => None,
    }
}

impl AccountLogin {
    /// A login that has not begun.
    pub fn new() -> (r: AccountLogin)
        ensures
            r@ == (LoggingV {
                phase: LoginPhase::Login,
                token: Seq::empty(),
                session: Seq::empty(),
                data: Seq::empty(),
            }),
    {
        let r = AccountLogin {
            phase: LoginPhase::Login,
            token: String::new(),
            session_id: String::new(),
            data: Vec::new(),
        };
        assert(r@.token =~= Seq::empty() && r@.session =~= Seq::empty());
        r
    }

    fn failed(&mut self, delete_session: bool, error: PoolError) -> (r: LoginAction)
        ensures
            (LoginStep { state: final(self)@, action: r@ }) == login_failed(
                old(self)@,
                delete_session,
                error@,
            ),
    {
        self.phase = LoginPhase::Over;
        LoginAction::Bad { delete_session, error }
    }

    /// The first thing to do: log in, where the account has a name.
    pub fn begin(&mut self, creds: &config::Account) -> (r: LoginAction)
        ensures
            (LoginStep { state: final(self)@, action: r@ }) == (match login_of(
                creds.deep_view(),
            ) {
                Ok(p) => LoginStep { state: old(self)@, action: LoginActionV::Login(p) },
                Err(e) => login_failed(old(self)@, false, e),
            }),
    {
        match login_payload(creds) {
            Ok(p) => LoginAction::Login(p),
            Err(e) => self.failed(false, e),
        }
    }

    /// What to do with the token, or with the message of a failure.
    pub fn on_login(&mut self, token: Result<String, String>) -> (r: LoginAction)
        requires
            old(self)@.phase == LoginPhase::Login,
        ensures
            (LoginStep { state: final(self)@, action: r@ }) == login_token(
                old(self)@,
                attempt::text_result(token),
            ),
    {
        match token {
            Ok(t) => {
                self.token = t;
                self.phase = LoginPhase::Session;
                LoginAction::CreateSession
            },
            Err(m) => self.failed(false, PoolError::Client(m)),
        }
    }

    /// What to do with the session, or with the message of a failure.
    pub fn on_session(&mut self, session: Result<String, String>) -> (r: LoginAction)
        requires
            old(self)@.phase == LoginPhase::Session,
        ensures
            (LoginStep { state: final(self)@, action: r@ }) == login_session(
                old(self)@,
                attempt::text_result(session),
            ),
    {
        match session {
            Ok(id) => {
                self.session_id = id;
                self.phase = LoginPhase::Proof;
                LoginAction::SolvePow
            },
            Err(m) => self.failed(false, PoolError::Client(m)),
        }
    }

    /// What to do after the proof of work, or with its error.
    pub fn on_proof(&mut self, error: Option<PoolError>) -> (r: LoginAction)
        requires
            old(self)@.phase == LoginPhase::Proof,
        ensures
            (LoginStep { state: final(self)@, action: r@ }) == login_proof(
                old(self)@,
                pool_error_view(error),
            ),
    {
        match error {
            None => {
                self.phase = LoginPhase::Completion;
                LoginAction::SendCompletion(trial_payload(&self.session_id))
            },
            Some(e) => self.failed(true, e),
        }
    }

    /// What to do after the trial was sent, or with the refusal of it.
    pub fn on_completion(&mut self, refusal: Option<String>) -> (r: LoginAction)
        requires
            old(self)@.phase == LoginPhase::Completion,
        ensures
            (LoginStep { state: final(self)@, action: r@ }) == login_completion(
                old(self)@,
                refusal.deep_view(),
            ),
    {
        match refusal {
            None => {
                self.phase = LoginPhase::Reading;
                LoginAction::ReadChunk
            },
            Some(m) => self.failed(true, PoolError::Client(m)),
        }
    }

    /// What to do with a further piece of the answer, or at its end.
    pub fn on_chunk(&mut self, chunk: Option<Result<Vec<u8>, String>>) -> (r: LoginAction)
        requires
            old(self)@.phase == LoginPhase::Reading,
        ensures
            (LoginStep { state: final(self)@, action: r@ }) == login_chunk(
                old(self)@,
                attempt::chunk_view(chunk),
            ),
    {
        match chunk {
            Some(Ok(c)) => {
                attempt::append_bytes(&mut self.data, &c);
                LoginAction::ReadChunk
            },
            Some(Err(m)) => self.failed(true, PoolError::Client(m)),
            None => {
                let answer = text::from_utf8_lossy(self.data.as_slice());
                match check_trial(answer.as_str()) {
                    Some(e) => self.failed(true, e),
                    None => {
                        self.phase = LoginPhase::Over;
                        LoginAction::Good { token: self.token.clone() }
                    },
                }
            },
        }
    }
}

/// Once a session was made, a login ends only with the deletion of it.
pub proof fn law_login_leaves_no_session(
    s: LoggingV,
    error: Option<PoolErrorV>,
    refusal: Option<Seq<char>>,
    chunk: Option<Result<Seq<u8>, Seq<char>>>,
)
    ensures
        login_proof(s, error).action matches LoginActionV::Bad { delete, .. } ==> delete,
        login_completion(s, refusal).action matches LoginActionV::Bad { delete, .. } ==> delete,
        login_chunk(s, chunk).action matches LoginActionV::Bad { delete, .. } ==> delete,
{
}

/// An account logs in with its email or mobile number and its password; without
/// either name it cannot.
pub proof fn law_login_takes_the_credentials(creds: config::AccountV)
    ensures
        login_of(creds) is Err <==> creds.email.len() == 0 && creds.mobile.len() == 0,
        login_of(creds) matches Ok(p) ==> {
            &&& p.password == creds.password
            &&& creds.email.len() > 0 ==> p.email == Some(creds.email)
            &&& creds.email.len() == 0 ==> p.email is None
            &&& creds.mobile.len() > 0 ==> p.mobile == Some(creds.mobile)
            &&& creds.mobile.len() == 0 ==> p.mobile is None
            &&& creds.area_code.len() > 0 ==> p.area_code == Some(creds.area_code)
            &&& creds.area_code.len() == 0 ==> p.area_code is None
        },
{
}

/// An account is good exactly where its trial came to an end and the back end had
/// nothing against it.
pub proof fn law_good_accounts_finish_the_trial(answer: Seq<char>)
    ensures
        trial_error(answer) is None <==> !text::occurs(answer, "\"biz_code\":"@) && (text::occurs(
            answer,
            "\"FINISHED\""@,
        ) || text::occurs(answer, "\"INCOMPLETE\""@)),
{
}

/// A login goes from the token over the session and the proof to the trial, keeps
/// each that it gets, and ends with the token exactly where the trial went well.
pub proof fn law_login_ends_with_its_token(
    s: LoggingV,
    token: Seq<char>,
    session: Seq<char>,
    c: Seq<u8>,
    m: Seq<char>,
)
    ensures
        login_token(s, Ok(token)).state.token == token,
        login_token(s, Ok(token)).action is CreateSession,
        login_session(s, Ok(session)).state.session == session,
        login_session(s, Ok(session)).action is SolvePow,
        login_session(s, Ok(session)).state.token == s.token,
        login_proof(s, None).action matches LoginActionV::Send(p) && p.session == s.session
            && p.prompt.len() > 0 && !p.thinking && !p.search && p.parent is None && !p.preempt
            && p.file_ids.len() == 0 && p.model_type == "default"@,
        login_proof(s, None).state.token == s.token && login_completion(s, None).state.token
            == s.token,
        login_completion(s, None).action is Read,
        login_chunk(s, Some(Ok(c))).state.data == s.data + c && login_chunk(
            s,
            Some(Ok(c)),
        ).action is Read && login_chunk(s, Some(Ok(c))).state.token == s.token,
        trial_error(text::lossy(s.data)) is None ==> login_chunk(s, None).action
            == (LoginActionV::Good { token: s.token }),
        trial_error(text::lossy(s.data)) matches Some(e) ==> login_chunk(s, None).action
            == (LoginActionV::Bad { delete: true, error: e }),
        login_token(s, Err(m)).action == (LoginActionV::Bad {
            delete: false,
            error: PoolErrorV::Client(m),
        }),
        login_session(s, Err(m)).action == (LoginActionV::Bad {
            delete: false,
            error: PoolErrorV::Client(m),
        }),
        login_completion(s, Some(m)).action == (LoginActionV::Bad {
            delete: true,
            error: PoolErrorV::Client(m),
        }),
{
    reveal_strlit("Chỉ trả lời `Hello, world!`");
}

} // verus!
