//! The back end: accounts, sessions and the conversation with it.

use vstd::prelude::*;

use crate::ds_core::accounts::{
    AccountGuard, AccountPool, AccountStatus, HeldV, PoolError, PoolErrorV, PoolV,
};
use crate::ds_core::attempt::Served;
use crate::ds_core::completions::Route;
use crate::ds_core::sessions::{ActiveSession, Farewell, GuardedStream, SessionV, Sessions};
use crate::table;
use crate::text;

pub mod accounts;
pub mod attempt;
pub mod chunked;
pub mod completions;
pub mod login;
pub mod sessions;

verus! {

/// Why the back end gave no answer.
#[derive(Debug)]
pub enum CoreError {
    /// No account is free.
    Overloaded,
    /// The proof of work failed.
    ProofOfWorkFailed(String),
    /// The back end refused or could not be reached.
    ProviderError(String),
    /// The answer broke off.
    Stream(String),
}

/// The model of a `CoreError`.
#[verifier::ext_equal]
pub enum CoreErrorV {
    Overloaded,
    ProofOfWorkFailed(Seq<char>),
    ProviderError(Seq<char>),
    Stream(Seq<char>),
}

impl View for CoreError {
    type V = CoreErrorV;

    open spec fn view(&self) -> CoreErrorV {
        match *self {
            CoreError::Overloaded => CoreErrorV::Overloaded,
            CoreError::ProofOfWorkFailed(m) => CoreErrorV::ProofOfWorkFailed(m@),
            CoreError::ProviderError(m) => CoreErrorV::ProviderError(m@),
            CoreError::Stream(m) => CoreErrorV::Stream(m@),
        }
    }
}

/// The message of an error.
pub open spec fn core_error_text(e: CoreErrorV) -> Seq<char> {
    match e {
        CoreErrorV::Overloaded => "no available account"@,
        CoreErrorV::ProofOfWorkFailed(m) => "proof of work failed: "@ + m,
        CoreErrorV::ProviderError(m) => "provider: "@ + m,
        CoreErrorV::Stream(m) => "stream error: "@ + m,
    }
}

impl CoreError {
    /// The message of the error.
    pub fn message(&self) -> (r: String)
        ensures
            r@ == core_error_text(self@),
    {
        match self {
            CoreError::Overloaded => "no available account".to_owned(),
            CoreError::ProofOfWorkFailed(m) => text::cat2("proof of work failed: ", m.as_str()),
            CoreError::ProviderError(m) => text::cat2("provider: ", m.as_str()),
            CoreError::Stream(m) => text::cat2("stream error: ", m.as_str()),
        }
    }

    /// The error of a failed call to the back end.
    pub fn from_client(message: String) -> (r: CoreError)
        ensures
            r@ == CoreErrorV::ProviderError(message@),
    {
        CoreError::ProviderError(message)
    }
}

/// What the failure of the accounts is to the back end.
pub open spec fn startup_error(e: PoolErrorV) -> CoreErrorV {
    match e {
        PoolErrorV::Client(m) => CoreErrorV::ProviderError(m),
        PoolErrorV::Pow(m) => CoreErrorV::ProofOfWorkFailed(m),
        PoolErrorV::Validation(m) => CoreErrorV::ProviderError("Lỗi cấu hình: "@ + m),
        _ => CoreErrorV::ProviderError(accounts::pool_error_text(e)),
    }
}

impl CoreError {
    /// What the failure of the accounts is to the back end.
    pub fn from_pool(e: PoolError) -> (r: CoreError)
        ensures
            r@ == startup_error(e@),
    {
        match e {
            PoolError::Client(m) => CoreError::ProviderError(m),
            PoolError::Pow(m) => CoreError::ProofOfWorkFailed(m),
            PoolError::Validation(m) => CoreError::ProviderError(
                text::cat2("Lỗi cấu hình: ", m.as_str()),
            ),
            _ => CoreError::ProviderError(e.message()),
        }
    }
}

/// The back end: its accounts, the sessions that are open on it, and what its
/// models take.
pub struct DeepSeekCore {
    pub pool: AccountPool,
    pub sessions: Sessions,
    pub model_types: Vec<String>,
    pub input_character_limits: Vec<u32>,
}

impl DeepSeekCore {
    /// Accounts and sessions are in order.
    pub open spec fn wf(&self) -> bool {
        self.pool.wf() && self.sessions.wf()
    }

    /// A back end over some accounts.
    pub fn new(
        pool: AccountPool,
        model_types: Vec<String>,
        input_character_limits: Vec<u32>,
    ) -> (r: DeepSeekCore)
        requires
            pool.wf(),
        ensures
            r.wf(),
            r.pool == pool,
            r.sessions@ == Map::<Seq<char>, SessionV>::empty(),
            r.model_types == model_types,
            r.input_character_limits == input_character_limits,
    {
        DeepSeekCore { pool, sessions: Sessions::new(), model_types, input_character_limits }
    }

    /// How a prompt reaches the back end, and in pieces of how many characters
    /// where it goes out in pieces.
    pub fn route(&self, prompt: &str, model_type: &str) -> (r: (Route, usize))
        ensures
            ({
                let limit = completions::character_limit(
                    text::strs(self.model_types@),
                    self.input_character_limits@,
                    model_type@,
                );
                &&& r.1 == completions::three_quarters(limit as int)
                &&& r.0 == completions::route_for(prompt@.len() as int, limit, model_type@)
            }),
    {
        let limit: usize = completions::input_character_limit_for(
            &self.model_types,
            &self.input_character_limits,
            model_type,
        );
        (completions::choose_route(prompt, limit, model_type), completions::chunk_threshold(limit))
    }

    /// What can be seen of all accounts, in no order to rely on.
    pub fn account_statuses(&self) -> (r: Vec<AccountStatus>)
        requires
            self.wf(),
        ensures
            accounts::all_statuses(self.pool@, accounts::status_views(r@)),
    {
        self.pool.account_statuses()
    }

    /// Removes an account that no request uses.
    pub fn remove_account(&mut self, email_or_mobile: &str) -> (r: Result<String, PoolError>)
        requires
            old(self).wf(),
        ensures
            final(self).wf(),
            final(self).sessions == old(self).sessions,
            match accounts::removal_error(old(self).pool@, email_or_mobile@) {
                Some(e) => r matches Err(err) && err@ == e && final(self).pool@ == old(self).pool@,
                None => r matches Ok(id) && id@ == email_or_mobile@ && final(self).pool@ == (PoolV {
                    accounts: old(self).pool@.accounts.remove(email_or_mobile@),
                    ..old(self).pool@
                }),
            },
    {
        self.pool.remove_account(email_or_mobile)
    }

    /// Puts an account in error, unless it is invalid or unknown.
    pub fn mark_error(&mut self, email_or_mobile: &str)
        requires
            old(self).wf(),
        ensures
            final(self).wf(),
            final(self).sessions == old(self).sessions,
            final(self).pool@ == (if old(self).pool@.accounts.dom().contains(email_or_mobile@) {
                accounts::with_account(
                    old(self).pool@,
                    email_or_mobile@,
                    accounts::in_error(old(self).pool@.accounts[email_or_mobile@]),
                )
            } else {
                old(self).pool@
            }),
    {
        self.pool.mark_error(email_or_mobile);
    }

    /// Notes the session of an answer that is to be handed on, and ties the
    /// answer to its account.
    pub fn serve<S>(&mut self, served: Served, guard: AccountGuard, stream: S) -> (r:
        GuardedStream<S>)
        requires
            old(self).wf(),
        ensures
            final(self).wf(),
            final(self).pool == old(self).pool,
            final(self).sessions@ == old(self).sessions@.insert(
                served.session_id@,
                SessionV {
                    token: served.token@,
                    session: served.session_id@,
                    message: served.message_id as int,
                },
            ),
            r.stream == stream && r.guard == guard && !r.finished,
            r.token@ == served.token@ && r.session_id@ == served.session_id@,
            r.message_id == served.message_id,
    {
        self.sessions.insert(
            ActiveSession {
                token: served.token.clone(),
                session_id: served.session_id.clone(),
                message_id: served.message_id,
            },
        );
        GuardedStream::new(stream, guard, served.token, served.session_id, served.message_id)
    }

    /// Hands back, at the time `now_ms`, the account of an attempt that failed,
    /// in error where the account is to blame.
    pub fn give_up(&mut self, guard: AccountGuard, mark_error: bool, now_ms: i64)
        requires
            old(self).wf(),
        ensures
            final(self).wf(),
            final(self).sessions == old(self).sessions,
            final(self).pool@ == given_up(
                old(self).pool@,
                guard.account_id@,
                mark_error,
                now_ms as int,
            ),
    {
        let ghost p = self.pool@;
        let ghost id = guard.account_id@;
        if mark_error {
            self.pool.mark_error(guard.account_id.as_str());
        }
        self.pool.release_at(guard, now_ms);
        proof {
            if p.accounts.dom().contains(id) {
                assert(self.pool@.accounts =~= given_up(p, id, mark_error, now_ms as int).accounts);
            }
        }
    }

    /// Forgets, at the time `now_ms`, the session of an answer that is no longer
    /// handed on, and hands back its account; what is left to tell the back end
    /// is returned.
    pub fn close<S>(&mut self, stream: GuardedStream<S>, now_ms: i64) -> (r: Farewell)
        requires
            old(self).wf(),
        ensures
            final(self).wf(),
            final(self).sessions@ == old(self).sessions@.remove(stream.session_id@),
            final(self).pool@ == given_up(
                old(self).pool@,
                stream.guard.account_id@,
                false,
                now_ms as int,
            ),
            sessions::ends(stream, r),
    {
        let (guard, farewell) = stream.farewell();
        self.sessions.remove(farewell.session_id.as_str());
        self.give_up(guard, false, now_ms);
        farewell
    }

    /// Hands all open sessions out, to be stopped and deleted.
    pub fn shutdown(&mut self) -> (r: Vec<ActiveSession>)
        requires
            old(self).wf(),
        ensures
            final(self).wf(),
            final(self).pool == old(self).pool,
            final(self).sessions@ == Map::<Seq<char>, SessionV>::empty(),
            exists|ids: Seq<Seq<char>>| #[trigger]
                table::lists_all(ids, old(self).sessions@.dom()) && sessions::session_views(r@)
                    == Seq::new(ids.len(), |i: int| old(self).sessions@[ids[i]]),
    {
        self.sessions.take_all()
    }
}

/// The accounts after one that a request used was handed back, in error where
/// it is to blame.
pub open spec fn given_up(p: PoolV, id: Seq<char>, mark_error: bool, now: int) -> PoolV {
    if p.accounts.dom().contains(id) {
        let a = if mark_error {
            accounts::in_error(p.accounts[id])
        } else {
            p.accounts[id]
        };
        accounts::with_account(p, id, accounts::released(a, now))
    } else {
        p
    }
}

/// A request that was answered and is over leaves everything as it was, but for
/// the time at which its account was last let go: no account stays in use and no
/// session open.
pub proof fn law_request_gives_all_back(
    p: PoolV,
    open: Map<Seq<char>, SessionV>,
    id: Seq<char>,
    session: SessionV,
    now: int,
)
    requires
        accounts::pool_ok(p),
        accounts::best_choice(p, id),
        !open.dom().contains(session.session),
    ensures
        ({
            let used = accounts::with_account(p, id, accounts::claimed(p.accounts[id]));
            let back = given_up(used, id, false, now);
            back == accounts::with_account(
                p,
                id,
                HeldV { last_released: back.accounts[id].last_released, ..p.accounts[id] },
            )
        }),
        open.insert(session.session, session).remove(session.session) == open,
{
    let used = accounts::with_account(p, id, accounts::claimed(p.accounts[id]));
    let back = given_up(used, id, false, now);
    accounts::law_release_undoes_claim(p.accounts[id], p.max, now);
    assert(back.accounts =~= p.accounts.insert(id, back.accounts[id]));
    sessions::law_forgotten_session_is_gone(open, session);
}

/// An account that is to blame for a failure serves nobody until it is logged in
/// again.
pub proof fn law_blamed_account_is_not_chosen(p: PoolV, id: Seq<char>, now: int)
    requires
        accounts::pool_ok(p),
        p.accounts.dom().contains(id),
    ensures
        !accounts::best_choice(given_up(p, id, true, now), id),
{
    accounts::law_error_keeps_off(p.accounts[id], p.max, now);
}

/// An account that is handed back has one request fewer on it, and the others
/// stay as they are.
pub proof fn law_others_stay_when_one_is_handed_back(
    p: PoolV,
    id: Seq<char>,
    mark_error: bool,
    now: int,
    other: Seq<char>,
)
    requires
        p.accounts.dom().contains(id),
        p.accounts[id].active > 0,
    ensures
        ({
            let q = given_up(p, id, mark_error, now);
            &&& q.accounts.dom() == p.accounts.dom() && q.max == p.max
            &&& q.accounts[id].active == p.accounts[id].active - 1
            &&& mark_error && p.accounts[id].state != accounts::AccountState::Invalid
                ==> q.accounts[id].state == accounts::AccountState::Error
            &&& other != id && p.accounts.dom().contains(other) ==> q.accounts[other]
                == p.accounts[other]
        }),
{
    let q = given_up(p, id, mark_error, now);
    assert(q.accounts.dom() =~= p.accounts.dom());
}

/// A failure of the accounts keeps its words, and is told as what it is: a
/// failed proof, or a failure of the back end.
pub proof fn law_startup_errors_keep_their_words(m: Seq<char>)
    ensures
        startup_error(PoolErrorV::Client(m)) == CoreErrorV::ProviderError(m),
        startup_error(PoolErrorV::Pow(m)) == CoreErrorV::ProofOfWorkFailed(m),
        startup_error(PoolErrorV::Validation(m)) matches CoreErrorV::ProviderError(t)
            && text::stands_at(t, m, t.len() - m.len()),
        startup_error(PoolErrorV::AlreadyExists(m)) matches CoreErrorV::ProviderError(t)
            && text::stands_at(t, m, t.len() - m.len()),
        startup_error(PoolErrorV::NotFound(m)) matches CoreErrorV::ProviderError(t)
            && text::stands_at(t, m, t.len() - m.len()),
{
    let a = "Lỗi cấu hình: "@ + m;
    assert(a.subrange(a.len() - m.len(), a.len() as int) =~= m);
    let b = "Tài khoản đã tồn tại: "@ + m;
    assert(b.subrange(b.len() - m.len(), b.len() as int) =~= m);
    let c = "Tài khoản không tồn tại: "@ + m;
    assert(c.subrange(c.len() - m.len(), c.len() as int) =~= m);
}

/// The message of an error ends with the words that it was given.
pub proof fn law_core_errors_keep_their_words(m: Seq<char>)
    ensures
        text::stands_at(
            core_error_text(CoreErrorV::ProofOfWorkFailed(m)),
            m,
            core_error_text(CoreErrorV::ProofOfWorkFailed(m)).len() - m.len(),
        ),
        text::stands_at(
            core_error_text(CoreErrorV::ProviderError(m)),
            m,
            core_error_text(CoreErrorV::ProviderError(m)).len() - m.len(),
        ),
        text::stands_at(
            core_error_text(CoreErrorV::Stream(m)),
            m,
            core_error_text(CoreErrorV::Stream(m)).len() - m.len(),
        ),
{
    let a = core_error_text(CoreErrorV::ProofOfWorkFailed(m));
    let b = core_error_text(CoreErrorV::ProviderError(m));
    let c = core_error_text(CoreErrorV::Stream(m));
    assert(a.subrange(a.len() - m.len(), a.len() as int) =~= m);
    assert(b.subrange(b.len() - m.len(), b.len() as int) =~= m);
    assert(c.subrange(c.len() - m.len(), c.len() as int) =~= m);
}

} // verus!
