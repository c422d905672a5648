//! The accounts of the back end, and who uses them.
//!
//! By default an account serves one request at a time. More can be allowed; the
//! accounts that serve nobody still come first.

use vstd::prelude::*;

use crate::clock;
use crate::config;
use crate::table;
use crate::table::Table;
use crate::text;

verus! {

/// After so many failed logins in a row an account is invalid.
pub const MAX_ERROR_COUNT: u8 = 3;

/// How long to wait before looking for a free account again, in milliseconds.
pub const ACCOUNT_POLL_MS: u64 = 200;

/// How often accounts in error are logged in again, in seconds.
pub const RECOVERY_INTERVAL_SECS: u64 = 60;

/// What an account is good for.
#[derive(Clone, Copy, Debug, PartialEq, Eq, Structural)]
pub enum AccountState {
    Idle,
    Busy,
    Error,
    Invalid,
}

/// The name of a state.
pub open spec fn state_name(s: AccountState) -> Seq<char> {
    match s {
        AccountState::Idle => "idle"@,
        AccountState::Busy => "busy"@,
        AccountState::Error => "error"@,
        AccountState::Invalid => "invalid"@,
    }
}

impl AccountState {
    /// The name of the state.
    pub fn as_str(self) -> (r: String)
        ensures
            r@ == state_name(self),
    {
        match self {
            AccountState::Idle => "idle".to_owned(),
            AccountState::Busy => "busy".to_owned(),
            AccountState::Error => "error".to_owned(),
            AccountState::Invalid => "invalid".to_owned(),
        }
    }
}

/// What can be seen of an account.
#[derive(Debug)]
pub struct AccountStatus {
    pub email: String,
    pub mobile: String,
    pub state: String,
    pub active_count: usize,
    pub max_concurrent: usize,
    /// When the account was last let go, in milliseconds; 0 if never.
    pub last_released_ms: i64,
    /// How many logins failed in a row.
    pub error_count: u8,
}

/// The model of an `AccountStatus`.
#[verifier::ext_equal]
pub struct StatusV {
    pub email: Seq<char>,
    pub mobile: Seq<char>,
    pub state: Seq<char>,
    pub active: int,
    pub max_concurrent: int,
    pub last_released: int,
    pub errors: int,
}

impl View for AccountStatus {
    type V = StatusV;

    open spec fn view(&self) -> StatusV {
        StatusV {
            email: self.email@,
            mobile: self.mobile@,
            state: self.state@,
            active: self.active_count as int,
            max_concurrent: self.max_concurrent as int,
            last_released: self.last_released_ms as int,
            errors: self.error_count as int,
        }
    }
}

/// An account that is logged in, or was.
#[derive(Debug)]
pub struct Account {
    pub token: String,
    pub email: String,
    pub mobile: String,
    pub state: AccountState,
    /// How many requests use the account.
    pub active_count: usize,
    /// When the account was last let go, in milliseconds; 0 if never.
    pub last_released: i64,
    /// How many logins failed in a row.
    pub error_count: u8,
    /// What the account logs in with.
    pub creds: config::Account,
}

/// The model of an `Account`.
#[verifier::ext_equal]
pub struct HeldV {
    pub token: Seq<char>,
    pub email: Seq<char>,
    pub mobile: Seq<char>,
    pub state: AccountState,
    pub active: int,
    pub last_released: int,
    pub errors: int,
    pub creds: config::AccountV,
}

impl View for Account {
    type V = HeldV;

    open spec fn view(&self) -> HeldV {
        HeldV {
            token: self.token@,
            email: self.email@,
            mobile: self.mobile@,
            state: self.state,
            active: self.active_count as int,
            last_released: self.last_released as int,
            errors: self.error_count as int,
            creds: self.creds.deep_view(),
        }
    }
}

/// The name under which something with an email and a mobile number is known.
pub open spec fn shown_name(email: Seq<char>, mobile: Seq<char>) -> Seq<char> {
    if email.len() == 0 {
        mobile
    } else {
        email
    }
}

/// The name under which an account is known.
pub open spec fn shown_id(a: HeldV) -> Seq<char> {
    shown_name(a.email, a.mobile)
}

/// The state that is shown of an account.
pub open spec fn visible(a: HeldV) -> AccountState {
    if a.state == AccountState::Error || a.state == AccountState::Invalid {
        a.state
    } else if a.active > 0 {
        AccountState::Busy
    } else {
        AccountState::Idle
    }
}

/// An account can serve: it is neither in error nor invalid.
pub open spec fn serves(a: HeldV) -> bool {
    a.state == AccountState::Idle || a.state == AccountState::Busy
}

/// An account can serve one more request.
pub open spec fn accepts(a: HeldV, max: int) -> bool {
    serves(a) && a.active < max
}

/// State and use agree: who is idle is not used, who is busy is.
pub open spec fn agrees(a: HeldV) -> bool {
    &&& a.active >= 0
    &&& a.state == AccountState::Idle ==> a.active == 0
    &&& a.state == AccountState::Busy ==> a.active > 0
}

/// An account that one more request uses.
pub open spec fn claimed(a: HeldV) -> HeldV {
    HeldV { state: AccountState::Busy, active: a.active + 1, ..a }
}

/// An account that one request fewer uses.
pub open spec fn released(a: HeldV, now: int) -> HeldV {
    if a.active <= 1 {
        HeldV {
            active: 0,
            state: if a.state == AccountState::Busy {
                AccountState::Idle
            } else {
                a.state
            },
            last_released: now,
            ..a
        }
    } else {
        HeldV { active: a.active - 1, ..a }
    }
}

/// An account after a login that gave a token or failed.
pub open spec fn logged_in_again(a: HeldV, token: Option<Seq<char>>) -> HeldV {
    match token {
        Some(t) => HeldV { token: t, state: AccountState::Idle, errors: 0, ..a },
        None => HeldV {
            errors: a.errors + 1,
            state: if a.errors + 1 >= MAX_ERROR_COUNT {
                AccountState::Invalid
            } else {
                a.state
            },
            ..a
        },
    }
}

/// An account in error, unless it is invalid anyway.
pub open spec fn in_error(a: HeldV) -> HeldV {
    if a.state == AccountState::Invalid {
        a
    } else {
        HeldV { state: AccountState::Error, ..a }
    }
}

/// An account that has just logged in, or has failed to.
pub open spec fn fresh(creds: config::AccountV, token: Option<Seq<char>>) -> HeldV {
    HeldV {
        token: match token {
            Some(t) => t,
            None => Seq::empty(),
        },
        email: creds.email,
        mobile: creds.mobile,
        state: if token is Some {
            AccountState::Idle
        } else {
            AccountState::Invalid
        },
        active: 0,
        last_released: 0,
        errors: if token is Some {
            0
        } else {
            MAX_ERROR_COUNT as int
        },
        creds,
    }
}

/// What can be seen of an account.
pub open spec fn status_of(a: HeldV, max: int) -> StatusV {
    StatusV {
        email: a.email,
        mobile: a.mobile,
        state: state_name(visible(a)),
        active: a.active,
        max_concurrent: max,
        last_released: a.last_released,
        errors: a.errors,
    }
}

/// The name under which something with an email and a mobile number is known.
fn name_of(email: &String, mobile: &String) -> (r: String)
    ensures
        r@ == shown_name(email@, mobile@),
{
    if email.as_str().is_empty() {
        mobile.clone()
    } else {
        email.clone()
    }
}

impl Account {
    /// An account that has just logged in.
    pub fn new(creds: config::Account, token: String) -> (r: Account)
        ensures
            r@ == fresh(creds.deep_view(), Some(token@)),
            agrees(r@),
    {
        Account {
            token,
            email: creds.email.clone(),
            mobile: creds.mobile.clone(),
            state: AccountState::Idle,
            active_count: 0,
            last_released: 0,
            error_count: 0,
            creds,
        }
    }

    /// An account whose login failed; it is kept so that it can be shown.
    pub fn new_invalid(creds: config::Account) -> (r: Account)
        ensures
            r@ == fresh(creds.deep_view(), None),
            agrees(r@),
    {
        let token = String::new();
        assert(token@ =~= Seq::empty());
        Account {
            token,
            email: creds.email.clone(),
            mobile: creds.mobile.clone(),
            state: AccountState::Invalid,
            active_count: 0,
            last_released: 0,
            error_count: MAX_ERROR_COUNT,
            creds,
        }
    }

    /// The token that the last login gave.
    pub fn token(&self) -> (r: &str)
        ensures
            r@ == self@.token,
    {
        self.token.as_str()
    }

    /// The name under which the account is known: its email, else its mobile
    /// number.
    pub fn display_id(&self) -> (r: &str)
        ensures
            r@ == shown_id(self@),
    {
        if self.email.as_str().is_empty() {
            self.mobile.as_str()
        } else {
            self.email.as_str()
        }
    }

    /// The state of the account.
    pub fn state(&self) -> (r: AccountState)
        ensures
            r == self@.state,
    {
        self.state
    }

    /// Whether a request uses the account.
    pub fn is_busy(&self) -> (r: bool)
        ensures
            r == (self@.active > 0),
    {
        self.active_count > 0
    }

    /// The state that is shown.
    pub fn visible_state(&self) -> (r: AccountState)
        ensures
            r == visible(self@),
    {
        match self.state {
            AccountState::Error => AccountState::Error,
            AccountState::Invalid => AccountState::Invalid,
            _ => if self.is_busy() {
                AccountState::Busy
            } else {
                AccountState::Idle
            },
        }
    }

    /// Whether the account can serve one more request.
    pub fn can_accept_more(&self, max_concurrent: usize) -> (r: bool)
        ensures
            r == accepts(self@, max_concurrent as int),
    {
        (self.state == AccountState::Idle || self.state == AccountState::Busy) && self.active_count
            < max_concurrent
    }

    /// Lets one more request use the account, where it can serve it. At least
    /// one request is always allowed.
    pub fn try_claim(&mut self, max_concurrent: usize) -> (r: bool)
        requires
            agrees(old(self)@),
        ensures
            r == accepts(old(self)@, if max_concurrent == 0 { 1 } else { max_concurrent as int }),
            final(self)@ == (if r { claimed(old(self)@) } else { old(self)@ }),
            agrees(final(self)@),
    {
        let max: usize = if max_concurrent == 0 {
            1
        } else {
            max_concurrent
        };
        if !self.can_accept_more(max) {
            return false;
        }
        self.state = AccountState::Busy;
        self.active_count = self.active_count + 1;
        true
    }

    /// Lets the account go at the time `now_ms`.
    pub fn release_claim(&mut self, now_ms: i64)
        ensures
            final(self)@ == released(old(self)@, now_ms as int),
            agrees(old(self)@) ==> agrees(final(self)@),
    {
        if self.active_count <= 1 {
            self.active_count = 0;
            if self.state == AccountState::Busy {
                self.state = AccountState::Idle;
            }
            self.last_released = now_ms;
        } else {
            self.active_count = self.active_count - 1;
        }
    }

    /// Takes in how a new login went: the token it gave, or none.
    pub fn re_login(&mut self, token: Option<String>)
        requires
            old(self).error_count < u8::MAX,
        ensures
            final(self)@ == logged_in_again(old(self)@, token.deep_view()),
            agrees(old(self)@) && old(self)@.active == 0 ==> agrees(final(self)@),
    {
        match token {
            Some(t) => {
                self.token = t;
                self.state = AccountState::Idle;
                self.error_count = 0;
            },
            None => {
                self.error_count = self.error_count + 1;
                if self.error_count >= MAX_ERROR_COUNT {
                    self.state = AccountState::Invalid;
                }
            },
        }
    }

    /// What can be seen of the account.
    pub fn status(&self, max_concurrent: usize) -> (r: AccountStatus)
        ensures
            r@ == status_of(self@, max_concurrent as int),
    {
        AccountStatus {
            email: self.email.clone(),
            mobile: self.mobile.clone(),
            state: self.visible_state().as_str(),
            active_count: self.active_count,
            max_concurrent,
            last_released_ms: self.last_released,
            error_count: self.error_count,
        }
    }
}

/// The right to use an account, until it is handed back.
#[derive(Debug)]
pub struct AccountGuard {
    pub account_id: String,
}

impl AccountGuard {
    /// The account that is used.
    pub fn account<'a>(&self, pool: &'a AccountPool) -> (r: &'a Account)
        requires
            pool.wf(),
            pool@.accounts.dom().contains(self.account_id@),
        ensures
            r@ == pool@.accounts[self.account_id@],
    {
        pool.accounts.get(self.account_id.as_str()).unwrap()
    }
}

/// Why something could not be done to the accounts.
#[derive(Debug)]
pub enum PoolError {
    /// No account could be logged in.
    AllAccountsFailed,
    /// The back end refused or could not be reached.
    Client(String),
    /// The proof of work failed.
    Pow(String),
    /// The account is not one to work with.
    Validation(String),
    AlreadyExists(String),
    NotFound(String),
    /// A request uses the account.
    AccountBusy(String),
}

/// The model of a `PoolError`.
#[verifier::ext_equal]
pub enum PoolErrorV {
    AllAccountsFailed,
    Client(Seq<char>),
    Pow(Seq<char>),
    Validation(Seq<char>),
    AlreadyExists(Seq<char>),
    NotFound(Seq<char>),
    AccountBusy(Seq<char>),
}

impl View for PoolError {
    type V = PoolErrorV;

    open spec fn view(&self) -> PoolErrorV {
        match *self {
            PoolError::AllAccountsFailed => PoolErrorV::AllAccountsFailed,
            PoolError::Client(m) => PoolErrorV::Client(m@),
            PoolError::Pow(m) => PoolErrorV::Pow(m@),
            PoolError::Validation(m) => PoolErrorV::Validation(m@),
            PoolError::AlreadyExists(m) => PoolErrorV::AlreadyExists(m@),
            PoolError::NotFound(m) => PoolErrorV::NotFound(m@),
            PoolError::AccountBusy(m) => PoolErrorV::AccountBusy(m@),
        }
    }
}

/// The message of an error.
pub open spec fn pool_error_text(e: PoolErrorV) -> Seq<char> {
    match e {
        PoolErrorV::AllAccountsFailed => "Tất cả tài khoản khởi tạo thất bại"@,
        PoolErrorV::Client(m) => "Lỗi client: "@ + m,
        PoolErrorV::Pow(m) => "Tính PoW thất bại: "@ + m,
        PoolErrorV::Validation(m) => "Lỗi cấu hình tài khoản: "@ + m,
        PoolErrorV::AlreadyExists(m) => "Tài khoản đã tồn tại: "@ + m,
        PoolErrorV::NotFound(m) => "Tài khoản không tồn tại: "@ + m,
        PoolErrorV::AccountBusy(m) => "Tài khoản đang được sử dụng: "@ + m,
    }
}

impl PoolError {
    /// The message of the error.
    pub fn message(&self) -> (r: String)
        ensures
            r@ == pool_error_text(self@),
    {
        match self {
            PoolError::AllAccountsFailed => "Tất cả tài khoản khởi tạo thất bại".to_owned(),
            PoolError::Client(m) => text::cat2("Lỗi client: ", m.as_str()),
            PoolError::Pow(m) => text::cat2("Tính PoW thất bại: ", m.as_str()),
            PoolError::Validation(m) => text::cat2("Lỗi cấu hình tài khoản: ", m.as_str()),
            PoolError::AlreadyExists(m) => text::cat2("Tài khoản đã tồn tại: ", m.as_str()),
            PoolError::NotFound(m) => text::cat2("Tài khoản không tồn tại: ", m.as_str()),
            PoolError::AccountBusy(m) => text::cat2("Tài khoản đang được sử dụng: ", m.as_str()),
        }
    }
}

/// All accounts, by the name under which they are known.
pub struct AccountPool {
    pub accounts: Table<Account>,
    pub max_concurrent: usize,
}

/// The model of an `AccountPool`.
#[verifier::ext_equal]
pub struct PoolV {
    pub accounts: Map<Seq<char>, HeldV>,
    /// How many requests may use an account at a time.
    pub max: int,
}

impl View for AccountPool {
    type V = PoolV;

    open spec fn view(&self) -> PoolV {
        PoolV {
            accounts: self.accounts@.map_values(|a: Account| a@),
            max: self.max_concurrent as int,
        }
    }
}

/// Every account stands under its own name, its state and use agree, and at
/// least one request is allowed on each.
pub open spec fn pool_ok(p: PoolV) -> bool {
    &&& p.max >= 1
    &&& forall|id: Seq<char>| #[trigger]
        p.accounts.dom().contains(id) ==> agrees(p.accounts[id]) && shown_id(p.accounts[id]) == id
}

/// `a` comes before `b`: it serves nobody while `b` does, or else it was let go
/// earlier.
pub open spec fn comes_before(a: HeldV, b: HeldV) -> bool {
    if (a.active == 0) == (b.active == 0) {
        a.last_released < b.last_released
    } else {
        a.active == 0
    }
}

/// `id` is an account that can serve one more request, and none that can comes
/// before it.
pub open spec fn best_choice(p: PoolV, id: Seq<char>) -> bool {
    &&& p.accounts.dom().contains(id)
    &&& accepts(p.accounts[id], p.max)
    &&& forall|other: Seq<char>| #[trigger]
        p.accounts.dom().contains(other) && accepts(p.accounts[other], p.max) ==> !comes_before(
            p.accounts[other],
            p.accounts[id],
        )
}

/// No account can serve one more request.
pub open spec fn nobody_free(p: PoolV) -> bool {
    forall|id: Seq<char>| #[trigger]
        p.accounts.dom().contains(id) ==> !accepts(p.accounts[id], p.max)
}

/// The pool with a changed account.
pub open spec fn with_account(p: PoolV, id: Seq<char>, a: HeldV) -> PoolV {
    PoolV { accounts: p.accounts.insert(id, a), ..p }
}

/// The statuses are those of all accounts, each once, in some order.
pub open spec fn all_statuses(p: PoolV, statuses: Seq<StatusV>) -> bool {
    exists|ids: Seq<Seq<char>>| #[trigger]
        table::lists_all(ids, p.accounts.dom()) && statuses == Seq::new(
            ids.len(),
            |i: int| status_of(p.accounts[ids[i]], p.max),
        )
}

/// The models of some statuses.
pub open spec fn status_views(v: Seq<AccountStatus>) -> Seq<StatusV> {
    Seq::new(v.len(), |i: int| v[i]@)
}

/// A login that was tried: what with, and the token that it gave, if any.
pub type LoginOutcome = (config::Account, Option<String>);

/// The pool after the first `n` logins of `outcomes`.
pub open spec fn filled(p: PoolV, outcomes: Seq<LoginOutcome>, n: int) -> PoolV
    decreases n,
{
    if n <= 0 {
        p
    } else {
        let creds = outcomes[n - 1].0.deep_view();
        with_account(
            filled(p, outcomes, n - 1),
            shown_name(creds.email, creds.mobile),
            fresh(creds, outcomes[n - 1].1.deep_view()),
        )
    }
}

/// Why an account cannot be removed.
pub open spec fn removal_error(p: PoolV, id: Seq<char>) -> Option<PoolErrorV> {
    if !p.accounts.dom().contains(id) {
        Some(PoolErrorV::NotFound(id))
    } else if p.accounts[id].active > 0 {
        Some(PoolErrorV::AccountBusy(id))
    } else {
        None
    }
}

/// Why an account cannot be logged in again by hand.
pub open spec fn re_login_error(p: PoolV, ready: bool, id: Seq<char>) -> Option<Seq<char>> {
    if !ready {
        Some("client/solver chưa được khởi tạo"@)
    } else if !p.accounts.dom().contains(id) {
        Some("Tài khoản "@ + id + " không tồn tại"@)
    } else {
        let a = p.accounts[id];
        if serves(a) {
            Some(
                "Trạng thái tài khoản là "@ + state_name(a.state)
                    + ", chỉ Error/Invalid mới được đăng nhập lại"@,
            )
        } else if a.active > 0 {
            Some("Tài khoản "@ + shown_id(a) + " đang được sử dụng, thử lại sau"@)
        } else {
            None
        }
    }
}

/// An account that is to be logged in again without being asked for.
pub open spec fn wants_recovery(a: HeldV) -> bool {
    a.state == AccountState::Error && a.active == 0
}

/// The first `n` names of accounts that want recovery.
pub open spec fn wanting(p: PoolV, ids: Seq<Seq<char>>, n: int) -> Seq<Seq<char>>
    decreases n,
{
    if n <= 0 {
        Seq::empty()
    } else if wants_recovery(p.accounts[ids[n - 1]]) {
        wanting(p, ids, n - 1).push(ids[n - 1])
    } else {
        wanting(p, ids, n - 1)
    }
}

impl AccountPool {
    /// The table is in order, and so is the pool.
    pub open spec fn wf(&self) -> bool {
        self.accounts.wf() && pool_ok(self@)
    }

    /// A pool without accounts, in which so many requests may use an account at
    /// a time, and at least one.
    pub fn new(max_concurrent_per_account: usize) -> (r: AccountPool)
        ensures
            r.wf(),
            r@.accounts == Map::<Seq<char>, HeldV>::empty(),
            r@.max == if max_concurrent_per_account == 0 { 1 } else {
                max_concurrent_per_account as int
            },
    {
        let r = AccountPool {
            accounts: Table::new(),
            max_concurrent: if max_concurrent_per_account == 0 {
                1
            } else {
                max_concurrent_per_account
            },
        };
        assert(r@.accounts =~= Map::<Seq<char>, HeldV>::empty());
        r
    }

    /// How many requests may use an account at a time.
    pub fn max_concurrent_per_account(&self) -> (r: usize)
        requires
            self.wf(),
        ensures
            r == self@.max,
            r >= 1,
    {
        self.max_concurrent
    }

    /// Sets how many requests may use an account at a time, at least one.
    pub fn set_max_concurrent_per_account(&mut self, value: usize)
        requires
            old(self).wf(),
        ensures
            final(self).wf(),
            final(self)@ == (PoolV {
                max: if value == 0 { 1 } else { value as int },
                ..old(self)@
            }),
    {
        self.max_concurrent = if value == 0 {
            1
        } else {
            value
        };
    }

    /// Puts an account under its name, in place of the one that stood there.
    pub fn insert(&mut self, account: Account)
        requires
            old(self).wf(),
            agrees(account@),
        ensures
            final(self).wf(),
            final(self)@ == with_account(old(self)@, shown_id(account@), account@),
    {
        let id = account.display_id().to_owned();
        let ghost a = account@;
        self.accounts.insert(id, account);
        assert(self@.accounts =~= old(self)@.accounts.insert(shown_id(a), a));
    }

    /// Puts in the accounts of some logins. Those that failed are put in too, as
    /// invalid ones.
    pub fn init(&mut self, outcomes: Vec<LoginOutcome>)
        requires
            old(self).wf(),
        ensures
            final(self).wf(),
            final(self)@ == filled(old(self)@, outcomes@, outcomes@.len() as int),
    {
        let ghost before = self@;
        let ghost all = outcomes@;
        let mut rest = outcomes;
        let ghost mut done: int = 0;
        assert(all.subrange(0, all.len() as int) =~= all);
        while rest.len() > 0
            invariant
                self.wf(),
                0 <= done <= all.len(),
                rest@ == all.subrange(done, all.len() as int),
                self@ == filled(before, all, done),
            decreases rest@.len(),
        {
            let (creds, token) = rest.remove(0);
            assert(creds == all[done].0 && token == all[done].1);
            let account = match token {
                Some(t) => Account::new(creds, t),
                None => Account::new_invalid(creds),
            };
            self.insert(account);
            proof {
                done = done + 1;
            }
            assert(rest@ =~= all.subrange(done, all.len() as int));
        }
    }

    /// The name under which a new account will stand, unless one stands there.
    pub fn begin_add(&self, creds: &config::Account) -> (r: Result<String, PoolError>)
        requires
            self.wf(),
        ensures
            ({
                let id = shown_name(creds.email@, creds.mobile@);
                match r {
                    Ok(name) => name@ == id && !self@.accounts.dom().contains(id),
                    Err(e) => e@ == PoolErrorV::AlreadyExists(id) && self@.accounts.dom().contains(
                        id,
                    ),
                }
            }),
    {
        let id = name_of(&creds.email, &creds.mobile);
        if self.accounts.contains(id.as_str()) {
            return Err(PoolError::AlreadyExists(id));
        }
        Ok(id)
    }

    /// Removes an account that no request uses, and says under which name it
    /// was known.
    pub fn remove_account(&mut self, email_or_mobile: &str) -> (r: Result<String, PoolError>)
        requires
            old(self).wf(),
        ensures
            final(self).wf(),
            match removal_error(old(self)@, email_or_mobile@) {
                Some(e) => r matches Err(err) && err@ == e && final(self)@ == old(self)@,
                None => r matches Ok(id) && id@ == email_or_mobile@ && final(self)@ == (PoolV {
                    accounts: old(self)@.accounts.remove(email_or_mobile@),
                    ..old(self)@
                }),
            },
    {
        let ghost before = self@;
        match self.accounts.get(email_or_mobile) {
            None => {
                return Err(PoolError::NotFound(email_or_mobile.to_owned()));
            },
            Some(account) => {
                if account.is_busy() {
                    return Err(PoolError::AccountBusy(email_or_mobile.to_owned()));
                }
            },
        }
        match self.accounts.remove(email_or_mobile) {
            None => Err(PoolError::NotFound(email_or_mobile.to_owned())),
            Some(removed) => {
                assert(self@.accounts =~= before.accounts.remove(email_or_mobile@));
                assert(before.accounts[email_or_mobile@] == removed@);
                Ok(removed.display_id().to_owned())
            },
        }
    }

    /// Lets a request use the account that is best for it: of those that can
    /// serve one more, first those that serve nobody, and among them the one
    /// that was let go longest ago.
    pub fn get_account(&mut self) -> (r: Option<AccountGuard>)
        requires
            old(self).wf(),
        ensures
            final(self).wf(),
            match r {
                Some(g) => best_choice(old(self)@, g.account_id@) && final(self)@ == with_account(
                    old(self)@,
                    g.account_id@,
                    claimed(old(self)@.accounts[g.account_id@]),
                ),
                None => final(self)@ == old(self)@ && nobody_free(old(self)@),
            },
    {
        let ghost before = self@;
        let keys = self.accounts.keys();
        let ghost ids = text::strs(keys@);
        let mut best: Option<usize> = None;
        let mut unused: bool = false;
        let mut released_at: i64 = 0;
        let mut i: usize = 0;
        while i < keys.len()
            invariant
                i <= keys@.len(),
                self.wf(),
                before == self@,
                ids == text::strs(keys@),
                forall|j: int| 0 <= j < ids.len() ==> self.accounts@.dom().contains(#[trigger] ids[j]),
                match best {
                    None => forall|j: int|
                        0 <= j < i ==> !accepts(
                            before.accounts[#[trigger] ids[j]],
                            before.max,
                        ),
                    Some(b) => {
                        let a = before.accounts[ids[b as int]];
                        &&& b < i
                        &&& accepts(a, before.max)
                        &&& unused == (a.active == 0)
                        &&& released_at == a.last_released
                        &&& forall|j: int|
                            0 <= j < i && accepts(before.accounts[#[trigger] ids[j]], before.max)
                                ==> !comes_before(before.accounts[ids[j]], a)
                    },
                },
            decreases keys@.len() - i,
        {
            assert(ids[i as int] == keys@[i as int]@);
            assert(self.accounts@.dom().contains(ids[i as int]));
            if let Some(account) = self.accounts.get(keys[i].as_str()) {
                assert(before.accounts[ids[i as int]] == account@);
                if account.can_accept_more(self.max_concurrent) {
                    let free = !account.is_busy();
                    let better = best.is_none() || if free == unused {
                        account.last_released < released_at
                    } else {
                        free
                    };
                    if better {
                        best = Some(i);
                        unused = free;
                        released_at = account.last_released;
                    }
                }
            }
            i += 1;
        }
        match best {
            None => {
                assert forall|id: Seq<char>| #[trigger]
                    before.accounts.dom().contains(id) implies !accepts(
                    before.accounts[id],
                    before.max,
                ) by {
                    assert(self.accounts@.dom().contains(id));
                    let j = choose|j: int| 0 <= j < ids.len() && #[trigger] ids[j] == id;
                    assert(ids[j] == id);
                }
                None
            },
            Some(b) => {
                let id = keys[b].clone();
                assert(id@ == ids[b as int]);
                assert(before.accounts.dom().contains(id@));
                assert(best_choice(before, id@)) by {
                    assert forall|other: Seq<char>| #[trigger]
                        before.accounts.dom().contains(other) && accepts(
                            before.accounts[other],
                            before.max,
                        ) implies !comes_before(before.accounts[other], before.accounts[id@]) by {
                        assert(self.accounts@.dom().contains(other));
                        let j = choose|j: int| 0 <= j < ids.len() && #[trigger] ids[j] == other;
                        assert(ids[j] == other);
                    }
                }
                let max: usize = self.max_concurrent;
                match self.accounts.get_mut(id.as_str()) {
                    Some(account) => {
                        let taken = account.try_claim(max);
                        assert(taken);
                    },
                    None => {},
                }
                assert(self@.accounts =~= before.accounts.insert(
                    id@,
                    claimed(before.accounts[id@]),
                ));
                Some(AccountGuard { account_id: id })
            },
        }
    }

    /// Hands back the right to use an account, at the time `now_ms`.
    pub fn release_at(&mut self, guard: AccountGuard, now_ms: i64)
        requires
            old(self).wf(),
        ensures
            final(self).wf(),
            final(self)@ == (if old(self)@.accounts.dom().contains(guard.account_id@) {
                with_account(
                    old(self)@,
                    guard.account_id@,
                    released(old(self)@.accounts[guard.account_id@], now_ms as int),
                )
            } else {
                old(self)@
            }),
    {
        let ghost before = self@;
        let ghost id = guard.account_id@;
        assert(self.accounts@.dom().contains(id) <==> before.accounts.dom().contains(id));
        match self.accounts.get_mut(guard.account_id.as_str()) {
            Some(account) => {
                account.release_claim(now_ms);
                assert(self@.accounts =~= before.accounts.insert(
                    id,
                    released(before.accounts[id], now_ms as int),
                ));
            },
            None => {
                assert(self@.accounts =~= before.accounts);
            },
        }
    }

    /// Hands back the right to use an account, now.
    pub fn release(&mut self, guard: AccountGuard)
        requires
            old(self).wf(),
        ensures
            final(self).wf(),
            old(self)@.accounts.dom().contains(guard.account_id@) ==> exists|now: int|
                final(self)@ == with_account(
                    old(self)@,
                    guard.account_id@,
                    #[trigger] released(old(self)@.accounts[guard.account_id@], now),
                ),
            !old(self)@.accounts.dom().contains(guard.account_id@) ==> final(self)@ == old(self)@,
    {
        let now: i64 = clock::epoch_ms();
        self.release_at(guard, now);
    }

    /// What can be seen of all accounts, in no order to rely on.
    pub fn account_statuses(&self) -> (r: Vec<AccountStatus>)
        requires
            self.wf(),
        ensures
            all_statuses(self@, status_views(r@)),
    {
        let keys = self.accounts.keys();
        let ghost ids = text::strs(keys@);
        let mut out: Vec<AccountStatus> = Vec::new();
        let mut i: usize = 0;
        while i < keys.len()
            invariant
                i <= keys@.len(),
                self.wf(),
                ids == text::strs(keys@),
                forall|j: int| 0 <= j < ids.len() ==> self.accounts@.dom().contains(#[trigger] ids[j]),
                out@.len() == i,
                forall|j: int|
                    0 <= j < i ==> (#[trigger] out@[j])@ == status_of(
                        self@.accounts[ids[j]],
                        self@.max,
                    ),
            decreases keys@.len() - i,
        {
            assert(ids[i as int] == keys@[i as int]@);
            assert(self.accounts@.dom().contains(ids[i as int]));
            if let Some(account) = self.accounts.get(keys[i].as_str()) {
                assert(self@.accounts[ids[i as int]] == account@);
                out.push(account.status(self.max_concurrent));
            }
            i += 1;
        }
        assert(self@.accounts.dom() =~= self.accounts@.dom());
        assert(status_views(out@) =~= Seq::new(
            ids.len(),
            |i: int| status_of(self@.accounts[ids[i]], self@.max),
        ));
        assert(table::lists_all(ids, self@.accounts.dom()));
        out
    }

    /// Puts an account in error, unless it is invalid or unknown.
    pub fn mark_error(&mut self, email_or_mobile: &str)
        requires
            old(self).wf(),
        ensures
            final(self).wf(),
            final(self)@ == (if old(self)@.accounts.dom().contains(email_or_mobile@) {
                with_account(
                    old(self)@,
                    email_or_mobile@,
                    in_error(old(self)@.accounts[email_or_mobile@]),
                )
            } else {
                old(self)@
            }),
    {
        let ghost before = self@;
        assert(self.accounts@.dom().contains(email_or_mobile@) <==> before.accounts.dom().contains(
            email_or_mobile@,
        ));
        match self.accounts.get_mut(email_or_mobile) {
            Some(account) => {
                if account.state != AccountState::Invalid {
                    account.state = AccountState::Error;
                }
                assert(self@.accounts =~= before.accounts.insert(
                    email_or_mobile@,
                    in_error(before.accounts[email_or_mobile@]),
                ));
            },
            None => {
                assert(self@.accounts =~= before.accounts);
            },
        }
    }

    /// Whether an account may be logged in again by hand, given whether there
    /// is something to do it with; else why not.
    pub fn begin_re_login(&self, ready: bool, email_or_mobile: &str) -> (r: Option<String>)
        requires
            self.wf(),
        ensures
            r.deep_view() == re_login_error(self@, ready, email_or_mobile@),
    {
        if !ready {
            return Some("client/solver chưa được khởi tạo".to_owned());
        }
        match self.accounts.get(email_or_mobile) {
            None => Some(text::cat3("Tài khoản ", email_or_mobile, " không tồn tại")),
            Some(account) => {
                assert(self@.accounts[email_or_mobile@] == account@);
                let state = account.state();
                if state != AccountState::Error && state != AccountState::Invalid {
                    return Some(
                        text::cat3(
                            "Trạng thái tài khoản là ",
                            state.as_str().as_str(),
                            ", chỉ Error/Invalid mới được đăng nhập lại",
                        ),
                    );
                }
                if account.is_busy() {
                    return Some(
                        text::cat3(
                            "Tài khoản ",
                            account.display_id(),
                            " đang được sử dụng, thử lại sau",
                        ),
                    );
                }
                None
            },
        }
    }

    /// Takes in how a new login of an account went, and says why the account is
    /// still not good, if it is not.
    pub fn finish_re_login(&mut self, email_or_mobile: &str, token: Option<String>) -> (r: Option<
        String,
    >)
        requires
            old(self).wf(),
            old(self)@.accounts.dom().contains(email_or_mobile@),
            old(self)@.accounts[email_or_mobile@].active == 0,
            old(self)@.accounts[email_or_mobile@].errors < u8::MAX,
        ensures
            final(self).wf(),
            ({
                let a = logged_in_again(
                    old(self)@.accounts[email_or_mobile@],
                    token.deep_view(),
                );
                &&& final(self)@ == with_account(old(self)@, email_or_mobile@, a)
                &&& r.deep_view() == (if a.state == AccountState::Idle {
                    None
                } else {
                    Some("Đăng nhập lại thất bại, trạng thái hiện tại: "@ + state_name(a.state))
                })
            }),
    {
        let ghost before = self@;
        let ghost t = token.deep_view();
        assert(self.accounts@.dom().contains(email_or_mobile@));
        match self.accounts.get_mut(email_or_mobile) {
            Some(account) => {
                account.re_login(token);
                let state = account.state();
                assert(self@.accounts =~= before.accounts.insert(
                    email_or_mobile@,
                    logged_in_again(before.accounts[email_or_mobile@], t),
                ));
                if state == AccountState::Idle {
                    None
                } else {
                    Some(
                        text::cat2(
                            "Đăng nhập lại thất bại, trạng thái hiện tại: ",
                            state.as_str().as_str(),
                        ),
                    )
                }
            },
            None => None,
        }
    }

    /// The accounts that are to be logged in again without being asked for: in
    /// error, and used by no request.
    pub fn due_for_recovery(&self) -> (r: Vec<String>)
        requires
            self.wf(),
        ensures
            exists|ids: Seq<Seq<char>>| #[trigger]
                table::lists_all(ids, self@.accounts.dom()) && text::strs(r@) == wanting(
                    self@,
                    ids,
                    ids.len() as int,
                ),
    {
        let keys = self.accounts.keys();
        let ghost ids = text::strs(keys@);
        let mut out: Vec<String> = Vec::new();
        assert(text::strs(out@) =~= Seq::empty());
        let mut i: usize = 0;
        while i < keys.len()
            invariant
                i <= keys@.len(),
                self.wf(),
                ids == text::strs(keys@),
                forall|j: int| 0 <= j < ids.len() ==> self.accounts@.dom().contains(#[trigger] ids[j]),
                text::strs(out@) == wanting(self@, ids, i as int),
            decreases keys@.len() - i,
        {
            assert(ids[i as int] == keys@[i as int]@);
            assert(self.accounts@.dom().contains(ids[i as int]));
            if let Some(account) = self.accounts.get(keys[i].as_str()) {
                assert(self@.accounts[ids[i as int]] == account@);
                if account.state() == AccountState::Error && !account.is_busy() {
                    text::add_line(&mut out, keys[i].as_str());
                }
            }
            i += 1;
        }
        assert(self@.accounts.dom() =~= self.accounts@.dom());
        assert(table::lists_all(ids, self@.accounts.dom()));
        out
    }
}

/// What to do while no account may be free.
#[derive(Debug)]
pub enum WaitStep {
    /// This account may be used.
    Got(AccountGuard),
    /// Wait so many milliseconds and look again.
    Sleep(u64),
    GiveUp,
}

impl AccountPool {
    /// Looks for an account at the time `now_ms`, and says what to do where none
    /// is free: look again later, until the time `deadline_ms`.
    pub fn get_account_with_wait(&mut self, now_ms: u64, deadline_ms: u64) -> (r: WaitStep)
        requires
            old(self).wf(),
        ensures
            final(self).wf(),
            match r {
                WaitStep::Got(g) => best_choice(old(self)@, g.account_id@) && final(self)@
                    == with_account(
                    old(self)@,
                    g.account_id@,
                    claimed(old(self)@.accounts[g.account_id@]),
                ),
                WaitStep::Sleep(ms) => ms == ACCOUNT_POLL_MS && now_ms < deadline_ms && nobody_free(
                    old(self)@,
                ) && final(self)@ == old(self)@,
                WaitStep::GiveUp => now_ms >= deadline_ms && nobody_free(old(self)@)
                    && final(self)@ == old(self)@,
            },
    {
        match self.get_account() {
            Some(g) => WaitStep::Got(g),
            None => if now_ms >= deadline_ms {
                WaitStep::GiveUp
            } else {
                WaitStep::Sleep(ACCOUNT_POLL_MS)
            },
        }
    }
}

/// Letting an account go undoes a claim on it, but for the time at which it was
/// let go.
pub proof fn law_release_undoes_claim(a: HeldV, max: int, now: int)
    requires
        agrees(a),
        accepts(a, max),
    ensures
        ({
            let b = released(claimed(a), now);
            b == HeldV { last_released: b.last_released, ..a }
        }),
        released(claimed(a), now).last_released == (if a.active == 0 { now } else {
            a.last_released
        }),
{
}

/// An account that a request uses is not removed.
pub proof fn law_used_account_stays(p: PoolV, id: Seq<char>)
    requires
        best_choice(p, id),
        pool_ok(p),
    ensures
        removal_error(with_account(p, id, claimed(p.accounts[id])), id) == Some(
            PoolErrorV::AccountBusy(id),
        ),
{
}

/// While an account serves nobody, no request is put on one that serves
/// another.
pub proof fn law_unused_accounts_first(p: PoolV, chosen: Seq<char>, other: Seq<char>)
    requires
        pool_ok(p),
        best_choice(p, chosen),
        p.accounts.dom().contains(other),
        serves(p.accounts[other]),
        p.accounts[other].active == 0,
    ensures
        p.accounts[chosen].active == 0,
        p.accounts[chosen].last_released <= p.accounts[other].last_released,
{
}

/// An account that was claimed as often as is allowed is chosen no more.
pub proof fn law_full_account_is_not_chosen(p: PoolV, id: Seq<char>)
    requires
        best_choice(p, id),
        p.accounts[id].active + 1 == p.max,
    ensures
        !best_choice(with_account(p, id, claimed(p.accounts[id])), id),
{
}

/// Choosing an account never puts more requests on it than are allowed.
pub proof fn law_claims_stay_within_limit(p: PoolV, id: Seq<char>)
    requires
        pool_ok(p),
        best_choice(p, id),
    ensures
        claimed(p.accounts[id]).active <= p.max,
        pool_ok(with_account(p, id, claimed(p.accounts[id]))),
{
}

/// An account in error serves nobody new until it is logged in again, also
/// after those that use it have let it go.
pub proof fn law_error_keeps_off(a: HeldV, max: int, now: int)
    ensures
        !accepts(in_error(a), max),
        !accepts(released(in_error(a), now), max),
{
}

/// Failed logins make an account invalid in the end.
pub proof fn law_failures_invalidate(a: HeldV)
    requires
        a.errors >= 0,
    ensures
        ({
            let b = logged_in_again(logged_in_again(logged_in_again(a, None), None), None);
            b.state == AccountState::Invalid && !serves(b)
        }),
{
}

/// While several accounts can serve, the one that serves nobody comes first, and
/// of those alike the one that was let go longest ago. The chosen one can serve.
pub proof fn law_longest_idle_is_chosen(p: PoolV, chosen: Seq<char>, other: Seq<char>)
    requires
        best_choice(p, chosen),
        p.accounts.dom().contains(other),
        p.accounts[other].state == AccountState::Idle || p.accounts[other].state
            == AccountState::Busy,
        p.accounts[other].active < p.max,
    ensures
        ({
            let a = p.accounts[chosen];
            let b = p.accounts[other];
            &&& a.state == AccountState::Idle || a.state == AccountState::Busy
            &&& a.active < p.max
            &&& b.active == 0 ==> a.active == 0
            &&& (a.active == 0) == (b.active == 0) ==> a.last_released <= b.last_released
        }),
{
    assert(accepts(p.accounts[other], p.max));
}

/// Nobody is free only where each account is in error, invalid, or used as often
/// as is allowed.
pub proof fn law_nobody_is_free(p: PoolV, id: Seq<char>)
    requires
        nobody_free(p),
        p.accounts.dom().contains(id),
    ensures
        ({
            let a = p.accounts[id];
            a.state == AccountState::Error || a.state == AccountState::Invalid || a.active >= p.max
        }),
{
    assert(!accepts(p.accounts[id], p.max));
}

/// A claim adds one request to an account and takes nothing from it; letting go
/// takes one request away, notes the time when it was the last, and makes a busy
/// account idle, but heals none.
pub proof fn law_claims_are_counted(a: HeldV, now: int)
    requires
        a.active >= 0,
    ensures
        claimed(a).active == a.active + 1 && claimed(a).state == AccountState::Busy,
        claimed(a).token == a.token && claimed(a).errors == a.errors && claimed(a).email == a.email
            && claimed(a).mobile == a.mobile && claimed(a).last_released == a.last_released,
        a.active > 0 ==> released(a, now).active == a.active - 1,
        a.active <= 1 ==> released(a, now).active == 0 && released(a, now).last_released == now,
        a.active > 1 ==> released(a, now).last_released == a.last_released && released(
            a,
            now,
        ).state == a.state,
        a.state == AccountState::Error || a.state == AccountState::Invalid ==> released(
            a,
            now,
        ).state == a.state,
        a.active <= 1 && a.state == AccountState::Busy ==> released(a, now).state
            == AccountState::Idle,
        released(a, now).token == a.token && released(a, now).errors == a.errors,
{
}

/// A login that succeeds heals an account: it has the new token, no failures, and
/// can serve. One that fails is counted, and the third in a row makes the account
/// invalid; an earlier one leaves it as it was.
pub proof fn law_login_heals(a: HeldV, t: Seq<char>, max: int)
    requires
        a.active == 0,
        max >= 1,
        a.errors >= 0,
    ensures
        logged_in_again(a, Some(t)).token == t,
        logged_in_again(a, Some(t)).errors == 0,
        accepts(logged_in_again(a, Some(t)), max),
        logged_in_again(a, None).errors == a.errors + 1,
        logged_in_again(a, None).token == a.token,
        a.errors + 1 < 3 ==> logged_in_again(a, None).state == a.state,
        a.errors + 1 >= 3 ==> logged_in_again(a, None).state == AccountState::Invalid,
{
}

/// An account that is put in error serves nobody, but keeps what uses it and what
/// it is known by; an invalid one stays invalid.
pub proof fn law_error_keeps_the_rest(a: HeldV)
    ensures
        a.state == AccountState::Invalid ==> in_error(a) == a,
        a.state != AccountState::Invalid ==> in_error(a) == (HeldV {
            state: AccountState::Error,
            ..a
        }),
{
}

/// A new account is idle with its token, or invalid without one, and is used by
/// nobody; it is known by its credentials.
pub proof fn law_new_account(creds: config::AccountV, t: Seq<char>)
    ensures
        ({
            let a = fresh(creds, Some(t));
            &&& a.state == AccountState::Idle && a.token == t && a.errors == 0 && a.active == 0
            &&& a.email == creds.email && a.mobile == creds.mobile && a.creds == creds
        }),
        ({
            let a = fresh(creds, None);
            &&& a.state == AccountState::Invalid && a.token.len() == 0 && a.active == 0
            &&& a.email == creds.email && a.mobile == creds.mobile && a.creds == creds
        }),
        creds.email.len() > 0 ==> shown_id(fresh(creds, None)) == creds.email,
        creds.email.len() == 0 ==> shown_id(fresh(creds, None)) == creds.mobile,
{
}

/// What is shown of an account is what it is: its error or invalidity, else
/// whether a request uses it, with all its counts.
pub proof fn law_status_tells_the_truth(a: HeldV, max: int)
    ensures
        ({
            let s = status_of(a, max);
            &&& a.state == AccountState::Error ==> s.state == "error"@
            &&& a.state == AccountState::Invalid ==> s.state == "invalid"@
            &&& a.state != AccountState::Error && a.state != AccountState::Invalid && a.active > 0
                ==> s.state == "busy"@
            &&& a.state != AccountState::Error && a.state != AccountState::Invalid && a.active <= 0
                ==> s.state == "idle"@
            &&& s.email == a.email && s.mobile == a.mobile && s.active == a.active && s.errors
                == a.errors && s.last_released == a.last_released && s.max_concurrent == max
        }),
{
}

/// After some logins each account stands under its name: as its last login left
/// it, and those that did not log in as they were.
pub proof fn law_logins_fill_the_pool(
    p: PoolV,
    outcomes: Seq<LoginOutcome>,
    n: int,
    id: Seq<char>,
    k: int,
)
    requires
        -1 <= k < n <= outcomes.len(),
        k >= 0 ==> shown_name(
            outcomes[k].0.deep_view().email,
            outcomes[k].0.deep_view().mobile,
        ) == id,
        forall|j: int|
            k < j < n ==> shown_name(
                (#[trigger] outcomes[j]).0.deep_view().email,
                outcomes[j].0.deep_view().mobile,
            ) != id,
    ensures
        k >= 0 ==> filled(p, outcomes, n).accounts.dom().contains(id) && filled(
            p,
            outcomes,
            n,
        ).accounts[id] == fresh(outcomes[k].0.deep_view(), outcomes[k].1.deep_view()),
        k < 0 ==> (filled(p, outcomes, n).accounts.dom().contains(id) <==> p.accounts.dom().contains(
            id,
        )) && (p.accounts.dom().contains(id) ==> filled(p, outcomes, n).accounts[id]
            == p.accounts[id]),
        filled(p, outcomes, n).max == p.max,
    decreases n,
{
    if n - 1 > k {
        assert(shown_name(
            outcomes[n - 1].0.deep_view().email,
            outcomes[n - 1].0.deep_view().mobile,
        ) != id);
        if n - 1 > k + 1 || k >= 0 {
            law_logins_fill_the_pool(p, outcomes, n - 1, id, k);
        } else {
            reveal_with_fuel(filled, 2);
        }
    } else {
        lemma_filled_max(p, outcomes, n);
    }
}

proof fn lemma_filled_max(p: PoolV, outcomes: Seq<LoginOutcome>, n: int)
    ensures
        filled(p, outcomes, n).max == p.max,
    decreases n,
{
    if n > 0 {
        lemma_filled_max(p, outcomes, n - 1);
    }
}

/// An account can be removed exactly where it is there and no request uses it.
pub proof fn law_only_unused_accounts_go(p: PoolV, id: Seq<char>)
    ensures
        removal_error(p, id) is None <==> p.accounts.dom().contains(id) && p.accounts[id].active
            <= 0,
        !p.accounts.dom().contains(id) ==> removal_error(p, id) == Some(PoolErrorV::NotFound(id)),
        p.accounts.dom().contains(id) && p.accounts[id].active > 0 ==> removal_error(p, id) == Some(
            PoolErrorV::AccountBusy(id),
        ),
{
}

/// An account can be logged in again by hand exactly where there is something to
/// do it with, the account is in error or invalid, and no request uses it.
pub proof fn law_only_bad_accounts_log_in_again(p: PoolV, ready: bool, id: Seq<char>)
    ensures
        re_login_error(p, ready, id) is None <==> {
            &&& ready
            &&& p.accounts.dom().contains(id)
            &&& p.accounts[id].state == AccountState::Error || p.accounts[id].state
                == AccountState::Invalid
            &&& p.accounts[id].active <= 0
        },
{
}

/// The accounts that are logged in again by themselves are those in error that no
/// request uses, and no others.
pub proof fn law_recovery_takes_unused_errors(p: PoolV, ids: Seq<Seq<char>>, n: int, id: Seq<char>)
    requires
        0 <= n <= ids.len(),
    ensures
        wanting(p, ids, n).contains(id) <==> ids.take(n).contains(id) && p.accounts[id].state
            == AccountState::Error && p.accounts[id].active == 0,
    decreases n,
{
    if n > 0 {
        law_recovery_takes_unused_errors(p, ids, n - 1, id);
        let before = wanting(p, ids, n - 1);
        let after = wanting(p, ids, n);
        let last = ids[n - 1];
        assert(ids.take(n) =~= ids.take(n - 1).push(last));
        let t = ids.take(n - 1);
        let u = t.push(last);
        assert(u[n - 1] == last);
        if t.contains(id) {
            let k = choose|k: int| 0 <= k < t.len() && t[k] == id;
            assert(u[k] == id);
        }
        if u.contains(id) && id != last {
            let k = choose|k: int| 0 <= k < u.len() && u[k] == id;
            assert(t[k] == id);
        }
        if wants_recovery(p.accounts[last]) {
            assert(after[after.len() - 1] == last);
            if before.contains(id) {
                let k = choose|k: int| 0 <= k < before.len() && before[k] == id;
                assert(after[k] == id);
            }
            if after.contains(id) && id != last {
                let k = choose|k: int| 0 <= k < after.len() && after[k] == id;
                assert(before[k] == id);
            }
        }
    }
}

/// The statuses show each account once, and no other.
pub proof fn law_every_account_is_shown(p: PoolV, statuses: Seq<StatusV>, id: Seq<char>)
    requires
        all_statuses(p, statuses),
        p.accounts.dom().contains(id),
    ensures
        statuses.contains(status_of(p.accounts[id], p.max)),
{
    let ids = choose|ids: Seq<Seq<char>>| #[trigger]
        table::lists_all(ids, p.accounts.dom()) && statuses == Seq::new(
            ids.len(),
            |i: int| status_of(p.accounts[ids[i]], p.max),
        );
    let j = choose|j: int| 0 <= j < ids.len() && #[trigger] ids[j] == id;
    assert(statuses[j] == status_of(p.accounts[id], p.max));
}

/// The message of an error ends with the words or the name that it was given.
pub proof fn law_pool_errors_keep_their_words(m: Seq<char>)
    ensures
        text::stands_at(
            pool_error_text(PoolErrorV::Client(m)),
            m,
            pool_error_text(PoolErrorV::Client(m)).len() - m.len(),
        ),
        text::stands_at(
            pool_error_text(PoolErrorV::Pow(m)),
            m,
            pool_error_text(PoolErrorV::Pow(m)).len() - m.len(),
        ),
        text::stands_at(
            pool_error_text(PoolErrorV::Validation(m)),
            m,
            pool_error_text(PoolErrorV::Validation(m)).len() - m.len(),
        ),
        text::stands_at(
            pool_error_text(PoolErrorV::AlreadyExists(m)),
            m,
            pool_error_text(PoolErrorV::AlreadyExists(m)).len() - m.len(),
        ),
        text::stands_at(
            pool_error_text(PoolErrorV::NotFound(m)),
            m,
            pool_error_text(PoolErrorV::NotFound(m)).len() - m.len(),
        ),
        text::stands_at(
            pool_error_text(PoolErrorV::AccountBusy(m)),
            m,
            pool_error_text(PoolErrorV::AccountBusy(m)).len() - m.len(),
        ),
{
    let a = pool_error_text(PoolErrorV::Client(m));
    let b = pool_error_text(PoolErrorV::Pow(m));
    let c = pool_error_text(PoolErrorV::Validation(m));
    let d = pool_error_text(PoolErrorV::AlreadyExists(m));
    let e = pool_error_text(PoolErrorV::NotFound(m));
    let f = pool_error_text(PoolErrorV::AccountBusy(m));
    assert(a.subrange(a.len() - m.len(), a.len() as int) =~= m);
    assert(b.subrange(b.len() - m.len(), b.len() as int) =~= m);
    assert(c.subrange(c.len() - m.len(), c.len() as int) =~= m);
    assert(d.subrange(d.len() - m.len(), d.len() as int) =~= m);
    assert(e.subrange(e.len() - m.len(), e.len() as int) =~= m);
    assert(f.subrange(f.len() - m.len(), f.len() as int) =~= m);
}

/// Whoever cannot log an account in again is told which one is missing or in use,
/// or what state it is in.
pub proof fn law_refused_login_is_explained(p: PoolV, id: Seq<char>)
    ensures
        !p.accounts.dom().contains(id) ==> (re_login_error(p, true, id) matches Some(m)
            && text::occurs(m, id)),
        p.accounts.dom().contains(id) && serves(p.accounts[id]) ==> (re_login_error(p, true, id)
            matches Some(m) && text::occurs(m, state_name(p.accounts[id].state))),
        p.accounts.dom().contains(id) && !serves(p.accounts[id]) && p.accounts[id].active > 0 ==> (
        re_login_error(p, true, id) matches Some(m) && text::occurs(m, shown_id(p.accounts[id]))),
        re_login_error(p, false, id) is Some,
{
    let a = p.accounts[id];
    text::lemma_occurs_between("Tài khoản "@, id, " không tồn tại"@);
    text::lemma_occurs_between(
        "Trạng thái tài khoản là "@,
        state_name(a.state),
        ", chỉ Error/Invalid mới được đăng nhập lại"@,
    );
    text::lemma_occurs_between(
        "Tài khoản "@,
        shown_id(a),
        " đang được sử dụng, thử lại sau"@,
    );
}

/// States have different names.
pub proof fn law_state_names_differ(a: AccountState, b: AccountState)
    requires
        state_name(a) == state_name(b),
    ensures
        a == b,
{
    reveal_strlit("idle");
    reveal_strlit("busy");
    reveal_strlit("error");
    reveal_strlit("invalid");
    assert("idle"@.len() == 4 && "busy"@.len() == 4 && "error"@.len() == 5 && "invalid"@.len()
        == 7);
    assert("idle"@[0] == 'i' && "busy"@[0] == 'b');
}

} // verus!
