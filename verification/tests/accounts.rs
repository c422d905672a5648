use ds_free_api::config;
use ds_free_api::ds_core::accounts::{
    Account, AccountPool, AccountState, PoolError, WaitStep,
};
use ds_free_api::ds_core::attempt::Served;
use ds_free_api::ds_core::login::{check_trial, AccountLogin, LoginAction};
use ds_free_api::ds_core::sessions::{ActiveSession, GuardedStream, Sessions};
use ds_free_api::ds_core::{CoreError, DeepSeekCore};

fn account_config(email: &str) -> config::Account {
    config::Account {
        email: email.to_string(),
        mobile: String::new(),
        area_code: String::new(),
        password: "pass".to_string(),
    }
}

fn idle_account(email: &str, last_released_ms: i64) -> Account {
    Account {
        token: "token".to_string(),
        email: email.to_string(),
        mobile: String::new(),
        state: AccountState::Idle,
        active_count: 0,
        last_released: last_released_ms,
        error_count: 0,
        creds: account_config(email),
    }
}

#[test]
fn get_account_claims_distinct_idle_accounts_without_waiting() {
    let mut pool = AccountPool::new(1);
    let ids = ["user0@example.com", "user1@example.com", "user2@example.com"];

    for (idx, id) in ids.iter().enumerate() {
        let last_released_ms = i64::try_from(idx).expect("test index fits i64");
        pool.insert(idle_account(id, last_released_ms));
    }

    let guard_a = pool.get_account().expect("first idle account should be claimed");
    let guard_b = pool.get_account().expect("second idle account should be claimed");
    let guard_c = pool.get_account().expect("third idle account should be claimed");

    let mut claimed = [
        guard_a.account(&pool).display_id().to_string(),
        guard_b.account(&pool).display_id().to_string(),
        guard_c.account(&pool).display_id().to_string(),
    ];
    claimed.sort();
    let expected = [
        "user0@example.com".to_string(),
        "user1@example.com".to_string(),
        "user2@example.com".to_string(),
    ];

    assert_eq!(
        claimed, expected,
        "pool should claim each idle account once before reporting exhaustion"
    );
    assert!(
        pool.get_account().is_none(),
        "pool should be exhausted while all guards are held"
    );
}

#[test]
fn get_account_allows_configured_parallel_claims_per_account() {
    let mut pool = AccountPool::new(2);
    pool.insert(idle_account("user0@example.com", 0));

    let guard_a = pool.get_account().expect("first claim should use account");
    let guard_b = pool
        .get_account()
        .expect("second claim should share account when limit is 2");

    assert_eq!(guard_a.account(&pool).display_id(), "user0@example.com");
    assert_eq!(guard_b.account(&pool).display_id(), "user0@example.com");
    assert_eq!(guard_a.account(&pool).visible_state(), AccountState::Busy);
    assert_eq!(guard_a.account(&pool).active_count, 2);
    assert!(
        pool.get_account().is_none(),
        "pool should be exhausted after configured per-account limit"
    );

    pool.release(guard_a);
    assert_eq!(guard_b.account(&pool).active_count, 1);
    pool.release(guard_b);
    let status = pool.account_statuses();
    assert_eq!(status[0].state, "idle");
    assert_eq!(status[0].active_count, 0);
    assert_eq!(status[0].max_concurrent, 2);
}

#[test]
fn longest_unused_account_comes_first() {
    let mut pool = AccountPool::new(1);
    pool.insert(idle_account("late@x", 900));
    pool.insert(idle_account("early@x", 100));
    pool.insert(idle_account("middle@x", 500));
    assert_eq!(pool.get_account().unwrap().account_id, "early@x");
    assert_eq!(pool.get_account().unwrap().account_id, "middle@x");
    assert_eq!(pool.get_account().unwrap().account_id, "late@x");
}

#[test]
fn unused_account_comes_before_used_one() {
    let mut pool = AccountPool::new(2);
    pool.insert(idle_account("a@x", 1));
    pool.insert(idle_account("b@x", 2));
    assert_eq!(pool.get_account().unwrap().account_id, "a@x");
    assert_eq!(pool.get_account().unwrap().account_id, "b@x");
    assert_eq!(pool.get_account().unwrap().account_id, "a@x");
}

#[test]
fn release_notes_the_time_and_reads_the_clock() {
    let mut pool = AccountPool::new(0);
    assert_eq!(pool.max_concurrent_per_account(), 1);
    pool.insert(idle_account("a@x", 1));
    let g = pool.get_account().unwrap();
    pool.release_at(g, 4321);
    assert_eq!(pool.account_statuses()[0].last_released_ms, 4321);
    let g = pool.get_account().unwrap();
    pool.release(g);
    // Long after the first of January 2020, and in milliseconds.
    let at = pool.account_statuses()[0].last_released_ms;
    assert!(at > 1_577_836_800_000 && at < 10_000_000_000_000);
}

#[test]
fn used_account_is_not_removed() {
    let mut pool = AccountPool::new(1);
    pool.insert(idle_account("a@x", 0));
    let g = pool.get_account().unwrap();
    assert!(matches!(pool.remove_account("a@x"), Err(PoolError::AccountBusy(id)) if id == "a@x"));
    assert!(matches!(pool.remove_account("b@x"), Err(PoolError::NotFound(id)) if id == "b@x"));
    pool.release_at(g, 1);
    assert_eq!(pool.remove_account("a@x").unwrap(), "a@x");
    assert!(pool.account_statuses().is_empty());
}

#[test]
fn waiting_ends_at_the_deadline() {
    let mut pool = AccountPool::new(1);
    assert!(matches!(pool.get_account_with_wait(10, 20), WaitStep::Sleep(200)));
    assert!(matches!(pool.get_account_with_wait(20, 20), WaitStep::GiveUp));
    pool.insert(idle_account("a@x", 0));
    assert!(matches!(pool.get_account_with_wait(20, 20), WaitStep::Got(_)));
}

#[test]
fn account_in_error_is_logged_in_again() {
    let mut pool = AccountPool::new(1);
    pool.insert(idle_account("a@x", 0));
    assert_eq!(
        pool.begin_re_login(true, "a@x").unwrap(),
        "Trạng thái tài khoản là idle, chỉ Error/Invalid mới được đăng nhập lại"
    );
    pool.mark_error("a@x");
    pool.mark_error("unknown");
    assert!(pool.get_account().is_none());
    assert_eq!(pool.due_for_recovery(), vec!["a@x"]);
    assert_eq!(pool.begin_re_login(false, "a@x").unwrap(), "client/solver chưa được khởi tạo");
    assert_eq!(pool.begin_re_login(true, "b@x").unwrap(), "Tài khoản b@x không tồn tại");
    assert!(pool.begin_re_login(true, "a@x").is_none());
    assert_eq!(
        pool.finish_re_login("a@x", None).unwrap(),
        "Đăng nhập lại thất bại, trạng thái hiện tại: error"
    );
    pool.finish_re_login("a@x", None);
    assert_eq!(
        pool.finish_re_login("a@x", None).unwrap(),
        "Đăng nhập lại thất bại, trạng thái hiện tại: invalid"
    );
    assert!(pool.due_for_recovery().is_empty());
    assert!(pool.finish_re_login("a@x", Some("new".to_string())).is_none());
    let g = pool.get_account().unwrap();
    assert_eq!(g.account(&pool).token(), "new");
    pool.mark_error("a@x");
    assert_eq!(
        pool.begin_re_login(true, "a@x").unwrap(),
        "Tài khoản a@x đang được sử dụng, thử lại sau"
    );
}

#[test]
fn failed_logins_are_shown_as_invalid() {
    let mut pool = AccountPool::new(1);
    let mut phone = account_config("");
    phone.mobile = "0123".to_string();
    pool.init(vec![(account_config("a@x"), Some("t".to_string())), (phone, None)]);
    let mut seen: Vec<(String, String, u8)> = pool
        .account_statuses()
        .into_iter()
        .map(|s| (format!("{}{}", s.email, s.mobile), s.state, s.error_count))
        .collect();
    seen.sort();
    assert_eq!(
        seen,
        vec![
            ("0123".to_string(), "invalid".to_string(), 3),
            ("a@x".to_string(), "idle".to_string(), 0)
        ]
    );
    assert!(matches!(
        pool.begin_add(&account_config("a@x")),
        Err(PoolError::AlreadyExists(id)) if id == "a@x"
    ));
    assert_eq!(pool.begin_add(&account_config("c@x")).unwrap(), "c@x");
}

#[test]
fn pool_errors_have_messages() {
    assert_eq!(PoolError::AllAccountsFailed.message(), "Tất cả tài khoản khởi tạo thất bại");
    assert_eq!(PoolError::Client("x".to_string()).message(), "Lỗi client: x");
    assert_eq!(PoolError::Pow("x".to_string()).message(), "Tính PoW thất bại: x");
    assert_eq!(PoolError::Validation("x".to_string()).message(), "Lỗi cấu hình tài khoản: x");
    assert_eq!(PoolError::AlreadyExists("x".to_string()).message(), "Tài khoản đã tồn tại: x");
    assert_eq!(PoolError::NotFound("x".to_string()).message(), "Tài khoản không tồn tại: x");
    assert_eq!(PoolError::AccountBusy("x".to_string()).message(), "Tài khoản đang được sử dụng: x");
    assert!(matches!(
        CoreError::from_pool(PoolError::Validation("x".to_string())),
        CoreError::ProviderError(m) if m == "Lỗi cấu hình: x"
    ));
    assert!(matches!(
        CoreError::from_pool(PoolError::Pow("x".to_string())),
        CoreError::ProofOfWorkFailed(m) if m == "x"
    ));
    assert!(matches!(
        CoreError::from_pool(PoolError::NotFound("x".to_string())),
        CoreError::ProviderError(m) if m == "Tài khoản không tồn tại: x"
    ));
}

#[test]
fn login_is_tried_out() {
    let mut l = AccountLogin::new();
    match l.begin(&account_config("a@x")) {
        LoginAction::Login(p) => {
            assert_eq!(p.email.as_deref(), Some("a@x"));
            assert_eq!(p.mobile, None);
            assert_eq!(p.area_code, None);
            assert_eq!(p.password, "pass");
            assert_eq!(p.device_id, "");
            assert_eq!(p.os, "web");
        }
        other => panic!("{:?}", other),
    }
    assert!(matches!(l.on_login(Ok("tok".to_string())), LoginAction::CreateSession));
    assert!(matches!(l.on_session(Ok("s1".to_string())), LoginAction::SolvePow));
    match l.on_proof(None) {
        LoginAction::SendCompletion(p) => {
            assert_eq!(p.chat_session_id, "s1");
            assert_eq!(p.prompt, "Chỉ trả lời `Hello, world!`");
            assert_eq!(p.model_type, "default");
        }
        other => panic!("{:?}", other),
    }
    assert!(matches!(l.on_completion(None), LoginAction::ReadChunk));
    assert!(matches!(l.on_chunk(Some(Ok(b"data: \"FINI".to_vec()))), LoginAction::ReadChunk));
    assert!(matches!(l.on_chunk(Some(Ok(b"SHED\"".to_vec()))), LoginAction::ReadChunk));
    assert!(matches!(l.on_chunk(None), LoginAction::Good { token } if token == "tok"));
}

#[test]
fn login_fails_for_many_reasons() {
    let mut l = AccountLogin::new();
    assert!(matches!(
        l.begin(&account_config("")),
        LoginAction::Bad { delete_session: false, error: PoolError::Validation(m) }
            if m == "email và mobile không được đồng thời để trống"
    ));
    let mut l = AccountLogin::new();
    l.begin(&account_config("a@x"));
    assert!(matches!(
        l.on_login(Err("no".to_string())),
        LoginAction::Bad { delete_session: false, error: PoolError::Client(m) } if m == "no"
    ));
    let mut l = AccountLogin::new();
    l.begin(&account_config("a@x"));
    l.on_login(Ok("t".to_string()));
    l.on_session(Ok("s".to_string()));
    assert!(matches!(
        l.on_proof(Some(PoolError::Pow("bad".to_string()))),
        LoginAction::Bad { delete_session: true, error: PoolError::Pow(_) }
    ));
    assert!(matches!(
        check_trial("{\"biz_code\":1} \"FINISHED\""),
        Some(PoolError::Validation(m)) if m == "Tài khoản bất thường (muted/limited)"
    ));
    assert!(matches!(
        check_trial("data"),
        Some(PoolError::Validation(m)) if m == "Stream SSE không kết thúc bình thường"
    ));
    assert!(check_trial("\"INCOMPLETE\"").is_none());
}

#[test]
fn answer_that_breaks_off_is_stopped() {
    let mut pool = AccountPool::new(1);
    pool.insert(idle_account("a@x", 0));
    let g = pool.get_account().unwrap();
    let mut s = GuardedStream::new((), g, "t".to_string(), "s".to_string(), 7);
    assert_eq!(s.on_item(Some(Ok(vec![1, 2]))).unwrap().unwrap(), vec![1, 2]);
    assert!(matches!(
        s.on_item(Some(Err("gone".to_string()))),
        Some(Err(CoreError::Stream(m))) if m == "gone"
    ));
    let (guard, bye) = s.farewell();
    let stop = bye.stop.unwrap();
    assert_eq!(stop.chat_session_id, "s");
    assert_eq!(stop.message_id, 7);
    let mut s = GuardedStream::new((), guard, "t".to_string(), "s".to_string(), 7);
    assert!(s.on_item(None).is_none());
    let (guard, bye) = s.farewell();
    assert!(bye.stop.is_none());
    assert_eq!(bye.session_id, "s");
    pool.release_at(guard, 1);
    assert!(pool.get_account().is_some());
}

fn session(id: &str) -> ActiveSession {
    ActiveSession { token: "t".to_string(), session_id: id.to_string(), message_id: 1 }
}

#[test]
fn open_sessions_are_handed_out_at_the_end() {
    let mut s = Sessions::new();
    s.insert(session("a"));
    s.insert(session("b"));
    s.insert(session("c"));
    s.remove("b");
    s.remove("unknown");
    let mut ids: Vec<String> = s.take_all().into_iter().map(|x| x.session_id).collect();
    ids.sort();
    assert_eq!(ids, vec!["a", "c"]);
    assert!(s.take_all().is_empty());
}

#[test]
fn core_marks_and_shows_accounts() {
    let mut pool = AccountPool::new(1);
    pool.insert(idle_account("a@x", 0));
    let mut core = DeepSeekCore::new(pool, vec!["default".to_string()], vec![100]);
    core.mark_error("a@x");
    assert_eq!(core.account_statuses()[0].state, "error");
    assert_eq!(core.remove_account("a@x").unwrap(), "a@x");
    core.sessions.insert(session("a"));
    assert_eq!(core.shutdown().len(), 1);
    assert_eq!(core.route(&"x".repeat(75), "default").1, 75);
}

#[test]
fn answered_request_gives_all_back() {
    let mut pool = AccountPool::new(1);
    pool.insert(idle_account("a@x", 0));
    let mut core = DeepSeekCore::new(pool, vec!["default".to_string()], vec![100]);
    let guard = core.pool.get_account().unwrap();
    let served = Served {
        account_id: "a@x".to_string(),
        token: "t".to_string(),
        session_id: "s".to_string(),
        message_id: 7,
        buffered: vec![],
    };
    let stream = core.serve(served, guard, ());
    assert_eq!(stream.message_id, 7);
    assert_eq!(core.account_statuses()[0].state, "busy");
    let bye = core.close(stream, 99);
    assert_eq!((bye.token.as_str(), bye.session_id.as_str()), ("t", "s"));
    assert_eq!(bye.stop.map(|p| p.message_id), Some(7));
    let status = &core.account_statuses()[0];
    assert_eq!((status.state.as_str(), status.last_released_ms), ("idle", 99));
    assert!(core.shutdown().is_empty());
}

#[test]
fn account_to_blame_is_kept_off() {
    let mut pool = AccountPool::new(2);
    pool.insert(idle_account("a@x", 0));
    let mut core = DeepSeekCore::new(pool, vec!["default".to_string()], vec![100]);
    let guard = core.pool.get_account().unwrap();
    core.give_up(guard, false, 5);
    assert_eq!(core.account_statuses()[0].state, "idle");
    let guard = core.pool.get_account().unwrap();
    core.give_up(guard, true, 6);
    let status = &core.account_statuses()[0];
    assert_eq!((status.state.as_str(), status.active_count), ("error", 0));
    assert!(core.pool.get_account().is_none());
}
