use base64::Engine;
use ds_free_api::config::{ApiKeyEntry, Config};
use ds_free_api::encoding::encode;
use ds_free_api::server::auth::{
    check_login_at, check_setup_at, issue_token, login_admin, setup_admin, sign_jwt, sign_jwt_at,
    verify_jwt, verify_jwt_at, LoginLimiter,
};
use ds_free_api::server::store::{
    generate_hex_secret, hash_password, stats_to_read, StatsStore, StoreManager,
};

fn store(secret: &str) -> StoreManager {
    let mut c = Config::minimal();
    c.admin.jwt_secret = secret.to_string();
    StoreManager::new(c, StatsStore::default())
}

#[test]
fn token_has_the_usual_form() {
    let mut s = store("secret");
    let t = sign_jwt_at(&mut s, 1_700_000_000).unwrap();
    let parts: Vec<&str> = t.split('.').collect();
    assert_eq!(parts.len(), 3);
    let engine = base64::engine::general_purpose::URL_SAFE_NO_PAD;
    assert_eq!(engine.decode(parts[0]).unwrap(), br#"{"alg":"HS256","typ":"JWT"}"#);
    assert_eq!(
        engine.decode(parts[1]).unwrap(),
        br#"{"sub":"admin","iat":1700000000,"exp":1700086400}"#
    );
    assert_eq!(engine.decode(parts[2]).unwrap().len(), 32);
    assert_eq!(s.jwt_issued_at(), Some(1_700_000_000));
}

#[test]
fn signed_token_is_accepted_until_its_end() {
    let mut s = store("secret");
    let t = sign_jwt_at(&mut s, 1000).unwrap();
    assert!(verify_jwt_at(&s, &t, 1000));
    assert!(verify_jwt_at(&s, &t, 1000 + 86_400 + 60));
    assert!(!verify_jwt_at(&s, &t, 1000 + 86_400 + 61));
}

#[test]
fn later_token_voids_earlier_ones() {
    let mut s = store("secret");
    let first = sign_jwt_at(&mut s, 1000).unwrap();
    let second = sign_jwt_at(&mut s, 1001).unwrap();
    assert!(!verify_jwt_at(&s, &first, 1002));
    assert!(verify_jwt_at(&s, &second, 1002));
}

#[test]
fn forged_tokens_are_refused() {
    let mut s = store("secret");
    let t = sign_jwt_at(&mut s, 1000).unwrap();
    let mut other = store("other");
    let forged = sign_jwt_at(&mut other, 1000).unwrap();
    assert!(!verify_jwt_at(&s, &forged, 1000));
    assert!(!verify_jwt_at(&s, "", 1000));
    assert!(!verify_jwt_at(&s, "a.b", 1000));
    assert!(!verify_jwt_at(&s, &format!("{}.x", t), 1000));
    assert!(!verify_jwt_at(&s, &t[..t.len() - 1], 1000));
    let mut none = store("");
    assert!(sign_jwt_at(&mut none, 1000).is_none());
    assert!(!verify_jwt_at(&none, &t, 1000));
    assert_eq!(issue_token(&mut none).unwrap_err(), "Không ký được JWT");
}

#[test]
fn token_of_now_is_accepted_now() {
    let mut s = store("secret");
    let t = sign_jwt(&mut s).unwrap();
    assert!(verify_jwt(&s, &t));
    assert!(s.jwt_issued_at().unwrap() > 1_577_836_800);
}

#[test]
fn five_failures_lock_the_login() {
    let mut l = LoginLimiter::new();
    for _ in 0..4 {
        l.record_failure_at(100);
        assert!(!l.is_locked_at(100));
    }
    l.record_failure_at(100);
    assert!(l.is_locked_at(100));
    assert_eq!(l.remaining_lock_secs_at(100), 300);
    assert!(l.is_locked_at(399));
    assert_eq!(l.remaining_lock_secs_at(399), 1);
    assert!(!l.is_locked_at(400));
    assert_eq!(l.fail_count, 0);
    l.record_failure_at(500);
    l.record_success();
    assert_eq!(l.fail_count, 0);
}

#[test]
fn clock_locks_and_unlocks() {
    let mut l = LoginLimiter::new();
    assert!(!l.is_locked());
    assert_eq!(l.remaining_lock_secs(), 0);
    for _ in 0..5 {
        l.record_failure();
    }
    assert!(l.is_locked());
    let left = l.remaining_lock_secs();
    assert!(left > 290 && left <= 300);
}

#[test]
fn first_password_is_set_once() {
    let mut s = store("");
    let mut l = LoginLimiter::new();
    assert_eq!(
        check_setup_at(&s, &mut l, "12345", 10).unwrap(),
        "Mật khẩu phải có tối thiểu 6 ký tự"
    );
    assert_eq!(l.fail_count, 1);
    assert_eq!(
        login_admin(&mut s, &mut l, "123456").unwrap_err(),
        "Chưa đặt mật khẩu, hãy dùng API setup trước"
    );
    setup_admin(&mut s, &mut l, "123456").unwrap();
    assert!(s.has_password());
    assert_eq!(s.config.admin.jwt_secret.len(), 64);
    assert_eq!(
        setup_admin(&mut s, &mut l, "123456").unwrap_err(),
        "Mật khẩu đã được đặt, hãy dùng API đăng nhập"
    );
    assert_eq!(login_admin(&mut s, &mut l, "wrong!").unwrap_err(), "Mật khẩu không đúng");
    let t = login_admin(&mut s, &mut l, "123456").unwrap();
    assert!(verify_jwt(&s, &t));
    assert_eq!(l.fail_count, 0);
}

#[test]
fn locked_login_does_not_look_at_the_password() {
    let mut s = store("secret");
    s.config.admin.password_hash = "x".to_string();
    let mut l = LoginLimiter::new();
    for _ in 0..5 {
        assert_eq!(check_login_at(&s, &mut l, "p", 50).unwrap(), "Mật khẩu không đúng");
    }
    assert_eq!(
        check_login_at(&s, &mut l, "p", 60).unwrap(),
        "Đăng nhập sai quá nhiều lần, hãy thử lại sau 290 giây"
    );
    let mut l = LoginLimiter::new();
    for _ in 0..5 {
        l.record_failure_at(0);
    }
    assert_eq!(
        check_setup_at(&store(""), &mut l, "123456", 1).unwrap(),
        "Quá nhiều yêu cầu, hãy thử lại sau 299 giây"
    );
}

#[test]
fn password_belongs_to_its_hash() {
    let h = hash_password("correct horse").unwrap();
    assert!(h.starts_with("$2b$12$") && h.len() == 60);
    let mut s = store("");
    s.config.admin.password_hash = h;
    assert!(s.verify_password("correct horse"));
    assert!(!s.verify_password("wrong horse"));
    s.config.admin.password_hash = "no hash".to_string();
    assert!(!s.verify_password("correct horse"));
}

#[test]
fn secrets_are_hexadecimal_and_differ() {
    let a = generate_hex_secret();
    assert_eq!(a.len(), 64);
    assert!(a.chars().all(|c| c.is_ascii_hexdigit()));
    assert_ne!(a, generate_hex_secret());
    assert_eq!(encode(&[0, 15, 255]), "000fff");
}

#[test]
fn keys_are_looked_up() {
    let mut s = store("");
    s.config.api_keys = vec![ApiKeyEntry {
        key: "sk-1".to_string(),
        description: String::new(),
    }];
    assert!(s.is_valid_api_key("sk-1"));
    assert!(!s.is_valid_api_key("sk-2"));
    assert!(!s.is_valid_api_key(""));
    s.save_admin("h".to_string(), "s".to_string(), 5);
    assert_eq!(s.jwt_secret().as_deref(), Some("s"));
    assert_eq!(s.jwt_issued_at(), Some(5));
    s.set_jwt_issued_at(0);
    assert_eq!(s.jwt_issued_at(), None);
}

#[test]
fn blank_file_of_counts_is_passed_over() {
    assert_eq!(stats_to_read(None), None);
    assert_eq!(stats_to_read(Some(" \n\t".to_string())), None);
    assert_eq!(stats_to_read(Some("{}".to_string())).as_deref(), Some("{}"));
}
