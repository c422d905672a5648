use ds_free_api::config::{
    builtin_model_aliases, choose_path, missing_file, parse_args, plan_load, split_names, Account,
    ApiKeyEntry, Config, ConfigError, ContextConfig, DeepSeekConfig, EnvOverrides, LoadPlan,
    ToolCallTagConfig,
};

fn texts(items: &[&str]) -> Vec<String> {
    items.iter().map(|s| s.to_string()).collect()
}

fn no_env() -> EnvOverrides {
    EnvOverrides { platform_port: None, port: None, host: None, cors_origins: None }
}

fn account(email: &str, mobile: &str, password: &str) -> Account {
    Account {
        email: email.to_string(),
        mobile: mobile.to_string(),
        area_code: String::new(),
        password: password.to_string(),
    }
}

fn key(k: &str) -> ApiKeyEntry {
    ApiKeyEntry { key: k.to_string(), description: String::new() }
}

fn complaint(c: &Config) -> String {
    assert!(c.can_validate());
    match c.validate() {
        Err(ConfigError::Validation(m)) => m,
        other => panic!("{:?}", other),
    }
}

#[test]
fn minimal_configuration_is_valid() {
    let c = Config::minimal();
    assert!(c.validate().is_ok());
    assert_eq!(c.server.host, "127.0.0.1");
    assert_eq!(c.server.port, 22217);
    assert_eq!(c.server.cors_origins, vec!["http://localhost:22217"]);
    assert_eq!(c.deepseek.api_base, "https://chat.deepseek.com/api/v0");
    assert_eq!(c.deepseek.model_types, vec!["default", "expert", "vision"]);
    assert_eq!(c.deepseek.input_character_limits, vec![2_621_440, 163_840, 2_621_440]);
    let context = ContextConfig::default();
    assert_eq!((context.trigger_chars, context.prewarm_chars), (24_000, 16_000));
    assert_eq!((context.keep_last_messages, context.chunk_chars), (12, 12_000));
    assert_eq!(context.summary_model_type, "default");
    let tags = ToolCallTagConfig::default();
    assert_eq!(tags.extra_starts, vec!["<|tool_call_begin|>", "<tool_calls>", "<tool_call>"]);
    assert_eq!(tags.extra_ends, vec!["<|tool_call_end|>", "</tool_calls>", "</tool_call>"]);
}

#[test]
fn every_complaint_is_made() {
    let mut c = Config::minimal();
    c.deepseek.model_types = vec![];
    assert_eq!(complaint(&c), "model_types không được để trống");

    let mut c = Config::minimal();
    c.deepseek.max_input_tokens = vec![1];
    assert_eq!(complaint(&c), "Độ dài max_input_tokens (1) phải khớp độ dài model_types (3)");

    let mut c = Config::minimal();
    c.deepseek.max_output_tokens = vec![];
    assert_eq!(complaint(&c), "Độ dài max_output_tokens (0) phải khớp độ dài model_types (3)");

    let mut c = Config::minimal();
    c.deepseek.input_character_limits = vec![1, 2, 3, 4];
    assert_eq!(
        complaint(&c),
        "Độ dài input_character_limits (4) phải khớp độ dài model_types (3)"
    );

    let mut c = Config::minimal();
    c.context.keep_last_messages = 0;
    assert_eq!(complaint(&c), "context.keep_last_messages must be > 0");
    c.context.enabled = false;
    assert!(c.validate().is_ok());

    let mut c = Config::minimal();
    c.context.trigger_chars = c.context.prewarm_chars - 1;
    assert_eq!(complaint(&c), "context.trigger_chars must be >= context.prewarm_chars");

    let mut c = Config::minimal();
    c.context.summary_workers = 0;
    assert_eq!(complaint(&c), "context.chunk_chars and context.summary_workers must be > 0");

    let mut c = Config::minimal();
    c.api_keys = vec![key("sk-0123456789abcdef"), key("x"), key("sk-0123456789abcdef")];
    assert_eq!(complaint(&c), "API key bị trùng: sk-012345678...");
    c.api_keys = vec![key("x"), key("x")];
    assert_eq!(complaint(&c), "API key bị trùng: x...");
    c.api_keys = vec![key("12345678901ăzz"), key("12345678901ăzz")];
    assert!(!c.can_validate());
    c.api_keys = vec![key("12345678901ăzz"), key("y")];
    assert!(c.can_validate() && c.validate().is_ok());
}

#[test]
fn first_of_equal_accounts_stays() {
    let mut c = Config::minimal();
    c.accounts = vec![
        account("a", "1", "p1"),
        account("", "2", "p2"),
        account("a", "3", "p3"),
        account("", "2", "p4"),
        account("2", "", "p5"),
        account("b", "", "p6"),
    ];
    c.dedup_accounts();
    let kept: Vec<&str> = c.accounts.iter().map(|a| a.password.as_str()).collect();
    assert_eq!(kept, vec!["p1", "p2", "p6"]);
    c.dedup_accounts();
    assert_eq!(c.accounts.len(), 3);
}

#[test]
fn environment_overrides_the_file() {
    let mut c = Config::minimal();
    assert!(c.apply_env_overrides(&no_env()).is_ok());
    assert_eq!((c.server.host.as_str(), c.server.port), ("127.0.0.1", 22217));

    let env = EnvOverrides { platform_port: Some("8080".into()), ..no_env() };
    assert!(c.apply_env_overrides(&env).is_ok());
    assert_eq!((c.server.host.as_str(), c.server.port), ("0.0.0.0", 8080));

    let env = EnvOverrides {
        platform_port: Some("nonsense".into()),
        port: Some("+99".into()),
        host: Some("  ".into()),
        cors_origins: Some(" a , ,b".into()),
    };
    assert!(c.apply_env_overrides(&env).is_ok());
    assert_eq!((c.server.host.as_str(), c.server.port), ("0.0.0.0", 99));
    assert_eq!(c.server.cors_origins, vec!["a", "b"]);

    let env = EnvOverrides { host: Some(" h ".into()), cors_origins: Some(",".into()), ..no_env() };
    assert!(c.apply_env_overrides(&env).is_ok());
    assert_eq!(c.server.host, "h");
    assert_eq!(c.server.cors_origins, vec!["a", "b"]);

    for bad in ["65536", "-1", "", "8o", "+"] {
        let env = EnvOverrides { port: Some(bad.into()), ..no_env() };
        let e = c.apply_env_overrides(&env).unwrap_err();
        assert_eq!(
            e.message(),
            format!("Lỗi xác thực cấu hình: PORT/DS_PORT không hợp lệ: {}", bad)
        );
    }
    assert_eq!(c.server.port, 99);
}

#[test]
fn settling_does_all_of_it() {
    let mut c = Config::minimal();
    c.accounts = vec![account("a", "", "p"), account("a", "", "q")];
    let env = EnvOverrides { port: Some("1".into()), ..no_env() };
    assert!(c.can_settle(&env) && c.settle(&env).is_ok());
    assert_eq!((c.accounts.len(), c.server.port), (1, 1));
    c.deepseek.model_types = vec![];
    assert!(matches!(c.settle(&env), Err(ConfigError::Validation(_))));
    let mut odd = Config::minimal();
    odd.api_keys = vec![key("12345678901ăzz"), key("12345678901ăzz")];
    assert!(!odd.can_settle(&env));
    let bad_port = EnvOverrides { port: Some("x".into()), ..no_env() };
    assert!(odd.can_settle(&bad_port));
    match odd.settle(&bad_port) {
        Err(ConfigError::Validation(m)) => assert_eq!(m, "PORT/DS_PORT không hợp lệ: x"),
        other => panic!("{:?}", other),
    }
}

#[test]
fn arguments_name_the_file() {
    assert!(matches!(parse_args(&texts(&[])), Ok(None)));
    assert!(matches!(parse_args(&texts(&["-c"])), Ok(None)));
    assert!(matches!(parse_args(&texts(&["prog", "x"])), Ok(None)));
    assert!(
        matches!(parse_args(&texts(&["prog", "-c", "a", "-c", "b"])), Ok(Some(p)) if p == "b")
    );
    assert!(matches!(parse_args(&texts(&["prog", "-c", "-c"])), Ok(Some(p)) if p == "-c"));
    let e = parse_args(&texts(&["prog", "-c"])).unwrap_err();
    assert_eq!(e.message(), "Lỗi tham số dòng lệnh: Tham số -c cần đường dẫn cấu hình");
    assert_eq!(choose_path(&Some("a".into()), &Some("b".into())), "a");
    assert_eq!(choose_path(&None, &Some("b".into())), "b");
    assert_eq!(choose_path(&None, &None), "config.toml");
    assert!(matches!(plan_load("p".into(), true, true), LoadPlan::Read(p) if p == "p"));
    assert!(matches!(plan_load("p".into(), false, false), LoadPlan::Create(p) if p == "p"));
    assert!(matches!(plan_load("p".into(), true, false), LoadPlan::Missing(p) if p == "p"));
    assert_eq!(
        missing_file("p").message(),
        "Lỗi IO: Tệp cấu hình được chỉ định không tồn tại: p"
    );
    assert_eq!(ConfigError::Toml("t".into()).message(), "Lỗi phân tích TOML: t");
    assert_eq!(ConfigError::TomlSerialization("t".into()).message(), "Lỗi serialize TOML: t");
}

#[test]
fn registry_leads_every_name_to_its_type() {
    let mut d = DeepSeekConfig::default();
    d.model_types = texts(&["default", "Expert"]);
    d.model_aliases = texts(&[" My-Model ,ÂM,", "", "unused"]);
    let r = d.model_registry();
    for (name, ty) in [
        ("deepseek-default", "default"),
        ("deepseek-expert", "Expert"),
        ("my-model", "default"),
        ("âm", "default"),
        ("deepseek-v4-flash", "default"),
    ] {
        assert_eq!(r.get(name).map(|s| s.as_str()), Some(ty), "{}", name);
    }
    assert!(!r.contains_key("unused") && !r.contains_key("") && !r.contains_key("My-Model"));
    // Only the exact name of a type brings its own further names.
    assert!(!r.contains_key("deepseek-v4-pro"));
    assert_eq!(split_names(" a ,,b "), vec!["a", "b"]);
    assert_eq!(
        builtin_model_aliases("vision"),
        vec!["deepseek-v4-vision", "deepseek-v4-vision-nothinking"]
    );
    assert!(builtin_model_aliases("other").is_empty());
}
