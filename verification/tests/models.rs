use ds_free_api::config::{Config, DeepSeekConfig};
use ds_free_api::openai_adapter::models::{get, list};
use ds_free_api::openai_adapter::OpenAIAdapter;

#[test]
fn list_splits_comma_aliases() {
    let models = list(
        &["default".to_string()],
        &[1024],
        &[2048],
        &["deepseek-v4-flash, deepseek-v4-flash-nothinking".to_string()],
    );
    let ids = models.data.into_iter().map(|m| m.id).collect::<Vec<_>>();

    assert!(
        ids.contains(&"deepseek-default".to_string()),
        "base model missing"
    );
    assert!(
        ids.contains(&"deepseek-v4-flash".to_string()),
        "first alias missing"
    );
    assert!(
        ids.contains(&"deepseek-v4-flash-nothinking".to_string()),
        "second alias missing"
    );
}

#[test]
fn get_finds_split_alias() {
    let model = get(
        &["default".to_string()],
        &[1024],
        &[2048],
        &["deepseek-v4-flash, deepseek-v4-flash-nothinking".to_string()],
        "deepseek-v4-flash-nothinking",
    )
    .unwrap();

    assert_eq!(model.id, "deepseek-v4-flash-nothinking");
}

#[test]
fn model_is_found_in_any_case() {
    let types = ["default".to_string()];
    assert_eq!(get(&types, &[1], &[2], &[], "DeepSeek-Default").unwrap().id, "deepseek-default");
    assert!(get(&types, &[1], &[2], &[], "gpt-4").is_none());
}

#[test]
fn every_listed_model_is_registered() {
    let mut c = Config::minimal();
    c.deepseek = DeepSeekConfig::default();
    let mut adapter = OpenAIAdapter::new(&c);
    let models = adapter.list_models();
    assert_eq!(models.object, "list");
    assert!(models.data.len() >= 3);
    for m in models.data {
        assert!(adapter.get_model(&m.id).is_some());
        assert!(adapter.model_registry.contains_key(&m.id.to_lowercase()));
    }
    c.deepseek.model_types = vec!["only".to_string()];
    c.deepseek.model_aliases = vec![String::new()];
    adapter.reload_config(&c);
    let ids: Vec<String> = adapter.list_models().data.into_iter().map(|m| m.id).collect();
    assert_eq!(ids, vec!["deepseek-only"]);
}

#[test]
fn found_model_is_the_first_listed() {
    let types = ["a".to_string(), "B".to_string(), "b".to_string()];
    let aliases = ["x, deepseek-b".to_string(), "X".to_string(), "y".to_string()];
    let all = list(&types, &[1, 2, 3], &[4, 5, 6], &aliases).data;
    for id in ["deepseek-b", "x", "Y", "deepseek-A"] {
        let found = get(&types, &[1, 2, 3], &[4, 5, 6], &aliases, id).unwrap();
        let first = all.iter().find(|m| m.id.to_lowercase() == id.to_lowercase()).unwrap();
        assert_eq!((&found.id, found.max_tokens), (&first.id, first.max_tokens));
    }
    assert!(get(&types, &[], &[], &aliases, "z").is_none());
}
