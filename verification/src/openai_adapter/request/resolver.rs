//! Finding the model type that a request's model name stands for.

use vstd::hash_map::StringHashMap;
use vstd::prelude::*;

use crate::config;
use crate::openai_adapter::types::WebSearchOptions;
use crate::text;

verus! {

/// The model type of a request and what it is asked to do.
#[derive(Debug)]
pub struct ModelResolution {
    pub model_type: String,
    pub thinking_enabled: bool,
    pub search_enabled: bool,
}

/// The model type under a key, whether the model thinks and whether it searches;
/// nothing where there is no such key.
pub open spec fn resolution(
    types: Map<Seq<char>, Seq<char>>,
    key: Seq<char>,
    effort: Option<Seq<char>>,
) -> Option<(Seq<char>, bool, bool)> {
    if types.contains_key(key) {
        Some((types[key], effort != Some("none"@), true))
    } else {
        None
    }
}

/// What was found, as a model.
pub open spec fn found(r: Result<ModelResolution, String>) -> Option<(Seq<char>, bool, bool)> {
    match r {
        Ok(m) => Some((m.model_type@, m.thinking_enabled, m.search_enabled)),
        Err(_) => None,
    }
}

/// Finds the model type under a key of the registry.
///
/// The model thinks unless the effort is `none`; it always searches.
pub fn resolve_key(
    registry: &StringHashMap<String>,
    key: &str,
    model_id: &str,
    reasoning_effort: &Option<String>,
    web_search_options: &Option<WebSearchOptions>,
) -> (r: Result<ModelResolution, String>)
    ensures
        found(r) == resolution(
            config::texts_of(registry@),
            key@,
            reasoning_effort.deep_view(),
        ),
        match r {
            Ok(m) => {
                &&& config::texts_of(registry@).contains_key(key@)
                &&& m.model_type@ == config::texts_of(registry@)[key@]
                &&& m.thinking_enabled == (reasoning_effort matches Some(e) ==> e@ != "none"@)
                &&& m.search_enabled
            },
            Err(e) => !config::texts_of(registry@).contains_key(key@) && e@
                == "Mô hình không được hỗ trợ: "@ + model_id@,
        },
{
    match registry.get(key) {
        Some(model_type) => {
            let thinking_enabled = match reasoning_effort {
                Some(e) => !text::same(e.as_str(), "none"),
                None => true,
            };
            Ok(
                ModelResolution {
                    model_type: model_type.clone(),
                    thinking_enabled,
                    search_enabled: true,
                },
            )
        },
        None => Err(text::cat2("Mô hình không được hỗ trợ: ", model_id)),
    }
}

/// Finds the model type that a model name stands for, whatever its case.
pub fn resolve(
    registry: &StringHashMap<String>,
    model_id: &str,
    reasoning_effort: &Option<String>,
    web_search_options: &Option<WebSearchOptions>,
) -> (r: Result<ModelResolution, String>)
    ensures
        found(r) == resolution(
            config::texts_of(registry@),
            text::lowercase(model_id@),
            reasoning_effort.deep_view(),
        ),
        match r {
            Ok(m) => {
                &&& config::texts_of(registry@).contains_key(text::lowercase(model_id@))
                &&& m.model_type@ == config::texts_of(registry@)[text::lowercase(model_id@)]
                &&& m.thinking_enabled == (reasoning_effort matches Some(e) ==> e@ != "none"@)
                &&& m.search_enabled
            },
            Err(e) => !config::texts_of(registry@).contains_key(text::lowercase(model_id@)) && e@
                == "Mô hình không được hỗ trợ: "@ + model_id@,
        },
{
    let key = text::to_lowercase(model_id);
    resolve_key(registry, key.as_str(), model_id, reasoning_effort, web_search_options)
}

/// A model is found exactly where it is registered, as what it is registered; it
/// thinks unless it is asked not to, and always searches. Another model of the
/// registry does not matter.
pub proof fn law_registered_models_are_found(
    types: Map<Seq<char>, Seq<char>>,
    key: Seq<char>,
    model_type: Seq<char>,
    other: Seq<char>,
    effort: Option<Seq<char>>,
)
    ensures
        resolution(types.insert(key, model_type), key, effort) matches Some(r) && r.0 == model_type
            && r.2 && (r.1 <==> effort != Some("none"@)),
        resolution(types.remove(key), key, effort) is None,
        other != key ==> resolution(types.insert(key, model_type), other, effort) == resolution(
            types,
            other,
            effort,
        ),
{
}

} // verus!
