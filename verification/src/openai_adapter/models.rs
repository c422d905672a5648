//! The models that can be asked, from the configured model types and aliases.

use vstd::prelude::*;

use crate::config;
use crate::openai_adapter::types::{OpenAIModel, OpenAIModelList};
use crate::text;

verus! {

pub const MODEL_CREATED: u64 = 1_090_108_800;

pub const MODEL_OWNED_BY: &'static str = "deepseek-web (proxied by https://github.com/NIyueeE)";

/// The model of an `OpenAIModel`.
#[verifier::ext_equal]
pub struct ModelV {
    pub id: Seq<char>,
    pub object: Seq<char>,
    pub created: u64,
    pub owned_by: Seq<char>,
    pub max_input_tokens: Option<u32>,
    pub max_output_tokens: Option<u32>,
    pub context_length: Option<u32>,
    pub context_window: Option<u32>,
    pub max_context_length: Option<u32>,
    pub max_tokens: Option<u32>,
    pub max_completion_tokens: Option<u32>,
}

impl View for OpenAIModel {
    type V = ModelV;

    open spec fn view(&self) -> ModelV {
        ModelV {
            id: self.id@,
            object: self.object@,
            created: self.created,
            owned_by: self.owned_by@,
            max_input_tokens: self.max_input_tokens,
            max_output_tokens: self.max_output_tokens,
            context_length: self.context_length,
            context_window: self.context_window,
            max_context_length: self.max_context_length,
            max_tokens: self.max_tokens,
            max_completion_tokens: self.max_completion_tokens,
        }
    }
}

/// A model of the given name and limits.
pub open spec fn model_of(id: Seq<char>, input: Option<u32>, output: Option<u32>) -> ModelV {
    ModelV {
        id,
        object: "model"@,
        created: MODEL_CREATED,
        owned_by: MODEL_OWNED_BY@,
        max_input_tokens: input,
        max_output_tokens: output,
        context_length: input,
        context_window: input,
        max_context_length: input,
        max_tokens: output,
        max_completion_tokens: output,
    }
}

fn make_model(id: &str, input: Option<u32>, output: Option<u32>) -> (r: OpenAIModel)
    ensures
        r@ == model_of(id@, input, output),
{
    OpenAIModel {
        id: id.to_owned(),
        object: "model".to_owned(),
        created: MODEL_CREATED,
        owned_by: MODEL_OWNED_BY.to_owned(),
        max_input_tokens: input,
        max_output_tokens: output,
        context_length: input,
        context_window: input,
        max_context_length: input,
        max_tokens: output,
        max_completion_tokens: output,
    }
}

/// The number at position `i`, where there is one.
pub open spec fn at(v: Seq<u32>, i: int) -> Option<u32> {
    if 0 <= i < v.len() {
        Some(v[i])
    } else {
        None
    }
}

fn limit_at(v: &[u32], i: usize) -> (r: Option<u32>)
    ensures
        r == at(v@, i as int),
{
    if i < v.len() {
        Some(v[i])
    } else {
        None
    }
}

/// The models of the first `n` model types, under their own names.
pub open spec fn base_models(
    types: Seq<Seq<char>>,
    input: Seq<u32>,
    output: Seq<u32>,
    n: int,
) -> Seq<ModelV>
    decreases n,
{
    if n <= 0 {
        Seq::empty()
    } else {
        base_models(types, input, output, n - 1).push(
            model_of(config::base_name(types[n - 1]), at(input, n - 1), at(output, n - 1)),
        )
    }
}

/// Models with the first `k` of some names and the same limits.
pub open spec fn named_models(
    names: Seq<Seq<char>>,
    input: Option<u32>,
    output: Option<u32>,
    k: int,
) -> Seq<ModelV>
    decreases k,
{
    if k <= 0 {
        Seq::empty()
    } else {
        named_models(names, input, output, k - 1).push(model_of(names[k - 1], input, output))
    }
}

/// The models of the first `n` lists of aliases; a list without a model type
/// does not count.
pub open spec fn alias_models(
    types: Seq<Seq<char>>,
    input: Seq<u32>,
    output: Seq<u32>,
    aliases: Seq<Seq<char>>,
    n: int,
) -> Seq<ModelV>
    decreases n,
{
    if n <= 0 {
        Seq::empty()
    } else {
        let before = alias_models(types, input, output, aliases, n - 1);
        if n - 1 < types.len() {
            let names = config::listed_names(aliases[n - 1]);
            before + named_models(names, at(input, n - 1), at(output, n - 1), names.len() as int)
        } else {
            before
        }
    }
}

/// All models: those of the model types, then those of the aliases.
pub open spec fn all_models(
    types: Seq<Seq<char>>,
    input: Seq<u32>,
    output: Seq<u32>,
    aliases: Seq<Seq<char>>,
) -> Seq<ModelV> {
    base_models(types, input, output, types.len() as int) + alias_models(
        types,
        input,
        output,
        aliases,
        aliases.len() as int,
    )
}

/// The models of a list.
pub open spec fn models_view(v: Seq<OpenAIModel>) -> Seq<ModelV> {
    Seq::new(v.len(), |i: int| v[i]@)
}

fn push_model(data: &mut Vec<OpenAIModel>, model: OpenAIModel)
    ensures
        models_view(final(data)@) == models_view(old(data)@).push(model@),
{
    let ghost before = models_view(data@);
    data.push(model);
    assert(models_view(data@) =~= before.push(model@));
}

/// All models that can be asked.
pub fn list(
    model_types: &[String],
    max_input_tokens: &[u32],
    max_output_tokens: &[u32],
    aliases: &[String],
) -> (r: OpenAIModelList)
    ensures
        r.object@ == "list"@,
        models_view(r.data@) == all_models(
            text::strs(model_types@),
            max_input_tokens@,
            max_output_tokens@,
            text::strs(aliases@),
        ),
{
    let ghost types = text::strs(model_types@);
    let ghost lists = text::strs(aliases@);
    let mut data: Vec<OpenAIModel> = Vec::new();
    let mut i: usize = 0;
    assert(models_view(data@) =~= Seq::empty());
    while i < model_types.len()
        invariant
            i <= model_types@.len(),
            types == text::strs(model_types@),
            models_view(data@) == base_models(
                types,
                max_input_tokens@,
                max_output_tokens@,
                i as int,
            ),
        decreases model_types@.len() - i,
    {
        let name = text::cat2("deepseek-", model_types[i].as_str());
        let model = make_model(
            name.as_str(),
            limit_at(max_input_tokens, i),
            limit_at(max_output_tokens, i),
        );
        push_model(&mut data, model);
        i += 1;
    }
    let ghost base = models_view(data@);
    let mut i: usize = 0;
    assert(base + alias_models(types, max_input_tokens@, max_output_tokens@, lists, 0) =~= base);
    while i < aliases.len()
        invariant
            i <= aliases@.len(),
            types == text::strs(model_types@),
            lists == text::strs(aliases@),
            models_view(data@) == base + alias_models(
                types,
                max_input_tokens@,
                max_output_tokens@,
                lists,
                i as int,
            ),
        decreases aliases@.len() - i,
    {
        if i < model_types.len() {
            let names = config::split_names(aliases[i].as_str());
            let input = limit_at(max_input_tokens, i);
            let output = limit_at(max_output_tokens, i);
            let ghost before = models_view(data@);
            let mut k: usize = 0;
            assert(before + named_models(text::strs(names@), input, output, 0) =~= before);
            while k < names.len()
                invariant
                    k <= names@.len(),
                    models_view(data@) == before + named_models(
                        text::strs(names@),
                        input,
                        output,
                        k as int,
                    ),
                decreases names@.len() - k,
            {
                let ghost so_far = named_models(text::strs(names@), input, output, k as int);
                let model = make_model(names[k].as_str(), input, output);
                push_model(&mut data, model);
                assert((before + so_far).push(model@) =~= before + so_far.push(model@));
                k += 1;
            }
            assert(names@.len() == text::strs(names@).len());
            let ghost earlier = alias_models(
                types,
                max_input_tokens@,
                max_output_tokens@,
                lists,
                i as int,
            );
            let ghost added = named_models(text::strs(names@), input, output, names@.len() as int);
            assert(base + earlier + added =~= base + (earlier + added));
        }
        i += 1;
    }
    OpenAIModelList { object: "list".to_owned(), data }
}

/// The first of some names from position `k` on whose lower case is `target`.
pub open spec fn first_named(names: Seq<Seq<char>>, target: Seq<char>, k: int) -> Option<int>
    decreases names.len() - k,
{
    if k < 0 || k >= names.len() {
        None
    } else if text::lowercase(names[k]) == target {
        Some(k)
    } else {
        first_named(names, target, k + 1)
    }
}

/// The names that the model types have by themselves.
pub open spec fn base_names(types: Seq<Seq<char>>) -> Seq<Seq<char>> {
    Seq::new(types.len(), |i: int| config::base_name(types[i]))
}

/// The first model from the list of aliases at position `i` on whose name has
/// the lower case `target`.
pub open spec fn alias_model(
    types: Seq<Seq<char>>,
    input: Seq<u32>,
    output: Seq<u32>,
    aliases: Seq<Seq<char>>,
    target: Seq<char>,
    i: int,
) -> Option<ModelV>
    decreases aliases.len() - i,
{
    if i < 0 || i >= aliases.len() {
        None
    } else if i < types.len() {
        let names = config::listed_names(aliases[i]);
        match first_named(names, target, 0) {
            Some(k) => Some(model_of(names[k], at(input, i), at(output, i))),
            None => alias_model(types, input, output, aliases, target, i + 1),
        }
    } else {
        alias_model(types, input, output, aliases, target, i + 1)
    }
}

/// The model whose name has the lower case `target`: the model types' own
/// names come before the aliases.
pub open spec fn model_named(
    types: Seq<Seq<char>>,
    input: Seq<u32>,
    output: Seq<u32>,
    aliases: Seq<Seq<char>>,
    target: Seq<char>,
) -> Option<ModelV> {
    match first_named(base_names(types), target, 0) {
        Some(i) => Some(model_of(config::base_name(types[i]), at(input, i), at(output, i))),
        None => alias_model(types, input, output, aliases, target, 0),
    }
}

fn find_name(names: &Vec<String>, target: &str) -> (r: Option<usize>)
    ensures
        match r {
            Some(k) => first_named(text::strs(names@), target@, 0) == Some(k as int) && k
                < names@.len(),
            None => first_named(text::strs(names@), target@, 0) is None,
        },
{
    let mut k: usize = 0;
    while k < names.len()
        invariant
            k <= names@.len(),
            first_named(text::strs(names@), target@, 0) == first_named(
                text::strs(names@),
                target@,
                k as int,
            ),
        decreases names@.len() - k,
    {
        let lower = text::to_lowercase(names[k].as_str());
        if text::same(lower.as_str(), target) {
            return Some(k);
        }
        k += 1;
    }
    None
}

/// The model whose name has the lower case `target`.
pub fn find_model(
    model_types: &[String],
    max_input_tokens: &[u32],
    max_output_tokens: &[u32],
    aliases: &[String],
    target: &str,
) -> (r: Option<OpenAIModel>)
    ensures
        match r {
            Some(m) => model_named(
                text::strs(model_types@),
                max_input_tokens@,
                max_output_tokens@,
                text::strs(aliases@),
                target@,
            ) == Some(m@),
            None => model_named(
                text::strs(model_types@),
                max_input_tokens@,
                max_output_tokens@,
                text::strs(aliases@),
                target@,
            ) is None,
        },
{
    let ghost types = text::strs(model_types@);
    let ghost lists = text::strs(aliases@);
    let mut names: Vec<String> = Vec::new();
    let mut i: usize = 0;
    while i < model_types.len()
        invariant
            i <= model_types@.len(),
            names@.len() == i,
            types == text::strs(model_types@),
            text::strs(names@) =~= base_names(types).take(i as int),
        decreases model_types@.len() - i,
    {
        let name = text::cat2("deepseek-", model_types[i].as_str());
        text::add_line(&mut names, name.as_str());
        i += 1;
    }
    assert(text::strs(names@) =~= base_names(types));
    if let Some(i) = find_name(&names, target) {
        assert(names@[i as int]@ == text::strs(names@)[i as int]);
        return Some(
            make_model(
                names[i].as_str(),
                limit_at(max_input_tokens, i),
                limit_at(max_output_tokens, i),
            ),
        );
    }
    let mut i: usize = 0;
    while i < aliases.len()
        invariant
            i <= aliases@.len(),
            types == text::strs(model_types@),
            lists == text::strs(aliases@),
            model_named(types, max_input_tokens@, max_output_tokens@, lists, target@)
                == alias_model(
                types,
                max_input_tokens@,
                max_output_tokens@,
                lists,
                target@,
                i as int,
            ),
        decreases aliases@.len() - i,
    {
        if i < model_types.len() {
            let names = config::split_names(aliases[i].as_str());
            if let Some(k) = find_name(&names, target) {
                return Some(
                    make_model(
                        names[k].as_str(),
                        limit_at(max_input_tokens, i),
                        limit_at(max_output_tokens, i),
                    ),
                );
            }
        }
        i += 1;
    }
    None
}

/// The model of a given name, whatever its case.
pub fn get(
    model_types: &[String],
    max_input_tokens: &[u32],
    max_output_tokens: &[u32],
    aliases: &[String],
    id: &str,
) -> (r: Option<OpenAIModel>)
    ensures
        match r {
            Some(m) => model_named(
                text::strs(model_types@),
                max_input_tokens@,
                max_output_tokens@,
                text::strs(aliases@),
                text::lowercase(id@),
            ) == Some(m@),
            None => model_named(
                text::strs(model_types@),
                max_input_tokens@,
                max_output_tokens@,
                text::strs(aliases@),
                text::lowercase(id@),
            ) is None,
        },
{
    let target = text::to_lowercase(id);
    find_model(model_types, max_input_tokens, max_output_tokens, aliases, target.as_str())
}

proof fn lemma_first_named(names: Seq<Seq<char>>, target: Seq<char>, k: int, j: int)
    requires
        0 <= k <= j < names.len(),
        text::lowercase(names[j]) == target,
    ensures
        first_named(names, target, k) is Some,
    decreases j - k,
{
    if text::lowercase(names[k]) != target {
        lemma_first_named(names, target, k + 1, j);
    }
}

proof fn lemma_first_named_is_named(names: Seq<Seq<char>>, target: Seq<char>, k: int)
    requires
        0 <= k,
    ensures
        first_named(names, target, k) matches Some(j) ==> k <= j < names.len() && text::lowercase(
            names[j],
        ) == target,
    decreases names.len() - k,
{
    if k < names.len() && text::lowercase(names[k]) != target {
        lemma_first_named_is_named(names, target, k + 1);
    }
}

proof fn lemma_alias_model(
    types: Seq<Seq<char>>,
    input: Seq<u32>,
    output: Seq<u32>,
    aliases: Seq<Seq<char>>,
    target: Seq<char>,
    i: int,
    a: int,
    k: int,
)
    requires
        0 <= i <= a < aliases.len(),
        a < types.len(),
        0 <= k < config::listed_names(aliases[a]).len(),
        text::lowercase(config::listed_names(aliases[a])[k]) == target,
    ensures
        alias_model(types, input, output, aliases, target, i) is Some,
    decreases a - i,
{
    if i == a {
        lemma_first_named(config::listed_names(aliases[a]), target, 0, k);
    } else {
        lemma_alias_model(types, input, output, aliases, target, i + 1, a, k);
    }
}

/// A found model has the name that was asked for, but for its case.
pub proof fn law_found_model_has_name(
    types: Seq<Seq<char>>,
    input: Seq<u32>,
    output: Seq<u32>,
    aliases: Seq<Seq<char>>,
    target: Seq<char>,
)
    ensures
        model_named(types, input, output, aliases, target) matches Some(m) ==> text::lowercase(m.id)
            == target,
{
    lemma_first_named_is_named(base_names(types), target, 0);
    if first_named(base_names(types), target, 0) is None {
        lemma_alias_model_has_name(types, input, output, aliases, target, 0);
    }
}

proof fn lemma_alias_model_has_name(
    types: Seq<Seq<char>>,
    input: Seq<u32>,
    output: Seq<u32>,
    aliases: Seq<Seq<char>>,
    target: Seq<char>,
    i: int,
)
    requires
        0 <= i,
    ensures
        alias_model(types, input, output, aliases, target, i) matches Some(m) ==> text::lowercase(
            m.id,
        ) == target,
    decreases aliases.len() - i,
{
    if i < aliases.len() {
        lemma_first_named_is_named(config::listed_names(aliases[i]), target, 0);
        lemma_alias_model_has_name(types, input, output, aliases, target, i + 1);
    }
}

/// Where a listed model comes from: the base name of a model type, or an alias
/// of one.
pub open spec fn comes_from(
    types: Seq<Seq<char>>,
    aliases: Seq<Seq<char>>,
    id: Seq<char>,
    i: int,
    k: int,
) -> bool {
    &&& 0 <= i < types.len()
    &&& ({
        ||| k < 0 && id == config::base_name(types[i])
        ||| i < aliases.len() && 0 <= k < config::listed_names(aliases[i]).len() && id
            == config::listed_names(aliases[i])[k]
    })
}

proof fn lemma_base_models(
    types: Seq<Seq<char>>,
    input: Seq<u32>,
    output: Seq<u32>,
    n: int,
    p: int,
)
    requires
        0 <= p < base_models(types, input, output, n).len(),
        n <= types.len(),
    ensures
        base_models(types, input, output, n).len() == n,
        base_models(types, input, output, n)[p].id == config::base_name(types[p]),
    decreases n,
{
    if n > 0 {
        lemma_base_models_len(types, input, output, n - 1);
        if p < n - 1 {
            lemma_base_models(types, input, output, n - 1, p);
        }
    }
}

proof fn lemma_base_models_len(types: Seq<Seq<char>>, input: Seq<u32>, output: Seq<u32>, n: int)
    requires
        0 <= n,
    ensures
        base_models(types, input, output, n).len() == n,
    decreases n,
{
    if n > 0 {
        lemma_base_models_len(types, input, output, n - 1);
    }
}

proof fn lemma_named_models(
    names: Seq<Seq<char>>,
    input: Option<u32>,
    output: Option<u32>,
    k: int,
)
    requires
        0 <= k <= names.len(),
    ensures
        named_models(names, input, output, k).len() == k,
        forall|p: int|
            0 <= p < k ==> (#[trigger] named_models(names, input, output, k)[p]).id == names[p],
    decreases k,
{
    if k > 0 {
        lemma_named_models(names, input, output, k - 1);
    }
}

proof fn lemma_alias_models(
    types: Seq<Seq<char>>,
    input: Seq<u32>,
    output: Seq<u32>,
    aliases: Seq<Seq<char>>,
    n: int,
    p: int,
) -> (from: (int, int))
    requires
        0 <= n <= aliases.len(),
        0 <= p < alias_models(types, input, output, aliases, n).len(),
    ensures
        comes_from(
            types,
            aliases,
            alias_models(types, input, output, aliases, n)[p].id,
            from.0,
            from.1,
        ),
        from.1 >= 0,
    decreases n,
{
    let before = alias_models(types, input, output, aliases, n - 1);
    if p < before.len() {
        lemma_alias_models(types, input, output, aliases, n - 1, p)
    } else {
        let names = config::listed_names(aliases[n - 1]);
        lemma_named_models(names, at(input, n - 1), at(output, n - 1), names.len() as int);
        (n - 1, p - before.len())
    }
}

/// Where a listed model comes from.
proof fn lemma_listed_from(
    types: Seq<Seq<char>>,
    input: Seq<u32>,
    output: Seq<u32>,
    aliases: Seq<Seq<char>>,
    p: int,
) -> (from: (int, int))
    requires
        0 <= p < all_models(types, input, output, aliases).len(),
    ensures
        comes_from(
            types,
            aliases,
            all_models(types, input, output, aliases)[p].id,
            from.0,
            from.1,
        ),
{
    let n = types.len() as int;
    lemma_base_models_len(types, input, output, n);
    if p < n {
        lemma_base_models(types, input, output, n, p);
        (p, -1)
    } else {
        lemma_alias_models(types, input, output, aliases, aliases.len() as int, p - n)
    }
}

/// Every listed model is found under its own name.
pub proof fn law_listed_models_are_found(
    types: Seq<Seq<char>>,
    input: Seq<u32>,
    output: Seq<u32>,
    aliases: Seq<Seq<char>>,
    p: int,
)
    requires
        0 <= p < all_models(types, input, output, aliases).len(),
    ensures
        model_named(
            types,
            input,
            output,
            aliases,
            text::lowercase(all_models(types, input, output, aliases)[p].id),
        ) is Some,
{
    let id = all_models(types, input, output, aliases)[p].id;
    let from = lemma_listed_from(types, input, output, aliases, p);
    if from.1 < 0 {
        assert(base_names(types)[from.0] == id);
        lemma_first_named(base_names(types), text::lowercase(id), 0, from.0);
    } else {
        lemma_alias_model(
            types,
            input,
            output,
            aliases,
            text::lowercase(id),
            0,
            from.0,
            from.1,
        );
    }
}

/// Every listed model can be asked: the registry knows its name.
pub proof fn law_listed_models_are_registered(
    types: Seq<Seq<char>>,
    input: Seq<u32>,
    output: Seq<u32>,
    aliases: Seq<Seq<char>>,
    p: int,
)
    requires
        0 <= p < all_models(types, input, output, aliases).len(),
    ensures
        config::registry_of(types, aliases, types.len() as int).contains_key(
            text::lowercase(all_models(types, input, output, aliases)[p].id),
        ),
{
    let id = all_models(types, input, output, aliases)[p].id;
    let from = lemma_listed_from(types, input, output, aliases, p);
    let i = from.0;
    let keys = config::keys_of(types, aliases, i);
    let builtin = config::builtin_names(types[i]).len() as int;
    let k = if from.1 < 0 {
        0
    } else {
        1 + builtin + from.1
    };
    if from.1 >= 0 {
        let lower = config::lowercase_all(config::aliases_at(aliases, i));
        assert(lower[from.1] == text::lowercase(id));
    }
    assert(keys[k] == text::lowercase(id));
    config::law_registry_knows_every_name(types, aliases, types.len() as int, i, k);
}

/// The first of some models from position `k` on whose name has the lower case
/// `target`.
pub open spec fn first_listed(models: Seq<ModelV>, target: Seq<char>, k: int) -> Option<ModelV>
    decreases models.len() - k,
{
    if k < 0 || k >= models.len() {
        None
    } else if text::lowercase(models[k].id) == target {
        Some(models[k])
    } else {
        first_listed(models, target, k + 1)
    }
}

proof fn lemma_first_of_two(a: Seq<ModelV>, b: Seq<ModelV>, target: Seq<char>, k: int)
    requires
        0 <= k <= a.len(),
    ensures
        first_listed(a + b, target, k) == (match first_listed(a, target, k) {
            Some(m) => Some(m),
            None => first_listed(b, target, 0),
        }),
    decreases a.len() - k,
{
    if k < a.len() {
        lemma_first_of_two(a, b, target, k + 1);
    } else {
        lemma_first_of_second(a, b, target, 0);
    }
}

proof fn lemma_first_of_second(a: Seq<ModelV>, b: Seq<ModelV>, target: Seq<char>, k: int)
    requires
        0 <= k <= b.len(),
    ensures
        first_listed(a + b, target, a.len() + k) == first_listed(b, target, k),
    decreases b.len() - k,
{
    if k < b.len() {
        assert((a + b)[a.len() + k] == b[k]);
        lemma_first_of_second(a, b, target, k + 1);
    }
}

proof fn lemma_base_model_at(
    types: Seq<Seq<char>>,
    input: Seq<u32>,
    output: Seq<u32>,
    n: int,
    p: int,
)
    requires
        0 <= p < n <= types.len(),
    ensures
        base_models(types, input, output, n).len() == n,
        base_models(types, input, output, n)[p] == model_of(
            config::base_name(types[p]),
            at(input, p),
            at(output, p),
        ),
    decreases n,
{
    lemma_base_models_len(types, input, output, n - 1);
    if p < n - 1 {
        lemma_base_model_at(types, input, output, n - 1, p);
    }
}

proof fn lemma_first_base(
    types: Seq<Seq<char>>,
    input: Seq<u32>,
    output: Seq<u32>,
    target: Seq<char>,
    k: int,
)
    requires
        0 <= k <= types.len(),
    ensures
        first_listed(base_models(types, input, output, types.len() as int), target, k) == (
        match first_named(base_names(types), target, k) {
            Some(i) => Some(model_of(config::base_name(types[i]), at(input, i), at(output, i))),
            None => None,
        }),
    decreases types.len() - k,
{
    lemma_base_models_len(types, input, output, types.len() as int);
    if k < types.len() {
        lemma_base_model_at(types, input, output, types.len() as int, k);
        lemma_first_base(types, input, output, target, k + 1);
    }
}

proof fn lemma_named_model_at(
    names: Seq<Seq<char>>,
    input: Option<u32>,
    output: Option<u32>,
    n: int,
    p: int,
)
    requires
        0 <= p < n <= names.len(),
    ensures
        named_models(names, input, output, n)[p] == model_of(names[p], input, output),
    decreases n,
{
    lemma_named_models(names, input, output, n - 1);
    if p < n - 1 {
        lemma_named_model_at(names, input, output, n - 1, p);
    }
}

proof fn lemma_first_named_model(
    names: Seq<Seq<char>>,
    input: Option<u32>,
    output: Option<u32>,
    target: Seq<char>,
    k: int,
)
    requires
        0 <= k <= names.len(),
    ensures
        first_listed(named_models(names, input, output, names.len() as int), target, k) == (
        match first_named(names, target, k) {
            Some(i) => Some(model_of(names[i], input, output)),
            None => None,
        }),
    decreases names.len() - k,
{
    lemma_named_models(names, input, output, names.len() as int);
    if k < names.len() {
        lemma_named_model_at(names, input, output, names.len() as int, k);
        lemma_first_named_model(names, input, output, target, k + 1);
    }
}

proof fn lemma_first_alias(
    types: Seq<Seq<char>>,
    input: Seq<u32>,
    output: Seq<u32>,
    aliases: Seq<Seq<char>>,
    target: Seq<char>,
    i: int,
)
    requires
        0 <= i <= aliases.len(),
    ensures
        first_listed(alias_models(types, input, output, aliases, aliases.len() as int), target, 0)
            == (match first_listed(alias_models(types, input, output, aliases, i), target, 0) {
            Some(m) => Some(m),
            None => alias_model(types, input, output, aliases, target, i),
        }),
    decreases aliases.len() - i,
{
    if i < aliases.len() {
        lemma_first_alias(types, input, output, aliases, target, i + 1);
        if i < types.len() {
            let names = config::listed_names(aliases[i]);
            let added = named_models(names, at(input, i), at(output, i), names.len() as int);
            lemma_first_of_two(
                alias_models(types, input, output, aliases, i),
                added,
                target,
                0,
            );
            lemma_first_named_model(names, at(input, i), at(output, i), target, 0);
        }
    }
}

/// The model that is found under a name is the first of all listed models that
/// has it, whatever its case.
pub proof fn law_found_model_is_first_listed(
    types: Seq<Seq<char>>,
    input: Seq<u32>,
    output: Seq<u32>,
    aliases: Seq<Seq<char>>,
    target: Seq<char>,
)
    ensures
        model_named(types, input, output, aliases, target) == first_listed(
            all_models(types, input, output, aliases),
            target,
            0,
        ),
{
    let base = base_models(types, input, output, types.len() as int);
    let more = alias_models(types, input, output, aliases, aliases.len() as int);
    lemma_first_of_two(base, more, target, 0);
    lemma_first_base(types, input, output, target, 0);
    lemma_first_alias(types, input, output, aliases, target, 0);
}

/// Every model type is listed at its place, under its own name and with its own
/// limits.
pub proof fn law_every_type_is_listed(
    types: Seq<Seq<char>>,
    input: Seq<u32>,
    output: Seq<u32>,
    aliases: Seq<Seq<char>>,
    i: int,
)
    requires
        0 <= i < types.len(),
    ensures
        ({
            let m = all_models(types, input, output, aliases)[i];
            &&& all_models(types, input, output, aliases).len() >= types.len()
            &&& m.id == "deepseek-"@ + types[i]
            &&& i < input.len() ==> m.max_input_tokens == Some(input[i])
            &&& i < output.len() ==> m.max_output_tokens == Some(output[i])
        }),
{
    let n = types.len() as int;
    lemma_base_models_len(types, input, output, n);
    lemma_base_limits(types, input, output, n, i);
}

proof fn lemma_base_limits(
    types: Seq<Seq<char>>,
    input: Seq<u32>,
    output: Seq<u32>,
    n: int,
    i: int,
)
    requires
        0 <= i < n <= types.len(),
    ensures
        base_models(types, input, output, n).len() == n,
        base_models(types, input, output, n)[i] == model_of(
            "deepseek-"@ + types[i],
            at(input, i),
            at(output, i),
        ),
    decreases n,
{
    lemma_base_models_len(types, input, output, n - 1);
    if i < n - 1 {
        lemma_base_limits(types, input, output, n - 1, i);
    }
}

proof fn lemma_named_limits(
    names: Seq<Seq<char>>,
    input: Option<u32>,
    output: Option<u32>,
    n: int,
    k: int,
)
    requires
        0 <= k < n <= names.len(),
    ensures
        named_models(names, input, output, n).len() == n,
        named_models(names, input, output, n)[k] == model_of(names[k], input, output),
    decreases n,
{
    lemma_named_models(names, input, output, n - 1);
    if k < n - 1 {
        lemma_named_limits(names, input, output, n - 1, k);
    }
}

proof fn lemma_alias_listed(
    types: Seq<Seq<char>>,
    input: Seq<u32>,
    output: Seq<u32>,
    aliases: Seq<Seq<char>>,
    n: int,
    i: int,
    k: int,
) -> (p: int)
    requires
        0 <= i < n <= aliases.len(),
        i < types.len(),
        0 <= k < config::listed_names(aliases[i]).len(),
    ensures
        0 <= p < alias_models(types, input, output, aliases, n).len(),
        alias_models(types, input, output, aliases, n)[p] == model_of(
            config::listed_names(aliases[i])[k],
            at(input, i),
            at(output, i),
        ),
    decreases n,
{
    let before = alias_models(types, input, output, aliases, n - 1);
    if i == n - 1 {
        let names = config::listed_names(aliases[i]);
        lemma_named_limits(names, at(input, i), at(output, i), names.len() as int, k);
        before.len() + k
    } else {
        lemma_alias_listed(types, input, output, aliases, n - 1, i, k)
    }
}

/// Every other name of a model type is listed too, with the limits of that type.
pub proof fn law_every_alias_is_listed(
    types: Seq<Seq<char>>,
    input: Seq<u32>,
    output: Seq<u32>,
    aliases: Seq<Seq<char>>,
    i: int,
    k: int,
)
    requires
        0 <= i < types.len(),
        i < aliases.len(),
        0 <= k < config::listed_names(aliases[i]).len(),
    ensures
        exists|p: int| {
            let m = #[trigger] all_models(types, input, output, aliases)[p];
            &&& 0 <= p < all_models(types, input, output, aliases).len()
            &&& m.id == config::listed_names(aliases[i])[k]
            &&& m.max_input_tokens == at(input, i)
            &&& m.max_output_tokens == at(output, i)
        },
{
    let p = lemma_alias_listed(types, input, output, aliases, aliases.len() as int, i, k);
    let n = types.len() as int;
    lemma_base_models_len(types, input, output, n);
    let all = all_models(types, input, output, aliases);
    assert(all[n + p] == alias_models(types, input, output, aliases, aliases.len() as int)[p]);
}

/// A model says its limits in each of the ways in which callers look for them.
pub proof fn law_limits_are_told_alike(id: Seq<char>, input: Option<u32>, output: Option<u32>)
    ensures
        ({
            let m = model_of(id, input, output);
            &&& m.id == id && m.object == "model"@
            &&& m.max_input_tokens == input && m.context_length == input && m.context_window
                == input && m.max_context_length == input
            &&& m.max_output_tokens == output && m.max_tokens == output
                && m.max_completion_tokens == output
        }),
{
}

} // verus!
