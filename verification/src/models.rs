//! Which model does what: the main model, the models of the auxiliary tasks, and the
//! memory and context providers, all read from and written to `config.yaml`.
use vstd::prelude::*;
use vstd::string::*;

use crate::text::{
    holds_text, lemma_trim_is, lower_case, lowered, opt_text, text_eq, texts, trim, trimmed,
};
use crate::value::{
    body_of, copy_entries, copy_subtable, distinct_keys, entries, field, fields, get, get_text_or,
    int_number, integer, law_cut_get, law_distinct_keys, law_put_get, law_put_keeps,
    law_swap_cut_keeps, lemma_key_index_is, lemma_list_tree, lemma_retabled, lemma_table_tree,
    plain_table, put, request_body, retable, retabled, section_member, subtable, swap_cut,
    table_get, table_put, table_swap_cut, table_text_or, text, tree_result, trees, Fields, Number,
    Tree, Value,
};

verus! {

broadcast use {lemma_list_tree, lemma_table_tree};

/// The tasks that have a model of their own.
pub open spec fn aux_slots() -> Seq<Seq<char>> {
    seq![
        "vision"@,
        "web_extract"@,
        "compression"@,
        "session_search"@,
        "skills_hub"@,
        "approval"@,
        "mcp"@,
        "title_generation"@,
        "curator"@,
    ]
}

/// The tasks that have a model of their own.
pub fn aux_task_slots() -> (r: Vec<String>)
    ensures
        texts(r@) == aux_slots(),
{
    let r: Vec<String> = vec![
        "vision".to_owned(),
        "web_extract".to_owned(),
        "compression".to_owned(),
        "session_search".to_owned(),
        "skills_hub".to_owned(),
        "approval".to_owned(),
        "mcp".to_owned(),
        "title_generation".to_owned(),
        "curator".to_owned(),
    ];
    assert(texts(r@) =~= aux_slots());
    r
}

// ---------------------------------------------------------------------------
// Assigning models
// ---------------------------------------------------------------------------

/// The configuration with a main model: its `model` table names the provider and the
/// model, and neither a base URL nor a context length; the rest of the table stays.
pub open spec fn main_assigned(
    root: Seq<(Tree, Tree)>,
    provider: Seq<char>,
    model: Seq<char>,
) -> Seq<(Tree, Tree)> {
    let named = put(
        put(subtable(root, "model"@), "provider"@, Tree::Text(provider)),
        "default"@,
        Tree::Text(model),
    );
    put(
        root,
        "model"@,
        Tree::Table(swap_cut(swap_cut(named, "base_url"@), "context_length"@)),
    )
}

/// The auxiliary models with one for the task `slot`; the rest of its table stays.
pub open spec fn slot_assigned(
    aux: Seq<(Tree, Tree)>,
    slot: Seq<char>,
    provider: Seq<char>,
    model: Seq<char>,
) -> Seq<(Tree, Tree)> {
    put(
        aux,
        slot,
        Tree::Table(
            put(
                put(subtable(aux, slot), "provider"@, Tree::Text(provider)),
                "model"@,
                Tree::Text(model),
            ),
        ),
    )
}

/// The auxiliary models with the same one for every task of `slots`.
pub open spec fn slots_assigned(
    aux: Seq<(Tree, Tree)>,
    slots: Seq<Seq<char>>,
    provider: Seq<char>,
    model: Seq<char>,
) -> Seq<(Tree, Tree)>
    decreases slots.len(),
{
    if slots.len() == 0 {
        aux
    } else {
        slot_assigned(
            slots_assigned(aux, slots.drop_last(), provider, model),
            slots.last(),
            provider,
            model,
        )
    }
}

/// The configuration with the given model for the tasks of `slots`.
pub open spec fn aux_assigned(
    root: Seq<(Tree, Tree)>,
    slots: Seq<Seq<char>>,
    provider: Seq<char>,
    model: Seq<char>,
) -> Seq<(Tree, Tree)> {
    put(
        root,
        "auxiliary"@,
        Tree::Table(slots_assigned(subtable(root, "auxiliary"@), slots, provider, model)),
    )
}

/// The configuration after a model was assigned, or why it was not.
///
/// The scope `main` asks for a provider and a model. The scope `auxiliary` sets the
/// model of one task, or of every task where none is named; the task `__reset__` sets
/// every task back to `auto`.
pub open spec fn model_assignment(
    scope: Seq<char>,
    provider: Seq<char>,
    model: Seq<char>,
    task: Seq<char>,
    loaded: Result<Tree, Seq<char>>,
) -> Result<Tree, Seq<char>> {
    if scope != "main"@ && scope != "auxiliary"@ {
        Err("scope must be 'main' or 'auxiliary'"@)
    } else {
        match loaded {
            Err(e) => Err(e),
            Ok(cfg) => match cfg.as_table() {
                None => Err("config root must be a mapping"@),
                Some(root) => if scope == "main"@ {
                    if provider.len() == 0 || model.len() == 0 {
                        Err("provider and model required for main"@)
                    } else {
                        Ok(retabled(cfg, main_assigned(root, provider, model)))
                    }
                } else if task == "__reset__"@ {
                    Ok(
                        retabled(
                            cfg,
                            aux_assigned(root, aux_slots(), "auto"@, Seq::<char>::empty()),
                        ),
                    )
                } else if provider.len() == 0 {
                    Err("provider required for auxiliary"@)
                } else if task.len() == 0 {
                    Ok(retabled(cfg, aux_assigned(root, aux_slots(), provider, model)))
                } else if aux_slots().contains(task) {
                    Ok(retabled(cfg, aux_assigned(root, seq![task], provider, model)))
                } else {
                    Err("unknown auxiliary task: "@ + task)
                },
            },
        }
    }
}

/// Puts a model for the tasks of `slots` into the configuration.
fn put_slots(root: &mut Vec<(Value, Value)>, slots: &Vec<String>, provider: &str, model: &str)
    ensures
        entries(final(root)@) == aux_assigned(
            entries(old(root)@),
            texts(slots@),
            provider@,
            model@,
        ),
{
    let mut aux = copy_subtable(root, "auxiliary");
    let ghost start = entries(aux@);
    let ghost all = texts(slots@);
    let mut i: usize = 0;
    assert(all.take(0) =~= Seq::<Seq<char>>::empty());
    while i < slots.len()
        invariant
            i <= slots@.len(),
            all == texts(slots@),
            entries(aux@) == slots_assigned(start, all.take(i as int), provider@, model@),
        decreases slots@.len() - i,
    {
        let slot = slots[i].as_str();
        let mut slot_cfg = copy_subtable(&aux, slot);
        table_put(&mut slot_cfg, "provider", text(provider));
        table_put(&mut slot_cfg, "model", text(model));
        table_put(&mut aux, slot, Value::Table(slot_cfg));
        assert(all.take(i + 1).drop_last() =~= all.take(i as int));
        assert(all.take(i + 1).last() == slot@);
        i = i + 1;
    }
    assert(all.take(i as int) =~= all);
    table_put(root, "auxiliary", Value::Table(aux));
}

/// Assigns a model in the loaded configuration and gives the configuration to save. The
/// scope and the task are in lower case, and no argument has white space around it.
pub fn assign_model(
    scope: &str,
    provider: &str,
    model: &str,
    task: &str,
    loaded: Result<Value, String>,
) -> (r: Result<Value, String>)
    ensures
        tree_result(r) == model_assignment(
            scope@,
            provider@,
            model@,
            task@,
            tree_result(loaded),
        ),
{
    let to_main = text_eq(scope, "main");
    if !to_main && !text_eq(scope, "auxiliary") {
        return Err("scope must be 'main' or 'auxiliary'".to_owned());
    }
    let cfg = match loaded {
        Ok(cfg) => cfg,
        Err(e) => {
            return Err(e);
        },
    };
    let mut root = match cfg.as_table() {
        Some(e) => copy_entries(e),
        None => {
            return Err("config root must be a mapping".to_owned());
        },
    };
    if to_main {
        if provider.is_empty() || model.is_empty() {
            return Err("provider and model required for main".to_owned());
        }
        let mut named = copy_subtable(&root, "model");
        table_put(&mut named, "provider", text(provider));
        table_put(&mut named, "default", text(model));
        table_swap_cut(&mut named, "base_url");
        table_swap_cut(&mut named, "context_length");
        table_put(&mut root, "model", Value::Table(named));
        return Ok(retable(cfg, root));
    }
    let slots = aux_task_slots();
    if text_eq(task, "__reset__") {
        let none = String::new();
        put_slots(&mut root, &slots, "auto", none.as_str());
        return Ok(retable(cfg, root));
    }
    if provider.is_empty() {
        return Err("provider required for auxiliary".to_owned());
    }
    if task.is_empty() {
        put_slots(&mut root, &slots, provider, model);
        return Ok(retable(cfg, root));
    }
    if !holds_text(&slots, task) {
        let mut e = "unknown auxiliary task: ".to_owned();
        e.append(task);
        return Err(e);
    }
    let one: Vec<String> = vec![task.to_owned()];
    assert(texts(one@) =~= seq![task@]);
    put_slots(&mut root, &one, provider, model);
    Ok(retable(cfg, root))
}

/// A text field of a request without the white space around it; empty where it is missing.
pub open spec fn trimmed_field(body: Tree, k: Seq<char>) -> Seq<char> {
    trim(body.text_or(k, Seq::empty()))
}

/// A text field of a request without the white space around it; empty where it is missing.
fn field_of(body: &Value, k: &str) -> (r: String)
    ensures
        r@ == trimmed_field(body@, k@),
{
    let none = String::new();
    trimmed(body.text_or(k, none.as_str()).as_str()).to_owned()
}

/// Carries out a request to assign a model: its fields `scope`, `provider`, `model` and
/// `task`, the first and the last in any case.
pub fn set_model_assignment(payload: &Value, loaded: Result<Value, String>) -> (r: Result<
    Value,
    String,
>)
    ensures
        tree_result(r) == model_assignment(
            lower_case(trimmed_field(request_body(payload@), "scope"@)),
            trimmed_field(request_body(payload@), "provider"@),
            trimmed_field(request_body(payload@), "model"@),
            lower_case(trimmed_field(request_body(payload@), "task"@)),
            tree_result(loaded),
        ),
{
    let body = body_of(payload);
    let scope = lowered(field_of(body, "scope").as_str());
    let provider = field_of(body, "provider");
    let model = field_of(body, "model");
    let task = lowered(field_of(body, "task").as_str());
    assign_model(scope.as_str(), provider.as_str(), model.as_str(), task.as_str(), loaded)
}

// ---------------------------------------------------------------------------
// Reading the assignments
// ---------------------------------------------------------------------------

/// The value that names the model in a `model` table: `default`, or else `name`.
pub open spec fn default_or_name(m: Seq<(Tree, Tree)>) -> Option<Tree> {
    match get(m, "default"@) {
        Some(t) => Some(t),
        None => get(m, "name"@),
    }
}

/// The model that a `model` table names; empty where it names none.
pub open spec fn named_model(m: Seq<(Tree, Tree)>) -> Seq<char> {
    match default_or_name(m) {
        Some(t) => match t.as_text() {
            Some(s) => s,
            None => Seq::empty(),
        },
        None => Seq::empty(),
    }
}

/// The provider and the name of the main model.
pub open spec fn main_model(cfg: Tree) -> (Seq<char>, Seq<char>) {
    match cfg.member("model"@) {
        Some(Tree::Text(s)) => (Seq::empty(), s),
        Some(Tree::Table(m)) => (get_text_or(m, "provider"@, Seq::empty()), named_model(m)),
        _ => (Seq::empty(), Seq::empty()),
    }
}

/// The model that a `model` table names; empty where it names none.
pub fn model_named(m: &Vec<(Value, Value)>) -> (r: String)
    ensures
        r@ == named_model(entries(m@)),
{
    let v = match table_get(m, "default") {
        Some(v) => Some(v),
        None => table_get(m, "name"),
    };
    match v {
        Some(v) => match v.as_text() {
            Some(s) => s.to_owned(),
            None => String::new(),
        },
        None => String::new(),
    }
}

/// The provider and the name of the main model.
pub fn main_model_of(cfg: &Value) -> (r: (String, String))
    ensures
        (r.0@, r.1@) == main_model(cfg@),
{
    match cfg.member("model") {
        Some(Value::Text(s)) => (String::new(), s.clone()),
        Some(Value::Table(m)) => {
            let none = String::new();
            (table_text_or(m, "provider", none.as_str()), model_named(m))
        },
        _ => (String::new(), String::new()),
    }
}

/// The table of an auxiliary task.
pub open spec fn slot_table(cfg: Tree, slot: Seq<char>) -> Option<Seq<(Tree, Tree)>> {
    match cfg.member("auxiliary"@) {
        Some(aux) => match aux.member(slot) {
            Some(t) => t.as_table(),
            None => None,
        },
        None => None,
    }
}

/// What is told of the model of an auxiliary task; its provider is `auto` where none is
/// named.
pub open spec fn slot_row(cfg: Tree, slot: Seq<char>) -> Tree {
    let (provider, model, base_url) = match slot_table(cfg, slot) {
        Some(m) => {
            let p = get_text_or(m, "provider"@, "auto"@);
            (
                if p.len() == 0 {
                    "auto"@
                } else {
                    p
                },
                get_text_or(m, "model"@, Seq::empty()),
                get_text_or(m, "base_url"@, Seq::empty()),
            )
        },
        None => ("auto"@, Seq::<char>::empty(), Seq::<char>::empty()),
    };
    Tree::Table(
        fields()
            .push(field("task"@, Tree::Text(slot)))
            .push(field("provider"@, Tree::Text(provider)))
            .push(field("model"@, Tree::Text(model)))
            .push(field("base_url"@, Tree::Text(base_url))),
    )
}

/// The models of the auxiliary tasks and the main model.
pub open spec fn auxiliary_models(cfg: Tree) -> Tree {
    Tree::Table(
        fields()
            .push(field(
                "tasks"@,
                Tree::List(aux_slots().map_values(|slot: Seq<char>| slot_row(cfg, slot))),
            ))
            .push(field(
                "main"@,
                Tree::Table(
                    fields()
                        .push(field("provider"@, Tree::Text(main_model(cfg).0)))
                        .push(field("model"@, Tree::Text(main_model(cfg).1))),
                ),
            )),
    )
}

/// What is told of the model of an auxiliary task.
fn row_of_slot(cfg: &Value, slot: &str) -> (r: Value)
    ensures
        r@ == slot_row(cfg@, slot@),
{
    let table = match cfg.member("auxiliary") {
        Some(aux) => match aux.member(slot) {
            Some(v) => v.as_table(),
            None => None,
        },
        None => None,
    };
    let none = String::new();
    let (provider, model, base_url) = match table {
        Some(m) => {
            let p = table_text_or(m, "provider", "auto");
            (
                if p.as_str().is_empty() {
                    "auto".to_owned()
                } else {
                    p
                },
                table_text_or(m, "model", none.as_str()),
                table_text_or(m, "base_url", none.as_str()),
            )
        },
        None => ("auto".to_owned(), String::new(), String::new()),
    };
    Fields::new()
        .with("task", text(slot))
        .with("provider", Value::Text(provider))
        .with("model", Value::Text(model))
        .with("base_url", Value::Text(base_url))
        .table()
}

/// The models of the auxiliary tasks and the main model.
pub fn get_auxiliary_models(cfg: &Value) -> (r: Value)
    ensures
        r@ == auxiliary_models(cfg@),
{
    let slots = aux_task_slots();
    let mut tasks: Vec<Value> = Vec::new();
    let mut i: usize = 0;
    while i < slots.len()
        invariant
            i <= slots@.len(),
            texts(slots@) == aux_slots(),
            tasks@.len() == i,
            forall|j: int| 0 <= j < i ==> tasks@[j]@ == slot_row(cfg@, aux_slots()[j]),
        decreases slots@.len() - i,
    {
        let row = row_of_slot(cfg, slots[i].as_str());
        assert(slots@[i as int]@ == texts(slots@)[i as int]);
        tasks.push(row);
        i = i + 1;
    }
    assert(trees(tasks@) =~= aux_slots().map_values(|slot: Seq<char>| slot_row(cfg@, slot)));
    let (provider, model) = main_model_of(cfg);
    let main = Fields::new()
        .with("provider", Value::Text(provider))
        .with("model", Value::Text(model))
        .table();
    Fields::new()
        .with("tasks", Value::List(tasks))
        .with("main", main)
        .table()
}

/// The context length that a `model` table sets, as a number of 32 bits; zero where it sets
/// no positive one.
pub open spec fn set_context_length(m: Seq<(Tree, Tree)>) -> i32 {
    match get(m, "context_length"@) {
        Some(t) => match t.as_i64() {
            Some(n) => if n > 0 {
                n as i32
            } else {
                0
            },
            None => 0,
        },
        None => 0,
    }
}

/// What is told of the main model where only the configuration can tell.
pub open spec fn yaml_model_info(cfg: Tree) -> Tree {
    let set = match cfg.member("model"@) {
        Some(Tree::Table(m)) => set_context_length(m),
        _ => 0,
    };
    let effective = if set > 0 {
        set
    } else {
        0
    };
    Tree::Table(
        fields()
            .push(field("model"@, Tree::Text(main_model(cfg).1)))
            .push(field("provider"@, Tree::Text(main_model(cfg).0)))
            .push(field("auto_context_length"@, Tree::Number(int_number(0))))
            .push(field("config_context_length"@, Tree::Number(int_number(set as i64))))
            .push(field("effective_context_length"@, Tree::Number(int_number(effective as i64))))
            .push(field("capabilities"@, Tree::Table(Seq::empty())))
            .push(field("resolution_source"@, Tree::Text("yaml_fallback"@))),
    )
}

/// What is told of the main model where only the configuration can tell.
pub fn model_info_from_yaml_fallback(cfg: &Value) -> (r: Value)
    ensures
        r@ == yaml_model_info(cfg@),
{
    let (provider, model) = main_model_of(cfg);
    let set: i32 = match cfg.member("model") {
        Some(Value::Table(m)) => match table_get(m, "context_length") {
            Some(v) => match v.as_i64() {
                Some(n) => if n > 0 {
                    #[verifier::truncate]
                    (n as i32)
                } else {
                    0
                },
                None => 0,
            },
            None => 0,
        },
        _ => 0,
    };
    let effective: i32 = if set > 0 {
        set
    } else {
        0
    };
    Fields::new()
        .with("model", Value::Text(model))
        .with("provider", Value::Text(provider))
        .with("auto_context_length", integer(0))
        .with("config_context_length", integer(set as i64))
        .with("effective_context_length", integer(effective as i64))
        .with("capabilities", Fields::new().table())
        .with("resolution_source", text("yaml_fallback"))
        .table()
}

/// What is told of the main model: the answer of the helper, or else what the loaded
/// configuration tells. A configuration that cannot be loaded is an error either way.
pub fn get_model_info(loaded: Result<Value, String>, helper: Result<Value, String>) -> (r: Result<
    Value,
    String,
>)
    ensures
        tree_result(r) == (match tree_result(loaded) {
            Err(e) => Err(e),
            Ok(cfg) => match tree_result(helper) {
                Ok(info) => Ok(info),
                Err(_) => Ok(yaml_model_info(cfg)),
            },
        }),
{
    let cfg = match loaded {
        Ok(cfg) => cfg,
        Err(e) => {
            return Err(e);
        },
    };
    match helper {
        Ok(info) => Ok(info),
        Err(_) => Ok(model_info_from_yaml_fallback(&cfg)),
    }
}

/// The hint that stands in for a catalogue of models.
pub const CATALOG_HINT: &'static str =
    "Volledige modelcatalogus is in HermesOS desktop niet ingebouwd. Stel provider/modellen \
    in via config.yaml of gebruik het web-dashboard.";

/// The models to choose from: none but the main model, with a hint where to look.
pub fn get_model_options(cfg: &Value) -> (r: Value)
    ensures
        r@ == Tree::Table(
            fields()
                .push(field("providers"@, Tree::List(Seq::empty())))
                .push(field("provider"@, Tree::Text(main_model(cfg@).0)))
                .push(field("model"@, Tree::Text(main_model(cfg@).1)))
                .push(field("desktop_catalog_hint"@, Tree::Text(CATALOG_HINT@))),
        ),
{
    let (provider, model) = main_model_of(cfg);
    let none: Vec<Value> = Vec::new();
    assert(trees(none@) =~= Seq::<Tree>::empty());
    Fields::new()
        .with("providers", Value::List(none))
        .with("provider", Value::Text(provider))
        .with("model", Value::Text(model))
        .with("desktop_catalog_hint", text(CATALOG_HINT))
        .table()
}

// ---------------------------------------------------------------------------
// Memory and context providers
// ---------------------------------------------------------------------------

/// The answer to a `memory` entry that is no table.
pub const MEMORY_NOT_A_TABLE: &'static str =
    "config.yaml: sleutel 'memory' moet een mapping zijn (bv. memory: {{ provider: ... }}).";

/// The answer to a `context` entry that is no table.
pub const CONTEXT_NOT_A_TABLE: &'static str =
    "config.yaml: sleutel 'context' moet een mapping zijn.";

/// The configuration with `v` under `k` in its table `section`, which is made where it is
/// missing; `None` where the section is there and is no table.
pub open spec fn section_put(
    root: Seq<(Tree, Tree)>,
    section: Seq<char>,
    k: Seq<char>,
    v: Seq<char>,
) -> Option<Seq<(Tree, Tree)>> {
    match get(root, section) {
        None => Some(put(root, section, Tree::Table(fields().push(field(k, Tree::Text(v)))))),
        Some(Tree::Table(m)) => Some(
            put(root, section, Tree::Table(put(m, k, Tree::Text(v)))),
        ),
        Some(_) => None,
    }
}

/// The configuration with the providers that are given, or why they were not put there.
/// A configuration that is no table counts as an empty one.
pub open spec fn providers_saved(
    memory_provider: Option<Seq<char>>,
    context_engine: Option<Seq<char>>,
    cfg: Tree,
) -> Result<Tree, Seq<char>> {
    let with_memory = match memory_provider {
        Some(mp) => section_put(plain_table(cfg), "memory"@, "provider"@, mp),
        None => Some(plain_table(cfg)),
    };
    match with_memory {
        None => Err(MEMORY_NOT_A_TABLE@),
        Some(root) => match context_engine {
            None => Ok(Tree::Table(root)),
            Some(ce) => match section_put(root, "context"@, "engine"@, ce) {
                Some(both) => Ok(Tree::Table(both)),
                None => Err(CONTEXT_NOT_A_TABLE@),
            },
        },
    }
}

/// Puts a text under `k` into the table `section` of the configuration; `false` where the
/// section is there and is no table.
fn put_in_section(root: &mut Vec<(Value, Value)>, section: &str, k: &str, v: String) -> (r: bool)
    ensures
        r == (section_put(entries(old(root)@), section@, k@, v@) is Some),
        r ==> section_put(entries(old(root)@), section@, k@, v@) == Some(entries(final(root)@)),
{
    let mut m: Vec<(Value, Value)> = match table_get(root, section) {
        None => {
            let none: Vec<(Value, Value)> = Vec::new();
            assert(entries(none@) =~= Seq::<(Tree, Tree)>::empty());
            none
        },
        Some(Value::Table(m)) => copy_entries(m),
        Some(_) => {
            return false;
        },
    };
    let ghost before = entries(m@);
    table_put(&mut m, k, Value::Text(v));
    assert(before.len() == 0 ==> entries(m@) =~= fields().push(field(k@, Tree::Text(v@))));
    table_put(root, section, Value::Table(m));
    true
}

/// Writes the memory provider and the context engine, as far as they are given, into the
/// loaded configuration, and gives the configuration to save; nothing where neither is
/// given. An empty memory provider stands for the built-in memory.
pub fn save_plugin_providers_yaml(
    memory_provider: Option<String>,
    context_engine: Option<String>,
    loaded: Result<Value, String>,
) -> (r: Result<Option<Value>, String>)
    ensures
        memory_provider is None && context_engine is None ==> r == Ok::<_, String>(None::<Value>),
        memory_provider is Some || context_engine is Some ==> match tree_result(loaded) {
            Err(e) => r is Err && r->Err_0@ == e,
            Ok(cfg) => match providers_saved(
                opt_text(memory_provider),
                opt_text(context_engine),
                cfg,
            ) {
                Ok(t) => r is Ok && r->Ok_0 is Some && r->Ok_0->0@ == t,
                Err(e) => r is Err && r->Err_0@ == e,
            },
        },
{
    if memory_provider.is_none() && context_engine.is_none() {
        return Ok(None);
    }
    let cfg = match loaded {
        Ok(cfg) => cfg,
        Err(e) => {
            return Err(e);
        },
    };
    let mut root: Vec<(Value, Value)> = match cfg {
        Value::Table(e) => e,
        _ => {
            let none: Vec<(Value, Value)> = Vec::new();
            assert(entries(none@) =~= Seq::<(Tree, Tree)>::empty());
            none
        },
    };
    if let Some(mp) = memory_provider {
        if !put_in_section(&mut root, "memory", "provider", mp) {
            return Err(MEMORY_NOT_A_TABLE.to_owned());
        }
    }
    if let Some(ce) = context_engine {
        if !put_in_section(&mut root, "context", "engine", ce) {
            return Err(CONTEXT_NOT_A_TABLE.to_owned());
        }
    }
    Ok(Some(Value::Table(root)))
}

// ---------------------------------------------------------------------------
// Laws
// ---------------------------------------------------------------------------

/// The keys that the assignments use differ from one another.
proof fn lemma_words()
    ensures
        "provider"@ != "model"@,
        "provider"@ != "default"@,
        "provider"@ != "base_url"@,
        "provider"@ != "context_length"@,
        "default"@ != "base_url"@,
        "model"@ != "base_url"@,
        "task"@ != "provider"@,
        "task"@ != "model"@,
        "task"@ != "base_url"@,
        "base_url"@ != "context_length"@,
        "default"@ != "context_length"@,
        "memory"@ != "context"@,
        "main"@ != "auxiliary"@,
{
    reveal_strlit("provider");
    reveal_strlit("model");
    reveal_strlit("default");
    reveal_strlit("base_url");
    reveal_strlit("context_length");
    reveal_strlit("memory");
    reveal_strlit("context");
    reveal_strlit("main");
    reveal_strlit("auxiliary");
    reveal_strlit("task");
    assert("base_url"@.len() == 8 && "task"@.len() == 4);
    assert("provider"@.len() == 8 && "model"@.len() == 5 && "default"@.len() == 7);
    assert("context_length"@.len() == 14 && "memory"@.len() == 6 && "context"@.len() == 7);
    assert("main"@.len() == 4 && "auxiliary"@.len() == 9);
    assert("provider"@[0] != "base_url"@[0]);
}

/// A main model that was assigned is the main model that is read back, and the other
/// entries of the configuration give what they gave before.
pub proof fn law_main_model_read_back(
    cfg: Tree,
    provider: Seq<char>,
    model: Seq<char>,
    task: Seq<char>,
    other: Seq<char>,
)
    requires
        cfg.as_table() is Some,
        distinct_keys(subtable(cfg.as_table()->0, "model"@)),
        provider.len() > 0,
        model.len() > 0,
        other != "model"@,
    ensures
        match model_assignment("main"@, provider, model, task, Ok(cfg)) {
            Ok(new) => main_model(new) == (provider, model) && new.member(other) == cfg.member(
                other,
            ),
            Err(_) => false,
        },
{
    lemma_words();
    let root = cfg.as_table()->0;
    let m0 = subtable(root, "model"@);
    let m1 = put(m0, "provider"@, Tree::Text(provider));
    let m2 = put(m1, "default"@, Tree::Text(model));
    let m3 = swap_cut(m2, "base_url"@);
    let m4 = swap_cut(m3, "context_length"@);
    law_distinct_keys(m0, "provider"@, Tree::Text(provider));
    law_distinct_keys(m1, "default"@, Tree::Text(model));
    law_distinct_keys(m2, "base_url"@, Tree::Null);
    law_put_get(m0, "provider"@, Tree::Text(provider));
    law_put_keeps(m1, "default"@, Tree::Text(model), "provider"@);
    law_put_get(m1, "default"@, Tree::Text(model));
    law_swap_cut_keeps(m2, "base_url"@, "provider"@);
    law_swap_cut_keeps(m2, "base_url"@, "default"@);
    law_swap_cut_keeps(m3, "context_length"@, "provider"@);
    law_swap_cut_keeps(m3, "context_length"@, "default"@);
    law_put_get(root, "model"@, Tree::Table(m4));
    law_put_keeps(root, "model"@, Tree::Table(m4), other);
    lemma_retabled(cfg, main_assigned(root, provider, model));
}

/// What assigning a model to tasks does to the table of one task.
proof fn lemma_slots_assigned(
    aux: Seq<(Tree, Tree)>,
    slots: Seq<Seq<char>>,
    provider: Seq<char>,
    model: Seq<char>,
    slot: Seq<char>,
)
    ensures
        ({
            let new = slots_assigned(aux, slots, provider, model);
            &&& !slots.contains(slot) ==> get(new, slot) == get(aux, slot)
            &&& slots.contains(slot) ==> {
                &&& get(new, slot) == Some(Tree::Table(subtable(new, slot)))
                &&& get(subtable(new, slot), "provider"@) == Some(Tree::Text(provider))
                &&& get(subtable(new, slot), "model"@) == Some(Tree::Text(model))
            }
            &&& forall|k: Seq<char>|
                k != "provider"@ && k != "model"@ ==> #[trigger] get(subtable(new, slot), k)
                    == get(subtable(aux, slot), k)
        }),
    decreases slots.len(),
{
    lemma_words();
    if slots.len() > 0 {
        let front = slots.drop_last();
        let last = slots.last();
        let a = slots_assigned(aux, front, provider, model);
        lemma_slots_assigned(aux, front, provider, model, slot);
        let t0 = subtable(a, last);
        let t1 = put(t0, "provider"@, Tree::Text(provider));
        let t2 = put(t1, "model"@, Tree::Text(model));
        if slot == last {
            assert(slots[slots.len() - 1] == slot);
            law_put_get(a, last, Tree::Table(t2));
            law_put_get(t0, "provider"@, Tree::Text(provider));
            law_put_keeps(t1, "model"@, Tree::Text(model), "provider"@);
            law_put_get(t1, "model"@, Tree::Text(model));
            assert forall|k: Seq<char>| k != "provider"@ && k != "model"@ implies #[trigger] get(
                t2,
                k,
            ) == get(subtable(aux, slot), k) by {
                law_put_keeps(t0, "provider"@, Tree::Text(provider), k);
                law_put_keeps(t1, "model"@, Tree::Text(model), k);
            }
        } else {
            law_put_keeps(a, last, Tree::Table(t2), slot);
            assert(slots.contains(slot) ==> front.contains(slot)) by {
                if slots.contains(slot) {
                    let i = choose|i: int| 0 <= i < slots.len() && slots[i] == slot;
                    assert(front[i] == slot);
                }
            }
            assert(front.contains(slot) ==> slots.contains(slot)) by {
                if front.contains(slot) {
                    let i = choose|i: int| 0 <= i < front.len() && front[i] == slot;
                    assert(slots[i] == slot);
                }
            }
        }
    }
}

/// A model that was assigned to tasks is what is told of each of them; what else their
/// tables held, the base URL among it, stays, and so do the tables of other tasks and the
/// other entries of the configuration.
pub proof fn law_auxiliary_read_back(
    cfg: Tree,
    slots: Seq<Seq<char>>,
    provider: Seq<char>,
    model: Seq<char>,
    slot: Seq<char>,
    k: Seq<char>,
    other: Seq<char>,
)
    requires
        cfg.as_table() is Some,
        k != "provider"@,
        k != "model"@,
        other != "auxiliary"@,
    ensures
        ({
            let root = cfg.as_table()->0;
            let new = retabled(cfg, aux_assigned(root, slots, provider, model));
            &&& slots.contains(slot) ==> slot_table(new, slot) is Some && {
                let t = slot_table(new, slot)->0;
                &&& get(t, "provider"@) == Some(Tree::Text(provider))
                &&& get(t, "model"@) == Some(Tree::Text(model))
                &&& get(t, k) == get(subtable(subtable(root, "auxiliary"@), slot), k)
            }
            &&& !slots.contains(slot) ==> get(
                subtable(new.as_table()->0, "auxiliary"@),
                slot,
            ) == get(subtable(root, "auxiliary"@), slot)
            &&& new.member(other) == cfg.member(other)
        }),
{
    let root = cfg.as_table()->0;
    let aux = subtable(root, "auxiliary"@);
    let set = slots_assigned(aux, slots, provider, model);
    lemma_slots_assigned(aux, slots, provider, model, slot);
    law_put_get(root, "auxiliary"@, Tree::Table(set));
    law_put_keeps(root, "auxiliary"@, Tree::Table(set), other);
    lemma_retabled(cfg, aux_assigned(root, slots, provider, model));
}

/// After `__reset__` every task is told to have the provider `auto` and no model.
pub proof fn law_reset(cfg: Tree, provider: Seq<char>, model: Seq<char>, slot: Seq<char>)
    requires
        cfg.as_table() is Some,
        aux_slots().contains(slot),
    ensures
        match model_assignment("auxiliary"@, provider, model, "__reset__"@, Ok(cfg)) {
            Ok(new) => slot_row(new, slot).text_or("provider"@, Seq::empty()) == "auto"@
                && slot_row(new, slot).text_or("model"@, "auto"@) == Seq::<char>::empty(),
            Err(_) => false,
        },
{
    lemma_words();
    reveal_strlit("auto");
    assert("auto"@.len() == 4);
    let k = "base_url"@;
    let other = "main"@;
    law_auxiliary_read_back(cfg, aux_slots(), "auto"@, Seq::empty(), slot, k, other);
    let root = cfg.as_table()->0;
    let new = retabled(cfg, aux_assigned(root, aux_slots(), "auto"@, Seq::empty()));
    let row = slot_row(new, slot)->Table_0;
    lemma_key_index_is(row, "provider"@, 1);
    lemma_key_index_is(row, "model"@, 2);
}

/// The providers that were saved are the ones that are read back, and the other entries
/// of the configuration, of its table `memory` and of its table `context` give what they gave
/// before.
pub proof fn law_providers_read_back(
    memory_provider: Option<Seq<char>>,
    context_engine: Option<Seq<char>>,
    cfg: Tree,
    other: Seq<char>,
    k: Seq<char>,
)
    requires
        cfg is Table || cfg.as_table() is None,
        other != "memory"@,
        other != "context"@,
    ensures
        match providers_saved(memory_provider, context_engine, cfg) {
            Ok(new) => {
                &&& memory_provider matches Some(mp) ==> new.member("memory"@) is Some
                    && new.member("memory"@)->0.member_text("provider"@) == Some(mp)
                &&& context_engine matches Some(ce) ==> new.member("context"@) is Some
                    && new.member("context"@)->0.member_text("engine"@) == Some(ce)
                &&& memory_provider is None ==> new.member("memory"@) == cfg.member("memory"@)
                &&& context_engine is None ==> new.member("context"@) == cfg.member("context"@)
                &&& k != "provider"@ ==> section_member(new, "memory"@, k) == section_member(
                    cfg,
                    "memory"@,
                    k,
                )
                &&& k != "engine"@ ==> section_member(new, "context"@, k) == section_member(
                    cfg,
                    "context"@,
                    k,
                )
                &&& new.member(other) == cfg.member(other)
            },
            Err(_) => true,
        },
{
    lemma_words();
    let root = plain_table(cfg);
    match providers_saved(memory_provider, context_engine, cfg) {
        Ok(new) => {
            let mid = match memory_provider {
                Some(mp) => {
                    lemma_section(root, "memory"@, "provider"@, mp, other, k);
                    lemma_section(root, "memory"@, "provider"@, mp, "context"@, k);
                    section_put(root, "memory"@, "provider"@, mp)->0
                },
                None => root,
            };
            match context_engine {
                Some(ce) => {
                    lemma_section(mid, "context"@, "engine"@, ce, other, k);
                    lemma_section(mid, "context"@, "engine"@, ce, "memory"@, k);
                },
                None => {},
            }
        },
        Err(_) => {},
    }
}

/// What is put into a section is what it gives, its other entries stay, and other sections stay.
proof fn lemma_section(
    root: Seq<(Tree, Tree)>,
    section: Seq<char>,
    k: Seq<char>,
    v: Seq<char>,
    other: Seq<char>,
    beside: Seq<char>,
)
    requires
        other != section,
        section_put(root, section, k, v) is Some,
    ensures
        ({
            let new = section_put(root, section, k, v)->0;
            &&& get(new, section) is Some
            &&& get(new, section)->0 is Table
            &&& get(get(new, section)->0->Table_0, k) == Some(Tree::Text(v))
            &&& beside != k ==> get(get(new, section)->0->Table_0, beside) == get(
                subtable(root, section),
                beside,
            )
            &&& get(new, other) == get(root, other)
        }),
{
    let m = match get(root, section) {
        Some(Tree::Table(m)) => put(m, k, Tree::Text(v)),
        _ => fields().push(field(k, Tree::Text(v))),
    };
    match get(root, section) {
        Some(Tree::Table(m0)) => {
            law_put_get(m0, k, Tree::Text(v));
            if beside != k {
                law_put_keeps(m0, k, Tree::Text(v), beside);
            }
        },
        _ => {
            lemma_key_index_is(m, k, 0);
            if beside != k {
                lemma_key_index_is(m, beside, 1);
                assert(get(fields(), beside) is None);
            }
        },
    }
    law_put_get(root, section, Tree::Table(m));
    law_put_keeps(root, section, Tree::Table(m), other);
}

/// When a model is assigned, and when the request is refused: the scope must be `main` or
/// `auxiliary`, and the configuration a table that could be loaded; `main` asks for a provider
/// and a model, and `auxiliary` for a provider and a task that there is, or for none; only
/// `__reset__` asks for neither.
pub proof fn law_assignment_refused(
    scope: Seq<char>,
    provider: Seq<char>,
    model: Seq<char>,
    task: Seq<char>,
    loaded: Result<Tree, Seq<char>>,
)
    ensures
        model_assignment(scope, provider, model, task, loaded) is Ok <==> {
            &&& loaded is Ok
            &&& loaded->Ok_0.as_table() is Some
            &&& {
                ||| scope == "main"@ && provider.len() > 0 && model.len() > 0
                ||| scope == "auxiliary"@ && task == "__reset__"@
                ||| scope == "auxiliary"@ && provider.len() > 0 && (task.len() == 0
                    || aux_slots().contains(task))
            }
        },
        (scope == "main"@ || scope == "auxiliary"@) && loaded is Err ==> model_assignment(
            scope,
            provider,
            model,
            task,
            loaded,
        ) == Err::<Tree, Seq<char>>(loaded->Err_0),
{
    lemma_words();
    reveal_strlit("__reset__");
    assert("__reset__"@.len() == 9);
}

/// The model that is assigned to one task, or to every task where none is named, is what is told
/// of that task, and its base URL stays. Of every other task the same is told as before, and the
/// other entries of the configuration stay.
pub proof fn law_task_assigned(
    cfg: Tree,
    provider: Seq<char>,
    model: Seq<char>,
    task: Seq<char>,
    slot: Seq<char>,
    other: Seq<char>,
)
    requires
        cfg.as_table() is Some,
        provider.len() > 0,
        task.len() == 0 || aux_slots().contains(task),
        aux_slots().contains(slot),
        other != "auxiliary"@,
        plain_sections(cfg, slot),
    ensures
        match model_assignment("auxiliary"@, provider, model, task, Ok(cfg)) {
            Ok(new) => {
                let row = slot_row(new, slot);
                &&& task.len() == 0 || task == slot ==> {
                    &&& row.member("provider"@) == Some(Tree::Text(provider))
                    &&& row.member("model"@) == Some(Tree::Text(model))
                    &&& row.member("base_url"@) == slot_row(cfg, slot).member("base_url"@)
                }
                &&& task.len() > 0 && task != slot ==> row == slot_row(cfg, slot)
                &&& row.member("task"@) == Some(Tree::Text(slot))
                &&& new.member(other) == cfg.member(other)
            },
            Err(_) => false,
        },
{
    lemma_words();
    lemma_reset_is_no_task();
    let slots = if task.len() == 0 {
        aux_slots()
    } else {
        seq![task]
    };
    assert(seq![task][0] == task);
    let k = "base_url"@;
    law_auxiliary_read_back(cfg, slots, provider, model, slot, k, other);
    let root = cfg.as_table()->0;
    let new = retabled(cfg, aux_assigned(root, slots, provider, model));
    lemma_retabled(cfg, aux_assigned(root, slots, provider, model));
    assert(model_assignment("auxiliary"@, provider, model, task, Ok(cfg)) == Ok::<
        Tree,
        Seq<char>,
    >(new));
    let aux = subtable(root, "auxiliary"@);
    law_put_get(root, "auxiliary"@, Tree::Table(slots_assigned(aux, slots, provider, model)));
    lemma_slot_row(new, slot);
    lemma_slot_row(cfg, slot);
    if task.len() == 0 || task == slot {
        assert(slots.contains(slot)) by {
            if task.len() > 0 {
                assert(slots[0] == slot);
            }
        }
        assert(slot_table(cfg, slot) matches Some(t) ==> t == subtable(aux, slot));
        assert(get(Seq::<(Tree, Tree)>::empty(), k) is None);
    } else {
        assert(!slots.contains(slot));
    }
}

/// The tables of the auxiliary tasks, and that of the task, are without tags.
pub open spec fn plain_sections(cfg: Tree, slot: Seq<char>) -> bool {
    match cfg.member("auxiliary"@) {
        Some(Tree::Table(aux)) => match get(aux, slot) {
            Some(t) => !(t is Tagged),
            None => true,
        },
        Some(t) => !(t is Tagged),
        None => true,
    }
}

/// No task is called `__reset__`.
proof fn lemma_reset_is_no_task()
    ensures
        !aux_slots().contains("__reset__"@),
        "__reset__"@.len() == 9,
{
    reveal_strlit("__reset__");
    reveal_strlit("vision");
    reveal_strlit("web_extract");
    reveal_strlit("compression");
    reveal_strlit("session_search");
    reveal_strlit("skills_hub");
    reveal_strlit("approval");
    reveal_strlit("mcp");
    reveal_strlit("title_generation");
    reveal_strlit("curator");
    let r = "__reset__"@;
    assert(r.len() == 9);
    let s = aux_slots();
    assert(s[0].len() == 6 && s[1].len() == 11 && s[2].len() == 11 && s[3].len() == 14 && s[4].len()
        == 10 && s[5].len() == 8 && s[6].len() == 3 && s[7].len() == 16 && s[8].len() == 7);
    if s.contains(r) {
        let i = choose|i: int| 0 <= i < s.len() && s[i] == r;
        assert(i == 0 || i == 1 || i == 2 || i == 3 || i == 4 || i == 5 || i == 6 || i == 7 || i
            == 8);
    }
}

/// What the keys of a row give.
proof fn lemma_slot_row(cfg: Tree, slot: Seq<char>)
    ensures
        slot_row(cfg, slot) is Table,
        get(slot_row(cfg, slot)->Table_0, "task"@) == Some(slot_row(cfg, slot)->Table_0[0].1),
        get(slot_row(cfg, slot)->Table_0, "provider"@) == Some(slot_row(cfg, slot)->Table_0[1].1),
        get(slot_row(cfg, slot)->Table_0, "model"@) == Some(slot_row(cfg, slot)->Table_0[2].1),
        get(slot_row(cfg, slot)->Table_0, "base_url"@) == Some(slot_row(cfg, slot)->Table_0[3].1),
{
    lemma_words();
    let row = slot_row(cfg, slot)->Table_0;
    lemma_key_index_is(row, "task"@, 0);
    lemma_key_index_is(row, "provider"@, 1);
    lemma_key_index_is(row, "model"@, 2);
    lemma_key_index_is(row, "base_url"@, 3);
}

/// What is told of a task: its name, and the provider, the model and the base URL that its table
/// names. The provider is `auto` where none or an empty one is named; the others are then empty.
pub proof fn law_task_told(cfg: Tree, slot: Seq<char>, t: Seq<(Tree, Tree)>, s: Seq<char>)
    ensures
        ({
            let row = slot_row(cfg, slot);
            &&& row.member("task"@) == Some(Tree::Text(slot))
            &&& (section_member(cfg, "auxiliary"@, slot) matches Some(x) && x.as_table() == Some(t))
                ==> {
                &&& (get(t, "provider"@) matches Some(v) && v.as_text() == Some(s)) && s.len() > 0
                    ==> row.member("provider"@) == Some(Tree::Text(s))
                &&& !(get(t, "provider"@) matches Some(v) && (v.as_text() matches Some(p) && p.len()
                    > 0)) ==> row.member("provider"@) == Some(Tree::Text("auto"@))
                &&& (get(t, "model"@) matches Some(v) && v.as_text() == Some(s)) ==> row.member(
                    "model"@,
                ) == Some(Tree::Text(s))
                &&& !(get(t, "model"@) matches Some(v) && v.as_text() is Some) ==> row.member(
                    "model"@,
                ) == Some(Tree::Text(Seq::empty()))
                &&& (get(t, "base_url"@) matches Some(v) && v.as_text() == Some(s)) ==> row.member(
                    "base_url"@,
                ) == Some(Tree::Text(s))
                &&& !(get(t, "base_url"@) matches Some(v) && v.as_text() is Some) ==> row.member(
                    "base_url"@,
                ) == Some(Tree::Text(Seq::empty()))
            }
            &&& !(section_member(cfg, "auxiliary"@, slot) matches Some(x) && x.as_table() is Some)
                ==> {
                &&& row.member("provider"@) == Some(Tree::Text("auto"@))
                &&& row.member("model"@) == Some(Tree::Text(Seq::empty()))
                &&& row.member("base_url"@) == Some(Tree::Text(Seq::empty()))
            }
        }),
{
    lemma_slot_row(cfg, slot);
}

/// What is told of all tasks is what is told of each of the nine, in order, and beside them the
/// main model.
pub proof fn law_all_tasks_told(cfg: Tree, i: int)
    requires
        0 <= i < 9,
    ensures
        ({
            let told = auxiliary_models(cfg);
            &&& told.member("tasks"@) is Some
            &&& told.member("tasks"@)->0 is List
            &&& told.member("tasks"@)->0->List_0.len() == 9
            &&& told.member("tasks"@)->0->List_0[i] == slot_row(cfg, aux_slots()[i])
            &&& section_member(told, "main"@, "provider"@) == Some(Tree::Text(main_model(cfg).0))
            &&& section_member(told, "main"@, "model"@) == Some(Tree::Text(main_model(cfg).1))
        }),
{
    lemma_words();
    reveal_strlit("tasks");
    reveal_strlit("main");
    assert("tasks"@.len() == 5 && "main"@.len() == 4);
    let t = auxiliary_models(cfg)->Table_0;
    lemma_key_index_is(t, "tasks"@, 0);
    lemma_key_index_is(t, "main"@, 1);
    let m = t[1].1->Table_0;
    lemma_key_index_is(m, "provider"@, 0);
    lemma_key_index_is(m, "model"@, 1);
}

/// The main model is the text under `model`, or what its table names: the provider under
/// `provider`, and the model under `default` or else under `name`.
pub proof fn law_main_model(cfg: Tree, m: Seq<(Tree, Tree)>, s: Seq<char>)
    ensures
        cfg.member("model"@) == Some(Tree::Text(s)) ==> main_model(cfg) == (
            Seq::<char>::empty(),
            s,
        ),
        !(cfg.member("model"@) matches Some(t) && (t is Text || t is Table)) ==> main_model(cfg)
            == (Seq::<char>::empty(), Seq::<char>::empty()),
        cfg.member("model"@) == Some(Tree::Table(m)) ==> {
            let none = Seq::<char>::empty();
            &&& (get(m, "provider"@) matches Some(t) && t.as_text() == Some(s)) ==> main_model(
                cfg,
            ).0 == s
            &&& !(get(m, "provider"@) matches Some(t) && t.as_text() is Some) ==> main_model(cfg).0
                == none
            &&& (get(m, "default"@) matches Some(t) && t.as_text() == Some(s)) ==> main_model(cfg).1
                == s
            &&& (get(m, "default"@) matches Some(t) && t.as_text() is None) ==> main_model(cfg).1
                == none
            &&& get(m, "default"@) is None ==> {
                &&& (get(m, "name"@) matches Some(t) && t.as_text() == Some(s)) ==> main_model(
                    cfg,
                ).1 == s
                &&& !(get(m, "name"@) matches Some(t) && t.as_text() is Some) ==> main_model(cfg).1
                    == none
            }
        },
{
}

/// Assigning a main model names its provider and its name, takes the base URL and the context
/// length of the old one away, and leaves the rest of its table.
pub proof fn law_main_model_table(
    cfg: Tree,
    provider: Seq<char>,
    model: Seq<char>,
    task: Seq<char>,
    k: Seq<char>,
)
    requires
        cfg.as_table() is Some,
        distinct_keys(subtable(cfg.as_table()->0, "model"@)),
        provider.len() > 0,
        model.len() > 0,
    ensures
        match model_assignment("main"@, provider, model, task, Ok(cfg)) {
            Ok(new) => {
                &&& section_member(new, "model"@, "provider"@) == Some(Tree::Text(provider))
                &&& section_member(new, "model"@, "default"@) == Some(Tree::Text(model))
                &&& section_member(new, "model"@, "base_url"@) is None
                &&& section_member(new, "model"@, "context_length"@) is None
                &&& k != "provider"@ && k != "default"@ && k != "base_url"@ && k
                    != "context_length"@ ==> section_member(new, "model"@, k) == get(
                    subtable(cfg.as_table()->0, "model"@),
                    k,
                )
            },
            Err(_) => false,
        },
{
    lemma_words();
    let root = cfg.as_table()->0;
    let m0 = subtable(root, "model"@);
    let m1 = put(m0, "provider"@, Tree::Text(provider));
    let m2 = put(m1, "default"@, Tree::Text(model));
    let m3 = swap_cut(m2, "base_url"@);
    let m4 = swap_cut(m3, "context_length"@);
    law_distinct_keys(m0, "provider"@, Tree::Text(provider));
    law_distinct_keys(m1, "default"@, Tree::Text(model));
    law_distinct_keys(m2, "base_url"@, Tree::Null);
    law_put_get(m0, "provider"@, Tree::Text(provider));
    law_put_keeps(m1, "default"@, Tree::Text(model), "provider"@);
    law_put_get(m1, "default"@, Tree::Text(model));
    law_swap_cut_keeps(m2, "base_url"@, "provider"@);
    law_swap_cut_keeps(m2, "base_url"@, "default"@);
    law_swap_cut_keeps(m3, "context_length"@, "provider"@);
    law_swap_cut_keeps(m3, "context_length"@, "default"@);
    law_cut_get(m2, "base_url"@);
    law_cut_get(m3, "context_length"@);
    law_swap_cut_keeps(m3, "context_length"@, "base_url"@);
    if k != "provider"@ && k != "default"@ && k != "base_url"@ && k != "context_length"@ {
        law_put_keeps(m0, "provider"@, Tree::Text(provider), k);
        law_put_keeps(m1, "default"@, Tree::Text(model), k);
        law_swap_cut_keeps(m2, "base_url"@, k);
        law_swap_cut_keeps(m3, "context_length"@, k);
    }
    law_put_get(root, "model"@, Tree::Table(m4));
    lemma_retabled(cfg, main_assigned(root, provider, model));
}

/// What the configuration tells of the main model: its name, its provider and the context length
/// that is set for it, zero where none is.
pub proof fn law_model_info(cfg: Tree, m: Seq<(Tree, Tree)>, n: u64)
    ensures
        ({
            let info = yaml_model_info(cfg);
            &&& info.member("model"@) == Some(Tree::Text(main_model(cfg).1))
            &&& info.member("provider"@) == Some(Tree::Text(main_model(cfg).0))
            &&& cfg.member("model"@) == Some(Tree::Table(m)) && get(m, "context_length"@) == Some(
                Tree::Number(Number::PosInt(n)),
            ) && n <= i32::MAX ==> {
                &&& info.member("config_context_length"@) == Some(Tree::Number(Number::PosInt(n)))
                &&& info.member("effective_context_length"@) == Some(
                    Tree::Number(Number::PosInt(n)),
                )
            }
            &&& !(cfg.member("model"@) matches Some(Tree::Table(x)) && (get(
                x,
                "context_length"@,
            ) matches Some(v) && (v.as_i64() matches Some(c) && c > 0))) ==> {
                &&& info.member("config_context_length"@) == Some(Tree::Number(Number::PosInt(0)))
                &&& info.member("effective_context_length"@) == Some(
                    Tree::Number(Number::PosInt(0)),
                )
            }
        }),
{
    lemma_words();
    reveal_strlit("model");
    reveal_strlit("provider");
    reveal_strlit("auto_context_length");
    reveal_strlit("config_context_length");
    reveal_strlit("effective_context_length");
    assert("model"@.len() == 5 && "provider"@.len() == 8 && "auto_context_length"@.len() == 19
        && "config_context_length"@.len() == 21 && "effective_context_length"@.len() == 24);
    let t = yaml_model_info(cfg)->Table_0;
    lemma_key_index_is(t, "model"@, 0);
    lemma_key_index_is(t, "provider"@, 1);
    lemma_key_index_is(t, "config_context_length"@, 3);
    lemma_key_index_is(t, "effective_context_length"@, 4);
}

/// Saving providers is refused exactly where a section that one goes into is there and is no
/// table.
pub proof fn law_providers_refused(
    memory_provider: Option<Seq<char>>,
    context_engine: Option<Seq<char>>,
    e: Seq<(Tree, Tree)>,
)
    ensures
        providers_saved(memory_provider, context_engine, Tree::Table(e)) is Ok <==> {
            &&& memory_provider is Some && get(e, "memory"@) is Some ==> get(e, "memory"@)->0
                is Table
            &&& context_engine is Some && get(e, "context"@) is Some ==> get(e, "context"@)->0
                is Table
        },
{
    lemma_words();
    if let Some(mp) = memory_provider {
        if section_put(e, "memory"@, "provider"@, mp) is Some {
            lemma_section(e, "memory"@, "provider"@, mp, "context"@, "context"@);
        }
    }
}

/// A field of a request is read without the white space around it; it is empty where it is
/// missing.
pub proof fn law_trimmed_field(body: Tree, k: Seq<char>, s: Seq<char>)
    ensures
        body.member(k) == Some(Tree::Text(s)) ==> trimmed_field(body, k) == trim(s),
        body.member(k) is None ==> trimmed_field(body, k) == Seq::<char>::empty(),
{
    lemma_trim_is(Seq::<char>::empty(), 0, 0);
    assert(Seq::<char>::empty().subrange(0, 0) =~= Seq::<char>::empty());
}

/// The nine tasks that have a model of their own, no two of them alike.
pub proof fn law_aux_slots(i: int, j: int)
    ensures
        aux_slots().len() == 9,
        aux_slots()[0] == "vision"@ && aux_slots()[1] == "web_extract"@ && aux_slots()[2]
            == "compression"@ && aux_slots()[3] == "session_search"@ && aux_slots()[4]
            == "skills_hub"@ && aux_slots()[5] == "approval"@ && aux_slots()[6] == "mcp"@
            && aux_slots()[7] == "title_generation"@ && aux_slots()[8] == "curator"@,
        0 <= i < j < 9 ==> aux_slots()[i] != aux_slots()[j],
{
    reveal_strlit("vision");
    reveal_strlit("web_extract");
    reveal_strlit("compression");
    reveal_strlit("session_search");
    reveal_strlit("skills_hub");
    reveal_strlit("approval");
    reveal_strlit("mcp");
    reveal_strlit("title_generation");
    reveal_strlit("curator");
    assert("vision"@.len() == 6 && "web_extract"@.len() == 11 && "compression"@.len() == 11
        && "session_search"@.len() == 14 && "skills_hub"@.len() == 10 && "approval"@.len() == 8
        && "mcp"@.len() == 3 && "title_generation"@.len() == 16 && "curator"@.len() == 7);
    assert("web_extract"@[0] != "compression"@[0]);
}

/// What a refused request is told, where the configuration could be loaded: that the scope is
/// unknown, that the configuration is no table, what is missing, or that there is no such task.
pub proof fn law_assignment_complaints(
    scope: Seq<char>,
    provider: Seq<char>,
    model: Seq<char>,
    task: Seq<char>,
    loaded: Result<Tree, Seq<char>>,
    cfg: Tree,
)
    ensures
        scope != "main"@ && scope != "auxiliary"@ ==> model_assignment(
            scope,
            provider,
            model,
            task,
            loaded,
        ) == Err::<Tree, Seq<char>>("scope must be 'main' or 'auxiliary'"@),
        (scope == "main"@ || scope == "auxiliary"@) && cfg.as_table() is None ==> model_assignment(
            scope,
            provider,
            model,
            task,
            Ok(cfg),
        ) == Err::<Tree, Seq<char>>("config root must be a mapping"@),
        cfg.as_table() is Some && (provider.len() == 0 || model.len() == 0) ==> model_assignment(
            "main"@,
            provider,
            model,
            task,
            Ok(cfg),
        ) == Err::<Tree, Seq<char>>("provider and model required for main"@),
        cfg.as_table() is Some && provider.len() == 0 && task != "__reset__"@ ==> model_assignment(
            "auxiliary"@,
            provider,
            model,
            task,
            Ok(cfg),
        ) == Err::<Tree, Seq<char>>("provider required for auxiliary"@),
        cfg.as_table() is Some && provider.len() > 0 && task.len() > 0 && task != "__reset__"@
            && !aux_slots().contains(task) ==> model_assignment(
            "auxiliary"@,
            provider,
            model,
            task,
            Ok(cfg),
        ) == Err::<Tree, Seq<char>>("unknown auxiliary task: "@ + task),
{
    reveal_strlit("main");
    reveal_strlit("auxiliary");
    assert("main"@.len() == 4 && "auxiliary"@.len() == 9);
}

/// Whatever is assigned to tasks, a reset among it, sets the provider and the model in their
/// tables and leaves what else these hold; the tables of other tasks stay, and so do the other
/// entries of the configuration.
pub proof fn law_task_tables(
    cfg: Tree,
    provider: Seq<char>,
    model: Seq<char>,
    task: Seq<char>,
    slot: Seq<char>,
    k: Seq<char>,
    other: Seq<char>,
)
    requires
        model_assignment("auxiliary"@, provider, model, task, Ok(cfg)) is Ok,
        aux_slots().contains(slot),
        k != "provider"@,
        k != "model"@,
        other != "auxiliary"@,
    ensures
        ({
            let new = model_assignment("auxiliary"@, provider, model, task, Ok(cfg))->Ok_0;
            let before = subtable(cfg.as_table()->0, "auxiliary"@);
            let reset = task == "__reset__"@;
            &&& new.as_table() is Some
            &&& reset || task.len() == 0 || task == slot ==> (slot_table(new, slot) matches Some(t)
                && get(t, k) == get(subtable(before, slot), k) && (reset ==> get(t, "provider"@)
                == Some(Tree::Text("auto"@)) && get(t, "model"@) == Some(
                Tree::Text(Seq::empty()),
            )) && (!reset ==> get(t, "provider"@) == Some(Tree::Text(provider)) && get(t, "model"@)
                == Some(Tree::Text(model))))
            &&& !(reset || task.len() == 0 || task == slot) ==> get(
                subtable(new.as_table()->0, "auxiliary"@),
                slot,
            ) == get(before, slot)
            &&& new.member(other) == cfg.member(other)
        }),
{
    lemma_words();
    lemma_reset_is_no_task();
    let reset = task == "__reset__"@;
    let slots = if reset || task.len() == 0 {
        aux_slots()
    } else {
        seq![task]
    };
    let (p, m) = if reset {
        ("auto"@, Seq::<char>::empty())
    } else {
        (provider, model)
    };
    let root = cfg.as_table()->0;
    assert(model_assignment("auxiliary"@, provider, model, task, Ok(cfg)) == Ok::<Tree, Seq<char>>(
        retabled(cfg, aux_assigned(root, slots, p, m)),
    ));
    law_auxiliary_read_back(cfg, slots, p, m, slot, k, other);
    lemma_retabled(cfg, aux_assigned(root, slots, p, m));
    assert(seq![task][0] == task);
    if !reset && task.len() > 0 {
        assert(slots.contains(slot) <==> task == slot) by {
            if task == slot {
                assert(slots[0] == slot);
            }
        }
    }
}

/// What is told where providers are not saved: which section is no table, the first one first.
pub proof fn law_providers_complaints(
    memory_provider: Option<Seq<char>>,
    ce: Seq<char>,
    e: Seq<(Tree, Tree)>,
    t: Tree,
)
    ensures
        memory_provider is Some && get(e, "memory"@) == Some(t) && !(t is Table)
            ==> providers_saved(memory_provider, Some(ce), Tree::Table(e)) == Err::<
            Tree,
            Seq<char>,
        >(MEMORY_NOT_A_TABLE@),
        memory_provider is None && get(e, "context"@) == Some(t) && !(t is Table)
            ==> providers_saved(memory_provider, Some(ce), Tree::Table(e)) == Err::<
            Tree,
            Seq<char>,
        >(CONTEXT_NOT_A_TABLE@),
{
}

} // verus!
