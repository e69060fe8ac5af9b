//! The configuration: how `config.yaml` is shown in the form, and how the form is written
//! back.
//!
//! In the file the model is a text or a table with a provider, a base URL and more. The
//! form shows its name and, beside it, a context length.
use vstd::prelude::*;
use vstd::string::*;

use crate::models::{model_named, named_model};
use crate::text::{opt_text, starts_with_char, text_result, trim, trimmed, unit_result};
use crate::value::{
    copy_entries, cut, distinct_keys, entries, field, fields, get, has_key, int_number, integer,
    key_index, law_cut_get, law_cut_keeps, law_distinct_keys, law_put_get, law_put_keeps,
    lemma_key_index, lemma_key_index_is, lemma_table_tree, put, section_member, table_cut,
    table_get, table_put, text, tree_result, Fields, Number, Tree, Value,
};

verus! {

broadcast use lemma_table_tree;

// ---------------------------------------------------------------------------
// From the file to the form
// ---------------------------------------------------------------------------

/// The integer that a number is, from zero to the greatest signed integer of 64 bits: a
/// greater one counts as the greatest, a negative one and anything else as zero.
pub open spec fn integer_nonneg(t: Tree) -> i64 {
    match t {
        Tree::Number(Number::PosInt(n)) => if n <= i64::MAX {
            n as i64
        } else {
            i64::MAX
        },
        Tree::Number(Number::NegInt(n)) => if n > 0 {
            n
        } else {
            0
        },
        _ => 0,
    }
}

/// The integer that a number is, from zero on; zero for anything else.
pub fn json_integer_nonneg(v: &Value) -> (r: i64)
    ensures
        r == integer_nonneg(v@),
        r >= 0,
{
    match v {
        Value::Number(Number::PosInt(n)) => if *n <= i64::MAX as u64 {
            *n as i64
        } else {
            i64::MAX
        },
        Value::Number(Number::NegInt(n)) => if *n > 0 {
            *n
        } else {
            0
        },
        _ => 0,
    }
}

/// The context length that a table of the model holds; zero where it holds none.
pub open spec fn context_length(m: Seq<(Tree, Tree)>) -> i64 {
    match get(m, "context_length"@) {
        Some(t) => integer_nonneg(t),
        None => 0,
    }
}

/// The configuration as the form shows it: the name of the model in place of its table, and
/// its context length in an entry of its own.
pub open spec fn normalized(config: Tree) -> Tree {
    match config {
        Tree::Table(e) => match get(e, "model"@) {
            Some(Tree::Table(m)) => Tree::Table(
                put(
                    put(e, "model"@, Tree::Text(named_model(m))),
                    "model_context_length"@,
                    Tree::Number(int_number(context_length(m))),
                ),
            ),
            _ => Tree::Table(put(e, "model_context_length"@, Tree::Number(int_number(0)))),
        },
        _ => config,
    }
}

/// The configuration as the form shows it.
pub fn normalize_config_for_web(config: Value) -> (r: Value)
    ensures
        r@ == normalized(config@),
{
    match config {
        Value::Table(e) => {
            let mut e = e;
            let (name, length): (Option<String>, i64) = match table_get(&e, "model") {
                Some(Value::Table(m)) => {
                    let length: i64 = match table_get(m, "context_length") {
                        Some(v) => json_integer_nonneg(v),
                        None => 0,
                    };
                    (Some(model_named(m)), length)
                },
                _ => (None, 0),
            };
            if let Some(name) = name {
                table_put(&mut e, "model", Value::Text(name));
            }
            table_put(&mut e, "model_context_length", integer(length));
            Value::Table(e)
        },
        other => other,
    }
}

/// A key that is not for the form: one that starts with an underscore.
pub open spec fn is_internal(k: Tree) -> bool {
    k is Text && k->Text_0.len() > 0 && k->Text_0[0] == '_'
}

/// The entries that are for the form, in their order.
pub open spec fn visible(e: Seq<(Tree, Tree)>) -> Seq<(Tree, Tree)>
    decreases e.len(),
{
    if e.len() == 0 {
        e
    } else if is_internal(e.last().0) {
        visible(e.drop_last())
    } else {
        visible(e.drop_last()).push(e.last())
    }
}

/// Takes the entries out that are not for the form.
pub fn strip_internal_config_keys(config: &mut Vec<(Value, Value)>)
    ensures
        entries(final(config)@) == visible(entries(old(config)@)),
{
    let ghost all = entries(config@);
    let ghost mut k: int = 0;
    let mut i: usize = 0;
    assert(visible(all.take(0)) + all.skip(0) =~= all);
    while i < config.len()
        invariant
            0 <= k <= all.len(),
            i == visible(all.take(k)).len(),
            entries(config@) =~= visible(all.take(k)) + all.skip(k),
        decreases all.len() - k,
    {
        let internal = match &config[i].0 {
            Value::Text(s) => starts_with_char(s.as_str(), '_'),
            _ => false,
        };
        assert(entries(config@)[i as int] == all.skip(k)[0]);
        assert(all.take(k + 1).drop_last() =~= all.take(k));
        assert(all.take(k + 1).last() == all[k]);
        if internal {
            let ghost before = entries(config@);
            let _ = config.remove(i);
            assert(entries(config@) =~= before.remove(i as int));
        } else {
            i = i + 1;
        }
        proof {
            k = k + 1;
        }
    }
    assert(all.take(k) =~= all);
}

/// The configuration as the form gets it.
pub open spec fn form(config: Tree) -> Tree {
    match normalized(config) {
        Tree::Table(e) => Tree::Table(visible(e)),
        other => other,
    }
}

/// The configuration as the form gets it: normalized, and without the entries that are not
/// for it.
pub fn get_config(raw: Value) -> (r: Value)
    ensures
        r@ == form(raw@),
{
    match normalize_config_for_web(raw) {
        Value::Table(e) => {
            let mut e = e;
            strip_internal_config_keys(&mut e);
            Value::Table(e)
        },
        other => other,
    }
}

// ---------------------------------------------------------------------------
// From the form to the file
// ---------------------------------------------------------------------------

/// The context length that the form gives; zero where it gives none.
pub open spec fn form_context_length(e: Seq<(Tree, Tree)>) -> i64 {
    match get(e, "model_context_length"@) {
        Some(t) => integer_nonneg(t),
        None => 0,
    }
}

/// The entries of the form without those that only the form has.
pub open spec fn without_form_keys(e: Seq<(Tree, Tree)>) -> Seq<(Tree, Tree)> {
    cut(cut(e, "_model_meta"@), "model_context_length"@)
}

/// The table of the model with the name and the context length of the form; without a
/// context length where the form gives none. The rest of it stays.
pub open spec fn renamed_model(
    m: Seq<(Tree, Tree)>,
    name: Seq<char>,
    length: i64,
) -> Seq<(Tree, Tree)> {
    let named = put(m, "default"@, Tree::Text(name));
    if length > 0 {
        put(named, "context_length"@, Tree::Number(int_number(length)))
    } else {
        cut(named, "context_length"@)
    }
}

/// The configuration to write for what the form holds, where the file holds `disk`: what
/// the form does not show of the model is taken from the file.
pub open spec fn denormalized(config: Tree, disk: Tree) -> Tree {
    match config {
        Tree::Table(e) => {
            let rest = without_form_keys(e);
            let length = form_context_length(cut(e, "_model_meta"@));
            match get(rest, "model"@) {
                Some(Tree::Text(name)) => if name.len() == 0 {
                    Tree::Table(rest)
                } else {
                    match disk.member("model"@) {
                        Some(Tree::Table(m)) => Tree::Table(
                            put(rest, "model"@, Tree::Table(renamed_model(m, name, length))),
                        ),
                        _ => if length > 0 {
                            Tree::Table(
                                put(
                                    rest,
                                    "model"@,
                                    Tree::Table(
                                        fields()
                                            .push(field("default"@, Tree::Text(name)))
                                            .push(field(
                                                "context_length"@,
                                                Tree::Number(int_number(length)),
                                            )),
                                    ),
                                ),
                            )
                        } else {
                            Tree::Table(rest)
                        },
                    }
                },
                _ => Tree::Table(rest),
            }
        },
        _ => config,
    }
}

/// The configuration to write for what the form holds, where the file holds `disk`.
pub fn denormalize_config_from_web(config: Value, disk: &Value) -> (r: Value)
    ensures
        r@ == denormalized(config@, disk@),
{
    let mut e = match config {
        Value::Table(e) => e,
        other => {
            return other;
        },
    };
    let _ = table_cut(&mut e, "_model_meta");
    let length: i64 = match table_cut(&mut e, "model_context_length") {
        Some(v) => json_integer_nonneg(&v),
        None => 0,
    };
    let name = match table_get(&e, "model") {
        Some(Value::Text(s)) => s.clone(),
        _ => {
            return Value::Table(e);
        },
    };
    if name.as_str().is_empty() {
        return Value::Table(e);
    }
    match disk.member("model") {
        Some(Value::Table(m)) => {
            let mut m = copy_entries(m);
            table_put(&mut m, "default", Value::Text(name));
            if length > 0 {
                table_put(&mut m, "context_length", integer(length));
            } else {
                let _ = table_cut(&mut m, "context_length");
            }
            table_put(&mut e, "model", Value::Table(m));
        },
        _ => {
            if length > 0 {
                let m = Fields::new()
                    .with("default", Value::Text(name))
                    .with("context_length", integer(length))
                    .table();
                table_put(&mut e, "model", m);
            }
        },
    }
    Value::Table(e)
}

// ---------------------------------------------------------------------------
// The text of the file
// ---------------------------------------------------------------------------

/// What is parsed of a configuration file: its text without the white space around it;
/// nothing where there is no file or it is blank, and the configuration is then empty.
pub fn config_text<'a>(file: Option<&'a str>) -> (r: Option<&'a str>)
    ensures
        match r {
            Some(t) => file is Some && t@ == trim(file->0@) && t@.len() > 0,
            None => file is None || trim(file->0@).len() == 0,
        },
{
    match file {
        Some(s) => {
            let t = trimmed(s);
            if t.is_empty() {
                None
            } else {
                Some(t)
            }
        },
        None => None,
    }
}

/// What is said of a text that is no YAML; nothing where it is YAML.
pub uninterp spec fn yaml_complaint(s: Seq<char>) -> Option<Seq<char>>;

/// `serde_yaml::from_str` into a `serde_yaml::Value`, of which only the error is kept, as
/// the text that it displays. Which texts are YAML, and what is said of one that is not, is
/// named rather than written out.
#[verifier::external_body]
fn yaml_error(s: &str) -> (r: Option<String>)
    ensures
        opt_text(r) == yaml_complaint(s@),
{
    match serde_yaml::from_str::<serde_yaml::Value>(s) {
        Ok(_) => None,
        Err(e) => Some(e.to_string()),
    }
}

/// The answer to a text of which `complaint` was said.
pub open spec fn yaml_answer(complaint: Option<Seq<char>>) -> Result<(), Seq<char>> {
    match complaint {
        Some(e) => Err("Invalid YAML: "@ + e),
        None => Ok(()),
    }
}

/// The answer to a text of which `complaint` was said.
pub fn answer_yaml(complaint: Option<String>) -> (r: Result<(), String>)
    ensures
        unit_result(r) == yaml_answer(opt_text(complaint)),
{
    match complaint {
        Some(e) => {
            let mut s = "Invalid YAML: ".to_owned();
            s.append(e.as_str());
            Err(s)
        },
        None => Ok(()),
    }
}

/// What the configuration file is to hold when a text is saved as it: the text, letter for
/// letter, where it is blank or YAML, or else why it is refused.
pub open spec fn raw_saved(text: Seq<char>) -> Result<Seq<char>, Seq<char>> {
    let answer = if trim(text).len() == 0 {
        Ok(())
    } else {
        yaml_answer(yaml_complaint(trim(text)))
    };
    match answer {
        Ok(_) => Ok(text),
        Err(e) => Err(e),
    }
}

/// What the configuration file is to hold when a text is saved as it, or why it is refused.
pub fn save_config_raw(config_yaml: String) -> (r: Result<String, String>)
    ensures
        text_result(r) == raw_saved(config_yaml@),
{
    let answer = {
        let t = trimmed(config_yaml.as_str());
        if t.is_empty() {
            Ok(())
        } else {
            answer_yaml(yaml_error(t))
        }
    };
    match answer {
        Ok(_) => Ok(config_yaml),
        Err(e) => Err(e),
    }
}

/// The configuration file as it is shown: its text, nothing where there is no file, or why it
/// cannot be read.
pub open spec fn raw_shown(file: Option<Result<Seq<char>, Seq<char>>>) -> Result<
    Seq<char>,
    Seq<char>,
> {
    match file {
        Some(Ok(s)) => Ok(s),
        Some(Err(e)) => Err("Could not read config: "@ + e),
        None => Ok(Seq::empty()),
    }
}

/// The outcome of reading a file that may be missing, with the contents of both sides.
pub open spec fn opt_text_result(r: Option<Result<String, String>>) -> Option<
    Result<Seq<char>, Seq<char>>,
> {
    match r {
        Some(x) => Some(text_result(x)),
        None => None,
    }
}

/// The configuration file as it is shown, from the outcome of reading it where it is there.
pub fn get_config_raw(file: Option<Result<String, String>>) -> (r: Result<String, String>)
    ensures
        text_result(r) == raw_shown(opt_text_result(file)),
{
    match file {
        Some(Ok(s)) => Ok(s),
        Some(Err(e)) => {
            let mut s = "Could not read config: ".to_owned();
            s.append(e.as_str());
            Err(s)
        },
        None => Ok(String::new()),
    }
}

/// The configuration file after a text was saved: what is to be written, or the file that was
/// there where the text was refused.
pub open spec fn raw_file_after(
    before: Option<Seq<char>>,
    saved: Result<Seq<char>, Seq<char>>,
) -> Option<Seq<char>> {
    match saved {
        Ok(s) => Some(s),
        Err(_) => before,
    }
}

/// A text is refused where it is neither blank nor YAML, and the file then stays as it was. Any
/// other text is what the file holds, and what is shown of it, letter for letter.
pub proof fn law_raw_save(before: Option<Seq<char>>, text: Seq<char>)
    ensures
        raw_saved(text) is Err <==> trim(text).len() > 0 && yaml_complaint(trim(text)) is Some,
        raw_saved(text) is Err ==> raw_file_after(before, raw_saved(text)) == before,
        raw_saved(text) is Ok ==> match raw_file_after(before, raw_saved(text)) {
            Some(file) => file == text && raw_shown(Some(Ok(file))) == Ok::<Seq<char>, Seq<char>>(
                text,
            ),
            None => false,
        },
{
}

/// A part of the metadata of the configuration, or that it is missing.
pub open spec fn metadata_part(root: Tree, part: Seq<char>) -> Result<Tree, Seq<char>> {
    match root.member(part) {
        Some(t) => Ok(t),
        None => Err("config-metadata.json ontbreekt '"@ + part + "'"@),
    }
}

/// A part of the metadata of the configuration, or that it is missing.
fn part_of_metadata(root: &Value, part: &str) -> (r: Result<Value, String>)
    ensures
        tree_result(r) == metadata_part(root@, part@),
{
    match root.member(part) {
        Some(v) => Ok(v.copy()),
        None => {
            let mut e = "config-metadata.json ontbreekt '".to_owned();
            e.append(part);
            e.append("'");
            Err(e)
        },
    }
}

/// The configuration that applies where the file sets nothing.
pub fn get_defaults(root: &Value) -> (r: Result<Value, String>)
    ensures
        tree_result(r) == metadata_part(root@, "defaults"@),
{
    part_of_metadata(root, "defaults")
}

/// What the form asks for.
pub fn get_schema(root: &Value) -> (r: Result<Value, String>)
    ensures
        tree_result(r) == metadata_part(root@, "schema"@),
{
    part_of_metadata(root, "schema")
}

// ---------------------------------------------------------------------------
// Laws
// ---------------------------------------------------------------------------

/// The keys of the form differ from one another.
proof fn lemma_words()
    ensures
        "model"@ != "model_context_length"@,
        "model"@ != "_model_meta"@,
        "default"@ != "context_length"@,
        "model"@ != "default"@,
        "model"@ != "context_length"@,
        !is_internal(Tree::Text("model"@)),
        !is_internal(Tree::Text("model_context_length"@)),
        is_internal(Tree::Text("_model_meta"@)),
{
    reveal_strlit("model");
    reveal_strlit("model_context_length");
    reveal_strlit("_model_meta");
    reveal_strlit("default");
    reveal_strlit("context_length");
    assert("model"@.len() == 5 && "model_context_length"@.len() == 20 && "_model_meta"@.len()
        == 11);
    assert("default"@.len() == 7 && "context_length"@.len() == 14);
    assert("model"@[0] == 'm' && "model_context_length"@[0] == 'm' && "_model_meta"@[0] == '_');
}

/// The position of a key in a table with one more entry.
proof fn lemma_key_index_push(e: Seq<(Tree, Tree)>, x: (Tree, Tree), k: Seq<char>)
    ensures
        key_index(e.push(x), k) == (if has_key(e, k) {
            key_index(e, k)
        } else if x.0 == Tree::Text(k) {
            e.len() as int
        } else {
            e.len() as int + 1
        }),
{
    lemma_key_index(e, k);
    let n = if has_key(e, k) {
        key_index(e, k)
    } else if x.0 == Tree::Text(k) {
        e.len() as int
    } else {
        e.len() as int + 1
    };
    lemma_key_index_is(e.push(x), k, n);
}

/// Taking the internal entries out leaves what the other keys give, and no internal entry.
pub proof fn law_visible(e: Seq<(Tree, Tree)>, k: Seq<char>)
    requires
        !is_internal(Tree::Text(k)),
    ensures
        get(visible(e), k) == get(e, k),
        forall|i: int| 0 <= i < visible(e).len() ==> !is_internal(#[trigger] visible(e)[i].0),
    decreases e.len(),
{
    if e.len() > 0 {
        let front = e.drop_last();
        let x = e.last();
        law_visible(front, k);
        assert(e =~= front.push(x));
        lemma_key_index(front, k);
        lemma_key_index(visible(front), k);
        lemma_key_index_push(front, x, k);
        lemma_key_index_push(visible(front), x, k);
    }
}

/// Taking the internal entries out of a table with one more entry.
proof fn lemma_visible_push(e: Seq<(Tree, Tree)>, x: (Tree, Tree))
    ensures
        visible(e.push(x)) == (if is_internal(x.0) {
            visible(e)
        } else {
            visible(e).push(x)
        }),
{
    assert(e.push(x).drop_last() =~= e);
}

/// Changing the value of an entry and taking the internal entries out can be exchanged.
proof fn lemma_visible_put(e: Seq<(Tree, Tree)>, k: Seq<char>, v: Tree)
    requires
        !is_internal(Tree::Text(k)),
    ensures
        visible(put(e, k, v)) == put(visible(e), k, v),
    decreases e.len(),
{
    law_visible(e, k);
    lemma_key_index(e, k);
    lemma_key_index(visible(e), k);
    if e.len() == 0 {
        lemma_visible_push(e, field(k, v));
    } else {
        let front = e.drop_last();
        let x = e.last();
        assert(e =~= front.push(x));
        lemma_visible_push(front, x);
        law_visible(front, k);
        lemma_key_index(front, k);
        lemma_key_index(visible(front), k);
        lemma_key_index_push(front, x, k);
        lemma_key_index_push(visible(front), x, k);
        lemma_visible_put(front, k, v);
        if has_key(front, k) {
            assert(put(e, k, v) =~= put(front, k, v).push(x));
            lemma_visible_push(put(front, k, v), x);
            assert(put(visible(e), k, v) =~= if is_internal(x.0) {
                put(visible(front), k, v)
            } else {
                put(visible(front), k, v).push(x)
            });
        } else if x.0 == Tree::Text(k) {
            assert(put(e, k, v) =~= front.push(field(k, v)));
            lemma_visible_push(front, field(k, v));
            assert(put(visible(e), k, v) =~= visible(front).push(field(k, v)));
        } else {
            assert(put(e, k, v) =~= e.push(field(k, v)));
            lemma_visible_push(e, field(k, v));
        }
    }
}

/// The file that the form can show in full: its model is no table, or it is a table that
/// names the model under `default` and sets no context length or a positive one.
pub open spec fn shown_in_full(e: Seq<(Tree, Tree)>) -> bool {
    match get(e, "model"@) {
        Some(Tree::Table(m)) => {
            &&& get(m, "default"@) matches Some(Tree::Text(name)) && name.len() > 0
            &&& match get(m, "context_length"@) {
                None => true,
                Some(t) => t matches Tree::Number(Number::PosInt(n)) && 0 < n <= i64::MAX,
            }
        },
        _ => true,
    }
}

/// Saving the form as it was shown gives the file back, but for its internal entries: the
/// provider, the base URL and whatever else the table of the model holds are kept.
pub proof fn law_form_round_trip(e: Seq<(Tree, Tree)>)
    requires
        !has_key(e, "model_context_length"@),
        shown_in_full(e),
    ensures
        denormalized(form(Tree::Table(e)), Tree::Table(e)) == Tree::Table(visible(e)),
{
    lemma_words();
    let mcl = "model_context_length"@;
    let v = visible(e);
    law_visible(e, "model"@);
    law_visible(e, mcl);
    lemma_key_index(e, mcl);
    lemma_key_index(v, mcl);
    lemma_key_index(v, "model"@);
    lemma_key_index(e, "model"@);
    let (e1, length) = match get(e, "model"@) {
        Some(Tree::Table(m)) => (put(e, "model"@, Tree::Text(named_model(m))), context_length(m)),
        _ => (e, 0),
    };
    let v1 = visible(e1);
    match get(e, "model"@) {
        Some(Tree::Table(m)) => {
            lemma_visible_put(e, "model"@, Tree::Text(named_model(m)));
            law_put_keeps(e, "model"@, Tree::Text(named_model(m)), mcl);
            law_put_keeps(v, "model"@, Tree::Text(named_model(m)), mcl);
            law_put_get(v, "model"@, Tree::Text(named_model(m)));
        },
        _ => {},
    }
    lemma_key_index(e1, mcl);
    lemma_key_index(v1, mcl);
    let last = field(mcl, Tree::Number(int_number(length)));
    lemma_visible_push(e1, last);
    let f = v1.push(last);
    assert(form(Tree::Table(e)) == Tree::Table(f));
    // Nothing internal is left to cut, and the context length stands last.
    law_visible(e1.push(last), mcl);
    lemma_key_index(f, "_model_meta"@);
    assert(cut(f, "_model_meta"@) == f);
    lemma_key_index_push(v1, last, mcl);
    assert(cut(f, mcl) =~= v1);
    match get(e, "model"@) {
        Some(Tree::Table(m)) => {
            let name = named_model(m);
            let named = put(m, "default"@, Tree::Text(name));
            lemma_key_index(m, "default"@);
            lemma_key_index(m, "context_length"@);
            assert(named =~= m);
            if length > 0 {
                assert(put(named, "context_length"@, Tree::Number(int_number(length))) =~= m);
            }
            let i = key_index(v, "model"@);
            lemma_key_index_is(v1, "model"@, i);
            assert(put(v1, "model"@, Tree::Table(m)) =~= v);
        },
        _ => {},
    }
}

/// Saving the form over a file whose model is a table changes the name and the context
/// length of the model, and nothing else in its table.
pub proof fn law_model_kept_from_disk(
    e: Seq<(Tree, Tree)>,
    disk: Tree,
    m: Seq<(Tree, Tree)>,
    name: Seq<char>,
    k: Seq<char>,
)
    requires
        get(e, "model"@) == Some(Tree::Text(name)),
        name.len() > 0,
        disk.member("model"@) == Some(Tree::Table(m)),
        distinct_keys(m),
        k != "default"@,
        k != "context_length"@,
    ensures
        ({
            let new = denormalized(Tree::Table(e), disk);
            let length = form_context_length(cut(e, "_model_meta"@));
            &&& new.member("model"@) matches Some(Tree::Table(n))
            &&& get(n, "default"@) == Some(Tree::Text(name))
            &&& get(n, "context_length"@) == (if length > 0 {
                Some(Tree::Number(int_number(length)))
            } else {
                None
            })
            &&& get(n, k) == get(m, k)
        }),
{
    lemma_words();
    let length = form_context_length(cut(e, "_model_meta"@));
    let rest = without_form_keys(e);
    law_cut_keeps(e, "_model_meta"@, "model"@);
    law_cut_keeps(cut(e, "_model_meta"@), "model_context_length"@, "model"@);
    let named = put(m, "default"@, Tree::Text(name));
    let n = renamed_model(m, name, length);
    law_put_get(m, "default"@, Tree::Text(name));
    law_put_keeps(m, "default"@, Tree::Text(name), k);
    law_put_get(rest, "model"@, Tree::Table(n));
    if length > 0 {
        let t = Tree::Number(int_number(length));
        law_put_get(named, "context_length"@, t);
        law_put_keeps(named, "context_length"@, t, k);
        law_put_keeps(named, "context_length"@, t, "default"@);
    } else {
        law_distinct_keys(m, "default"@, Tree::Text(name));
        law_cut_get(named, "context_length"@);
        law_cut_keeps(named, "context_length"@, k);
        law_cut_keeps(named, "context_length"@, "default"@);
    }
}

/// What saving the form does: every setting but the model is saved as the form holds it, whatever
/// the file holds; what only the form has is not saved; and the model is saved as a table where
/// the file has one or the form gives a context length, and as the form holds it otherwise.
pub proof fn law_form_saved(e: Seq<(Tree, Tree)>, disk: Tree, k: Seq<char>, name: Seq<char>, n: u64)
    requires
        distinct_keys(e),
    ensures
        ({
            let new = denormalized(Tree::Table(e), disk);
            let by_file = disk.member("model"@) is Some && disk.member("model"@)->0 is Table;
            &&& new is Table
            &&& k != "model"@ && k != "model_context_length"@ && k != "_model_meta"@ ==> new.member(
                k,
            ) == get(e, k)
            &&& new.member("model_context_length"@) is None
            &&& new.member("_model_meta"@) is None
            &&& !(get(e, "model"@) matches Some(Tree::Text(s)) && s.len() > 0) ==> new.member(
                "model"@,
            ) == get(e, "model"@)
            &&& get(e, "model"@) == Some(Tree::Text(name)) && name.len() > 0 && !by_file ==> {
                &&& get(e, "model_context_length"@) == Some(Tree::Number(Number::PosInt(n))) && 0
                    < n <= i64::MAX ==> {
                    &&& new.member("model"@) is Some
                    &&& new.member("model"@)->0 is Table
                    &&& section_member(new, "model"@, "default"@) == Some(Tree::Text(name))
                    &&& section_member(new, "model"@, "context_length"@) == Some(
                        Tree::Number(Number::PosInt(n)),
                    )
                    &&& k != "default"@ && k != "context_length"@ ==> section_member(
                        new,
                        "model"@,
                        k,
                    ) is None
                }
                &&& !(get(e, "model_context_length"@) matches Some(
                    Tree::Number(m),
                ) && is_positive(m)) ==> new.member("model"@) == Some(Tree::Text(name))
            }
            &&& get(e, "model"@) == Some(Tree::Text(name)) && name.len() > 0 && by_file
                && distinct_keys(disk.member("model"@)->0->Table_0) ==> {
                &&& new.member("model"@) is Some
                &&& new.member("model"@)->0 is Table
                &&& section_member(new, "model"@, "default"@) == Some(Tree::Text(name))
                &&& get(e, "model_context_length"@) == Some(Tree::Number(Number::PosInt(n))) && 0
                    < n <= i64::MAX ==> section_member(new, "model"@, "context_length"@) == Some(
                    Tree::Number(Number::PosInt(n)),
                )
                &&& !(get(e, "model_context_length"@) matches Some(
                    Tree::Number(m),
                ) && is_positive(m)) ==> section_member(new, "model"@, "context_length"@) is None
                &&& k != "default"@ && k != "context_length"@ ==> section_member(new, "model"@, k)
                    == section_member(disk, "model"@, k)
            }
        }),
{
    lemma_words();
    let meta = "_model_meta"@;
    let mcl = "model_context_length"@;
    let c1 = cut(e, meta);
    let rest = cut(c1, mcl);
    law_distinct_keys(e, meta, Tree::Null);
    law_cut_get(e, meta);
    law_cut_get(c1, mcl);
    law_cut_keeps(e, meta, mcl);
    law_cut_keeps(c1, mcl, meta);
    law_cut_keeps(e, meta, "model"@);
    law_cut_keeps(c1, mcl, "model"@);
    if k != meta && k != mcl {
        law_cut_keeps(e, meta, k);
        law_cut_keeps(c1, mcl, k);
    }
    let length = form_context_length(c1);
    if let Some(Tree::Number(m)) = get(e, mcl) {
        assert(length > 0 <==> is_positive(m));
    }
    if get(e, "model"@) matches Some(Tree::Text(s)) && s.len() > 0 {
        let s = get(e, "model"@)->0->Text_0;
        let model = match disk.member("model"@) {
            Some(Tree::Table(m)) => Tree::Table(renamed_model(m, s, length)),
            _ => if length > 0 {
                Tree::Table(
                    fields().push(field("default"@, Tree::Text(s))).push(
                        field("context_length"@, Tree::Number(int_number(length))),
                    ),
                )
            } else {
                Tree::Text(s)
            },
        };
        law_put_get(rest, "model"@, model);
        law_put_keeps(rest, "model"@, model, mcl);
        law_put_keeps(rest, "model"@, model, meta);
        if k != "model"@ {
            law_put_keeps(rest, "model"@, model, k);
        }
        match disk.member("model"@) {
            Some(Tree::Table(m)) => {
                if distinct_keys(m) && k != "default"@ && k != "context_length"@ {
                    law_model_kept_from_disk(e, disk, m, s, k);
                } else if distinct_keys(m) {
                    law_model_kept_from_disk(e, disk, m, s, "model"@);
                }
            },
            _ => {
                if length > 0 {
                    let t = model->Table_0;
                    lemma_key_index_is(t, "default"@, 0);
                    lemma_key_index_is(t, "context_length"@, 1);
                    if k != "default"@ && k != "context_length"@ {
                        lemma_key_index_is(t, k, 2);
                    }
                }
            },
        }
    }
}

/// The number is an integer above zero.
pub open spec fn is_positive(n: Number) -> bool {
    match n {
        Number::PosInt(v) => v > 0,
        Number::NegInt(v) => v > 0,
        _ => false,
    }
}

/// What does not come as a table is saved as it comes.
pub proof fn law_other_forms(t: Tree, disk: Tree)
    requires
        !(t is Table),
    ensures
        denormalized(t, disk) == t,
        form(t) == t,
        normalized(t) == t,
{
}

/// What the form shows of a file: every setting that is not internal as the file holds it; the
/// name of the model, from `default` or else from `name`, in place of its table; and beside it
/// the context length, zero where none is set.
pub proof fn law_form_shown(e: Seq<(Tree, Tree)>, k: Seq<char>, m: Seq<(Tree, Tree)>, n: u64)
    ensures
        ({
            let f = form(Tree::Table(e));
            &&& f is Table
            &&& k.len() > 0 && k[0] == '_' ==> f.member(k) is None
            &&& !(k.len() > 0 && k[0] == '_') && k != "model"@ && k != "model_context_length"@
                ==> f.member(k) == get(e, k)
            &&& !(get(e, "model"@) matches Some(Tree::Table(_))) ==> {
                &&& f.member("model"@) == get(e, "model"@)
                &&& f.member("model_context_length"@) == Some(Tree::Number(Number::PosInt(0)))
            }
            &&& get(e, "model"@) == Some(Tree::Table(m)) ==> {
                &&& get(m, "default"@) matches Some(t) ==> f.member("model"@) == Some(
                    Tree::Text(
                        match t.as_text() {
                            Some(s) => s,
                            None => Seq::empty(),
                        },
                    ),
                )
                &&& get(m, "default"@) is None ==> {
                    &&& get(m, "name"@) matches Some(t) ==> f.member("model"@) == Some(
                        Tree::Text(
                            match t.as_text() {
                                Some(s) => s,
                                None => Seq::empty(),
                            },
                        ),
                    )
                    &&& get(m, "name"@) is None ==> f.member("model"@) == Some(
                        Tree::Text(Seq::empty()),
                    )
                }
                &&& get(m, "context_length"@) == Some(Tree::Number(Number::PosInt(n))) && n
                    <= i64::MAX ==> f.member("model_context_length"@) == Some(
                    Tree::Number(Number::PosInt(n)),
                )
                &&& !(get(m, "context_length"@) matches Some(Tree::Number(x)) && is_positive(x))
                    ==> f.member("model_context_length"@) == Some(
                    Tree::Number(Number::PosInt(0)),
                )
            }
        }),
{
    lemma_words();
    let mcl = "model_context_length"@;
    let (e1, length) = match get(e, "model"@) {
        Some(Tree::Table(m)) => (put(e, "model"@, Tree::Text(named_model(m))), context_length(m)),
        _ => (e, 0),
    };
    let e2 = put(e1, mcl, Tree::Number(int_number(length)));
    assert(normalized(Tree::Table(e)) == Tree::Table(e2));
    law_put_get(e1, mcl, Tree::Number(int_number(length)));
    law_put_keeps(e1, mcl, Tree::Number(int_number(length)), "model"@);
    law_visible(e2, mcl);
    law_visible(e2, "model"@);
    match get(e, "model"@) {
        Some(Tree::Table(m)) => {
            law_put_get(e, "model"@, Tree::Text(named_model(m)));
            if k != "model"@ {
                law_put_keeps(e, "model"@, Tree::Text(named_model(m)), k);
            }
        },
        _ => {},
    }
    if k != mcl {
        law_put_keeps(e1, mcl, Tree::Number(int_number(length)), k);
    }
    if !(k.len() > 0 && k[0] == '_') {
        law_visible(e2, k);
    } else {
        lemma_key_index(visible(e2), k);
        if has_key(visible(e2), k) {
            assert(is_internal(visible(e2)[key_index(visible(e2), k)].0));
        }
    }
}

/// A context length counts where it is an integer, from zero up to the greatest signed one.
pub proof fn law_integer_nonneg(p: u64, n: i64, t: Tree)
    ensures
        p <= i64::MAX ==> integer_nonneg(Tree::Number(Number::PosInt(p))) == p,
        p > i64::MAX ==> integer_nonneg(Tree::Number(Number::PosInt(p))) == i64::MAX,
        n < 0 ==> integer_nonneg(Tree::Number(Number::NegInt(n))) == 0,
        !(t is Number) ==> integer_nonneg(t) == 0,
        integer_nonneg(t) >= 0,
{
}

/// The entries that are not internal stay, in their order and with all others gone.
pub proof fn law_visible_entries(e: Seq<(Tree, Tree)>)
    ensures
        visible(e) == e.filter(
            |x: (Tree, Tree)| !(x.0 matches Tree::Text(k) && k.len() > 0 && k[0] == '_'),
        ),
    decreases e.len(),
{
    let p = |x: (Tree, Tree)| !(x.0 matches Tree::Text(k) && k.len() > 0 && k[0] == '_');
    reveal(Seq::filter);
    if e.len() > 0 {
        law_visible_entries(e.drop_last());
    }
}

/// The metadata give the part that is asked for; where they lack it, the answer names it.
pub proof fn law_metadata_part(root: Tree, part: Seq<char>, v: Tree)
    ensures
        root.member(part) == Some(v) ==> metadata_part(root, part) == Ok::<Tree, Seq<char>>(v),
        root.member(part) is None ==> metadata_part(root, part) == Err::<Tree, Seq<char>>(
            "config-metadata.json ontbreekt '"@ + part + "'"@,
        ),
{
}

/// A text that is no YAML is refused with the complaint about it; a file that cannot be read is
/// told with the reason, and one that is missing is shown as an empty text.
pub proof fn law_raw_complaints(text: Seq<char>, e: Seq<char>)
    ensures
        trim(text).len() > 0 && yaml_complaint(trim(text)) == Some(e) ==> raw_saved(text) == Err::<
            Seq<char>,
            Seq<char>,
        >("Invalid YAML: "@ + e),
        yaml_answer(Some(e)) == Err::<(), Seq<char>>("Invalid YAML: "@ + e),
        yaml_answer(None) == Ok::<(), Seq<char>>(()),
        raw_shown(Some(Err(e))) == Err::<Seq<char>, Seq<char>>("Could not read config: "@ + e),
        raw_shown(None) == Ok::<Seq<char>, Seq<char>>(Seq::empty()),
{
}

} // verus!
