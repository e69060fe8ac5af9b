//! The variables of the `.env` file: reading, changing and deleting them, and what is told
//! of each to the form.
use vstd::prelude::*;
use vstd::string::*;

use crate::text::{
    chars_of, index_of, is_white_space, join, joined, law_join_lines, law_trim,
    law_trim_takes_white_space, lemma_index_of, lemma_index_of_is, lemma_join_cons,
    lemma_lines_cons, lemma_lines_hold_no_feed, lemma_trim_bounds, lemma_trim_is,
    lemma_trim_without_cr, lines, lines_of, position_of, starts_with_char, string_of, text_eq,
    texts, trim, trim_bounds, trimmed, without_cr,
};
use crate::value::{
    entries, field, fields, lemma_key_index_is, lemma_list_tree, lemma_table_tree, text, trees,
    Fields, Tree, Value,
};

verus! {

broadcast use {lemma_list_tree, lemma_table_tree};

/// The mark that some editors put before a text.
pub const BOM: char = '\u{FEFF}';

// ---------------------------------------------------------------------------
// Reading
// ---------------------------------------------------------------------------

/// The text without the mark before it.
pub open spec fn without_bom(s: Seq<char>) -> Seq<char> {
    if s.len() > 0 && s[0] == BOM {
        s.drop_first()
    } else {
        s
    }
}

/// The text without the mark before it.
pub fn strip_utf8_bom<'a>(s: &'a str) -> (r: &'a str)
    ensures
        r@ == without_bom(s@),
{
    if starts_with_char(s, BOM) {
        let n: usize = s.unicode_len();
        let r = s.substring_char(1, n);
        assert(r@ =~= s@.drop_first());
        r
    } else {
        s
    }
}

/// A value without the quotes around it.
pub open spec fn unquoted(v: Seq<char>) -> Seq<char> {
    if v.len() >= 2 && ((v[0] == '"' && v.last() == '"') || (v[0] == '\'' && v.last() == '\'')) {
        v.subrange(1, v.len() - 1)
    } else {
        v
    }
}

/// The variable that a line sets and the value that it gives it. A blank line, a comment and
/// a line without `=` set none.
pub open spec fn assignment(line: Seq<char>) -> Option<(Seq<char>, Seq<char>)> {
    let t = trim(line);
    let i = index_of(t, '=');
    if t.len() == 0 || t[0] == '#' || i >= t.len() {
        None
    } else {
        Some((trim(t.take(i)), unquoted(trim(t.skip(i + 1)))))
    }
}

/// The variables after the lines were read; a later line overrides an earlier one.
pub open spec fn assigned(
    start: Map<Seq<char>, Seq<char>>,
    ls: Seq<Seq<char>>,
) -> Map<Seq<char>, Seq<char>>
    decreases ls.len(),
{
    if ls.len() == 0 {
        start
    } else {
        let before = assigned(start, ls.drop_last());
        match assignment(ls.last()) {
            Some((k, v)) => before.insert(k, v),
            None => before,
        }
    }
}

/// The variables that a `.env` file sets.
pub open spec fn env_of(file: Seq<char>) -> Map<Seq<char>, Seq<char>> {
    assigned(Map::empty(), lines(without_bom(file)))
}

/// The variables after pairs were set one after the other.
pub open spec fn pairs_set(ps: Seq<(String, String)>) -> Map<Seq<char>, Seq<char>>
    decreases ps.len(),
{
    if ps.len() == 0 {
        Map::empty()
    } else {
        pairs_set(ps.drop_last()).insert(ps.last().0@, ps.last().1@)
    }
}

/// Variables and their values.
pub struct EnvVars {
    pairs: Vec<(String, String)>,
}

impl View for EnvVars {
    type V = Map<Seq<char>, Seq<char>>;

    closed spec fn view(&self) -> Map<Seq<char>, Seq<char>> {
        pairs_set(self.pairs@)
    }
}

impl EnvVars {
    /// No variables.
    pub fn new() -> (r: EnvVars)
        ensures
            r@ == Map::<Seq<char>, Seq<char>>::empty(),
    {
        EnvVars { pairs: Vec::new() }
    }

    /// Sets a variable.
    pub fn set(&mut self, k: String, v: String)
        ensures
            final(self)@ == old(self)@.insert(k@, v@),
    {
        let ghost before = self.pairs@;
        self.pairs.push((k, v));
        assert(self.pairs@.drop_last() =~= before);
    }

    /// The value of a variable.
    pub fn get(&self, k: &str) -> (r: Option<&String>)
        ensures
            match r {
                Some(v) => self@.dom().contains(k@) && v@ == self@[k@],
                None => !self@.dom().contains(k@),
            },
    {
        let mut i: usize = self.pairs.len();
        assert(self.pairs@.take(i as int) =~= self.pairs@);
        while i > 0
            invariant
                i <= self.pairs@.len(),
                self@.dom().contains(k@) == pairs_set(self.pairs@.take(i as int)).dom().contains(
                    k@,
                ),
                self@.dom().contains(k@) ==> self@[k@] == pairs_set(
                    self.pairs@.take(i as int),
                )[k@],
            decreases i,
        {
            assert(self.pairs@.take(i as int).drop_last() =~= self.pairs@.take(i - 1));
            assert(self.pairs@.take(i as int).last() == self.pairs@[i - 1]);
            i = i - 1;
            if text_eq(self.pairs[i].0.as_str(), k) {
                return Some(&self.pairs[i].1);
            }
        }
        None
    }
}

/// A value without the quotes around it.
fn unquote(v: &str) -> (r: String)
    ensures
        r@ == unquoted(v@),
{
    let cs = chars_of(v);
    let n: usize = cs.len();
    if n >= 2 && ((cs[0] == '"' && cs[n - 1] == '"') || (cs[0] == '\'' && cs[n - 1] == '\'')) {
        string_of(&cs, 1, n - 1)
    } else {
        v.to_owned()
    }
}

/// The variable that a line sets and the value that it gives it.
fn read_assignment(line: &str) -> (r: Option<(String, String)>)
    ensures
        match r {
            Some((k, v)) => assignment(line@) == Some((k@, v@)),
            None => assignment(line@) is None,
        },
{
    let t = trimmed(line);
    if t.is_empty() || starts_with_char(t, '#') {
        return None;
    }
    match position_of(t, '=') {
        Some(i) => {
            let n: usize = t.unicode_len();
            let left = t.substring_char(0, i);
            let right = t.substring_char(i + 1, n);
            assert(left@ =~= t@.take(i as int));
            assert(right@ =~= t@.skip(i + 1));
            Some((trimmed(left).to_owned(), unquote(trimmed(right))))
        },
        None => None,
    }
}

/// The variables that the text of a `.env` file sets.
pub fn load_dotenv_simple(raw: &str) -> (r: EnvVars)
    ensures
        r@ == env_of(raw@),
{
    let ls = lines_of(strip_utf8_bom(raw));
    let ghost all = texts(ls@);
    let mut out = EnvVars::new();
    let mut i: usize = 0;
    assert(all.take(0) =~= Seq::<Seq<char>>::empty());
    while i < ls.len()
        invariant
            i <= ls@.len(),
            all == texts(ls@),
            out@ == assigned(Map::empty(), all.take(i as int)),
        decreases ls@.len() - i,
    {
        assert(all.take(i + 1).drop_last() =~= all.take(i as int));
        assert(all.take(i + 1).last() == ls@[i as int]@);
        match read_assignment(ls[i].as_str()) {
            Some((k, v)) => {
                out.set(k, v);
            },
            None => {},
        }
        i = i + 1;
    }
    assert(all.take(i as int) =~= all);
    out
}

// ---------------------------------------------------------------------------
// Writing
// ---------------------------------------------------------------------------

/// The lines for which `p` holds, in their order.
pub open spec fn keep(ls: Seq<Seq<char>>, p: spec_fn(Seq<char>) -> bool) -> Seq<Seq<char>>
    decreases ls.len(),
{
    if ls.len() == 0 {
        ls
    } else if p(ls.last()) {
        keep(ls.drop_last(), p).push(ls.last())
    } else {
        keep(ls.drop_last(), p)
    }
}

/// The text before the first `=` of a line is `key`, but for white space around it.
pub open spec fn names_key(line: Seq<char>, key: Seq<char>) -> bool {
    let i = index_of(line, '=');
    i < line.len() && trim(line.take(i)) == key
}

/// The line sets the variable `key`.
pub open spec fn sets_key(line: Seq<char>, key: Seq<char>) -> bool {
    assignment(line) matches Some((k, _)) && k == key
}

/// Lines as the text of a file.
pub open spec fn file_of(ls: Seq<Seq<char>>) -> Seq<char> {
    join(ls, "\n"@) + "\n"@
}

/// The line that sets a variable.
pub open spec fn line_for(key: Seq<char>, value: Seq<char>) -> Seq<char> {
    key + "="@ + value
}

/// The lines that stay when the variable `key` is set anew.
pub open spec fn lines_beside(file: Seq<char>, key: Seq<char>) -> Seq<Seq<char>> {
    keep(lines(file), |l: Seq<char>| !names_key(l, key))
}

/// The lines that stay when the variable `key` is deleted.
pub open spec fn lines_without(file: Seq<char>, key: Seq<char>) -> Seq<Seq<char>> {
    keep(lines(file), |l: Seq<char>| !sets_key(l, key))
}

/// Whether the text before the first `=` of a line is `key`.
fn line_names(line: &str, key: &str) -> (r: bool)
    ensures
        r == names_key(line@, key@),
{
    match position_of(line, '=') {
        Some(i) => {
            let left = line.substring_char(0, i);
            assert(left@ =~= line@.take(i as int));
            text_eq(trimmed(left), key)
        },
        None => false,
    }
}

/// Lines as the text of a file.
fn write_lines(ls: &Vec<String>) -> (r: String)
    ensures
        r@ == file_of(texts(ls@)),
{
    let mut out = joined(ls, "\n");
    out.append("\n");
    out
}

/// The text of the `.env` file after a variable was set: the lines that set it go, and one
/// that sets it comes last.
pub fn set_env_var(existing: &str, key: &str, value: &str) -> (r: String)
    ensures
        r@ == file_of(lines_beside(existing@, key@).push(line_for(key@, value@))),
{
    let ls = lines_of(existing);
    let ghost all = texts(ls@);
    let ghost p = |l: Seq<char>| !names_key(l, key@);
    let mut kept: Vec<String> = Vec::new();
    let mut i: usize = 0;
    assert(all.take(0) =~= Seq::<Seq<char>>::empty());
    assert(texts(kept@) =~= Seq::<Seq<char>>::empty());
    while i < ls.len()
        invariant
            i <= ls@.len(),
            all == texts(ls@),
            p == (|l: Seq<char>| !names_key(l, key@)),
            texts(kept@) == keep(all.take(i as int), p),
        decreases ls@.len() - i,
    {
        assert(all.take(i + 1).drop_last() =~= all.take(i as int));
        assert(all.take(i + 1).last() == ls@[i as int]@);
        if !line_names(ls[i].as_str(), key) {
            let ghost before = texts(kept@);
            kept.push(ls[i].clone());
            assert(texts(kept@) =~= before.push(all[i as int]));
        }
        i = i + 1;
    }
    assert(all.take(i as int) =~= all);
    let mut line = key.to_owned();
    line.append("=");
    line.append(value);
    let ghost before = texts(kept@);
    kept.push(line);
    assert(texts(kept@) =~= before.push(line_for(key@, value@)));
    write_lines(&kept)
}

/// The text of the `.env` file after a variable was deleted: the lines that set it are gone.
pub fn delete_env_var(existing: &str, key: &str) -> (r: String)
    ensures
        r@ == file_of(lines_without(existing@, trim(key@))),
{
    let key = trimmed(key);
    let ls = lines_of(existing);
    let ghost all = texts(ls@);
    let ghost p = |l: Seq<char>| !sets_key(l, key@);
    let mut kept: Vec<String> = Vec::new();
    let mut i: usize = 0;
    assert(all.take(0) =~= Seq::<Seq<char>>::empty());
    assert(texts(kept@) =~= Seq::<Seq<char>>::empty());
    while i < ls.len()
        invariant
            i <= ls@.len(),
            all == texts(ls@),
            p == (|l: Seq<char>| !sets_key(l, key@)),
            texts(kept@) == keep(all.take(i as int), p),
        decreases ls@.len() - i,
    {
        assert(all.take(i + 1).drop_last() =~= all.take(i as int));
        assert(all.take(i + 1).last() == ls@[i as int]@);
        let sets = match read_assignment(ls[i].as_str()) {
            Some((k, _)) => text_eq(k.as_str(), key),
            None => false,
        };
        if !sets {
            let ghost before = texts(kept@);
            kept.push(ls[i].clone());
            assert(texts(kept@) =~= before.push(all[i as int]));
        }
        i = i + 1;
    }
    assert(all.take(i as int) =~= all);
    write_lines(&kept)
}

// ---------------------------------------------------------------------------
// What the form is told
// ---------------------------------------------------------------------------

/// A secret as it is shown: three stars for a short one, the first and the last four
/// characters of one that has at least twelve.
pub open spec fn masked(v: Seq<char>) -> Seq<char> {
    if v.len() == 0 {
        Seq::empty()
    } else if v.len() < 12 {
        "***"@
    } else {
        v.take(4) + "..."@ + v.skip(v.len() - 4)
    }
}

/// A secret as it is shown.
pub fn mask_secret_display(value: &str) -> (r: String)
    ensures
        r@ == masked(value@),
{
    let cs = chars_of(value);
    let count: usize = cs.len();
    if count == 0 {
        return String::new();
    }
    if count < 12 {
        return "***".to_owned();
    }
    let mut out = string_of(&cs, 0, 4);
    out.append("...");
    out.append(string_of(&cs, count - 4, count).as_str());
    assert(cs@.subrange(0, 4) =~= value@.take(4));
    assert(cs@.subrange(count - 4, count as int) =~= value@.skip(count - 4));
    out
}

/// The texts among the items of a list.
pub open spec fn texts_among(items: Seq<Tree>) -> Seq<Tree>
    decreases items.len(),
{
    if items.len() == 0 {
        items
    } else {
        match items.last().as_text() {
            Some(s) => texts_among(items.drop_last()).push(Tree::Text(s)),
            None => texts_among(items.drop_last()),
        }
    }
}

/// The texts in the list under a key; none where there is no list.
pub open spec fn texts_under(t: Tree, k: Seq<char>) -> Seq<Tree> {
    match t.member(k) {
        Some(v) => match v.as_list() {
            Some(items) => texts_among(items),
            None => Seq::empty(),
        },
        None => Seq::empty(),
    }
}

/// The texts in the list under a key; none where there is no list.
fn texts_listed(v: &Value, k: &str) -> (r: Vec<Value>)
    ensures
        trees(r@) == texts_under(v@, k@),
{
    let mut out: Vec<Value> = Vec::new();
    assert(trees(out@) =~= Seq::<Tree>::empty());
    let items = match v.member(k) {
        Some(x) => match x.as_list() {
            Some(items) => items,
            None => {
                return out;
            },
        },
        None => {
            return out;
        },
    };
    let ghost all = trees(items@);
    let mut i: usize = 0;
    assert(all.take(0) =~= Seq::<Tree>::empty());
    while i < items.len()
        invariant
            i <= items@.len(),
            all == trees(items@),
            trees(out@) == texts_among(all.take(i as int)),
        decreases items@.len() - i,
    {
        assert(all.take(i + 1).drop_last() =~= all.take(i as int));
        assert(all.take(i + 1).last() == items@[i as int]@);
        if let Some(s) = items[i].as_text() {
            let ghost before = trees(out@);
            out.push(text(s));
            assert(trees(out@) =~= before.push(Tree::Text(s@)));
        }
        i = i + 1;
    }
    assert(all.take(i as int) =~= all);
    out
}

/// What the form is told of a variable: whether it is set, its value masked, and what the
/// metadata say of it. An empty value counts as not set.
pub open spec fn env_row(meta: Tree, value: Option<Seq<char>>) -> Tree {
    let is_set = value is Some && value->0.len() > 0;
    Tree::Table(
        fields()
            .push(field("is_set"@, Tree::Bool(is_set)))
            .push(field(
                "redacted_value"@,
                if is_set { Tree::Text(masked(value->0)) } else { Tree::Null },
            ))
            .push(field("description"@, Tree::Text(meta.text_or("description"@, Seq::empty()))))
            .push(field("url"@, match meta.member("url"@) { Some(u) => u, None => Tree::Null }))
            .push(field("category"@, Tree::Text(meta.text_or("category"@, Seq::empty()))))
            .push(field("is_password"@, Tree::Bool(meta.flag_or("password"@, false))))
            .push(field("tools"@, Tree::List(texts_under(meta, "tools"@))))
            .push(field("advanced"@, Tree::Bool(meta.flag_or("advanced"@, false)))),
    )
}

/// The value of the variable that a key of the metadata names.
pub open spec fn value_for(
    env: Map<Seq<char>, Seq<char>>,
    key: Tree,
) -> Option<Seq<char>> {
    match key {
        Tree::Text(k) => if env.dom().contains(k) {
            Some(env[k])
        } else {
            None
        },
        _ => None,
    }
}

/// What the form is told of the variables that the metadata name, in their order.
pub open spec fn env_rows(
    vars: Seq<(Tree, Tree)>,
    env: Map<Seq<char>, Seq<char>>,
) -> Seq<(Tree, Tree)> {
    Seq::new(
        vars.len(),
        |i: int| (vars[i].0, env_row(vars[i].1, value_for(env, vars[i].0))),
    )
}

/// What the form is told of a variable.
fn row_for(meta: &Value, value: Option<&String>) -> (r: Value)
    ensures
        r@ == env_row(
            meta@,
            match value {
                Some(v) => Some(v@),
                None => None,
            },
        ),
{
    let none = String::new();
    let shown: Option<String> = match value {
        Some(v) => if v.as_str().is_empty() {
            None
        } else {
            Some(mask_secret_display(v.as_str()))
        },
        None => None,
    };
    let is_set = shown.is_some();
    let redacted = match shown {
        Some(s) => Value::Text(s),
        None => Value::Null,
    };
    let url = match meta.member("url") {
        Some(u) => u.copy(),
        None => Value::Null,
    };
    let description = meta.text_or("description", none.as_str());
    let category = meta.text_or("category", none.as_str());
    Fields::new()
        .with("is_set", Value::Bool(is_set))
        .with("redacted_value", redacted)
        .with("description", Value::Text(description))
        .with("url", url)
        .with("category", Value::Text(category))
        .with("is_password", Value::Bool(meta.flag_or("password", false)))
        .with("tools", Value::List(texts_listed(meta, "tools")))
        .with("advanced", Value::Bool(meta.flag_or("advanced", false)))
        .table()
}

/// What the form is told of the variables that the metadata name.
pub fn get_env_vars(vars: &Vec<(Value, Value)>, disk: &EnvVars) -> (r: Value)
    ensures
        r@ == Tree::Table(env_rows(entries(vars@), disk@)),
{
    let mut out: Vec<(Value, Value)> = Vec::new();
    let mut i: usize = 0;
    while i < vars.len()
        invariant
            i <= vars@.len(),
            out@.len() == i,
            forall|j: int|
                0 <= j < i ==> (out@[j].0@, out@[j].1@) == env_rows(entries(vars@), disk@)[j],
        decreases vars@.len() - i,
    {
        let value = match &vars[i].0 {
            Value::Text(k) => disk.get(k.as_str()),
            _ => None,
        };
        let row = row_for(&vars[i].1, value);
        out.push((vars[i].0.copy(), row));
        i = i + 1;
    }
    assert(entries(out@) =~= env_rows(entries(vars@), disk@));
    Value::Table(out)
}

/// Raw values are not shown.
pub fn reveal_env_var(key: &str) -> (r: Result<String, String>)
    ensures
        r is Err,
        r->Err_0@ == "Het tonen van ruwe waarden voor '"@ + key@
            + "' is niet ingeschakeld in HermesOS desktop (veiligheid)."@,
{
    let mut e = "Het tonen van ruwe waarden voor '".to_owned();
    e.append(key);
    e.append("' is niet ingeschakeld in HermesOS desktop (veiligheid).");
    Err(e)
}

// ---------------------------------------------------------------------------
// Laws
// ---------------------------------------------------------------------------

/// A masked secret of twelve characters or more shows its first and its last four
/// characters and nothing between them; a shorter one shows nothing.
pub proof fn law_mask(v: Seq<char>)
    ensures
        v.len() >= 12 ==> masked(v).len() == 11 && masked(v).take(4) == v.take(4) && masked(
            v,
        ).subrange(4, 7) == "..."@ && masked(v).skip(7) == v.skip(v.len() - 4),
        0 < v.len() < 12 ==> masked(v) == "***"@,
{
    reveal_strlit("...");
    assert("..."@.len() == 3);
    if v.len() >= 12 {
        assert(masked(v).take(4) =~= v.take(4));
        assert(masked(v).subrange(4, 7) =~= "..."@);
        assert(masked(v).skip(7) =~= v.skip(v.len() - 4));
    }
}

/// Reading lines after other lines.
proof fn lemma_assigned_concat(
    m: Map<Seq<char>, Seq<char>>,
    a: Seq<Seq<char>>,
    b: Seq<Seq<char>>,
)
    ensures
        assigned(m, a + b) == assigned(assigned(m, a), b),
    decreases b.len(),
{
    if b.len() == 0 {
        assert(a + b =~= a);
    } else {
        assert((a + b).drop_last() =~= a + b.drop_last());
        lemma_assigned_concat(m, a, b.drop_last());
    }
}

/// Keeping some of the lines that follow other lines.
proof fn lemma_keep_concat(
    a: Seq<Seq<char>>,
    b: Seq<Seq<char>>,
    p: spec_fn(Seq<char>) -> bool,
)
    ensures
        keep(a + b, p) == keep(a, p) + keep(b, p),
    decreases b.len(),
{
    if b.len() == 0 {
        assert(a + b =~= a);
        assert(keep(a, p) + keep(b, p) =~= keep(a, p));
    } else {
        assert((a + b).drop_last() =~= a + b.drop_last());
        lemma_keep_concat(a, b.drop_last(), p);
        assert(keep(a + b, p) =~= keep(a, p) + keep(b, p));
    }
}

/// The lines that are kept are lines that were there.
proof fn lemma_keep_member(ls: Seq<Seq<char>>, p: spec_fn(Seq<char>) -> bool, n: int) -> (i: int)
    requires
        0 <= n < keep(ls, p).len(),
    ensures
        0 <= i < ls.len(),
        keep(ls, p)[n] == ls[i],
    decreases ls.len(),
{
    let front = ls.drop_last();
    if p(ls.last()) && n == keep(front, p).len() {
        ls.len() - 1
    } else {
        lemma_keep_member(front, p, n)
    }
}

/// Carriage returns at the ends of lines do not matter.
proof fn lemma_assigned_without_cr(m: Map<Seq<char>, Seq<char>>, ls: Seq<Seq<char>>)
    ensures
        assigned(m, ls.map_values(|l: Seq<char>| without_cr(l))) == assigned(m, ls),
    decreases ls.len(),
{
    let f = |l: Seq<char>| without_cr(l);
    if ls.len() > 0 {
        lemma_assigned_without_cr(m, ls.drop_last());
        assert(ls.map_values(f).drop_last() =~= ls.drop_last().map_values(f));
        lemma_trim_without_cr(ls.last());
    } else {
        assert(ls.map_values(f) =~= ls);
    }
}

/// Leaving out lines that set `key` changes the value of no other variable.
proof fn lemma_keep_beside(
    m: Map<Seq<char>, Seq<char>>,
    ls: Seq<Seq<char>>,
    p: spec_fn(Seq<char>) -> bool,
    key: Seq<char>,
)
    requires
        forall|l: Seq<char>| !#[trigger] p(l) ==> sets_key(l, key),
    ensures
        assigned(m, keep(ls, p)).remove(key) == assigned(m, ls).remove(key),
    decreases ls.len(),
{
    if ls.len() > 0 {
        let front = ls.drop_last();
        let x = ls.last();
        lemma_keep_beside(m, front, p, key);
        let a = assigned(m, keep(front, p));
        let b = assigned(m, front);
        if p(x) {
            assert(keep(ls, p).drop_last() =~= keep(front, p));
            match assignment(x) {
                Some((k, v)) => {
                    if k == key {
                        assert(a.insert(k, v).remove(key) =~= a.remove(key));
                        assert(b.insert(k, v).remove(key) =~= b.remove(key));
                    } else {
                        assert(a.insert(k, v).remove(key) =~= a.remove(key).insert(k, v));
                        assert(b.insert(k, v).remove(key) =~= b.remove(key).insert(k, v));
                    }
                },
                None => {},
            }
        } else {
            assert(sets_key(x, key));
            match assignment(x) {
                Some((k, v)) => {
                    assert(b.insert(k, v).remove(key) =~= b.remove(key));
                },
                None => {},
            }
        }
    }
}

/// Leaving out the lines that set `key` leaves the variables without it.
proof fn lemma_keep_without(
    m: Map<Seq<char>, Seq<char>>,
    ls: Seq<Seq<char>>,
    key: Seq<char>,
)
    requires
        !m.dom().contains(key),
    ensures
        assigned(m, keep(ls, |l: Seq<char>| !sets_key(l, key))) == assigned(m, ls).remove(key),
    decreases ls.len(),
{
    let p = |l: Seq<char>| !sets_key(l, key);
    if ls.len() > 0 {
        let front = ls.drop_last();
        let x = ls.last();
        lemma_keep_without(m, front, key);
        let a = assigned(m, keep(front, p));
        let b = assigned(m, front);
        if p(x) {
            assert(keep(ls, p).drop_last() =~= keep(front, p));
            match assignment(x) {
                Some((k, v)) => {
                    assert(b.insert(k, v).remove(key) =~= b.remove(key).insert(k, v));
                },
                None => {},
            }
        } else {
            match assignment(x) {
                Some((k, v)) => {
                    assert(b.insert(k, v).remove(key) =~= b.remove(key));
                },
                None => {},
            }
        }
    } else {
        assert(m.remove(key) =~= m);
    }
}

/// The text starts with the mark.
pub open spec fn has_bom(s: Seq<char>) -> bool {
    s.len() > 0 && s[0] == BOM
}

/// The lines of a text with the mark before it.
proof fn lemma_lines_bom(rest: Seq<char>)
    ensures
        lines(seq![BOM] + rest) == (if rest.len() == 0 {
            seq![seq![BOM]]
        } else {
            seq![seq![BOM] + lines(rest)[0]] + lines(rest).drop_first()
        }),
        rest.len() > 0 ==> lines(rest).len() > 0,
{
    let s = seq![BOM] + rest;
    lemma_index_of(rest, '\n');
    let i = index_of(rest, '\n');
    assert forall|j: int| 0 <= j < i + 1 implies s[j] != '\n' by {
        if j > 0 {
            assert(s[j] == rest[j - 1]);
        }
    }
    lemma_index_of_is(s, '\n', i + 1);
    if rest.len() == 0 {
        assert(s =~= seq![BOM]);
        assert(lines(s) =~= seq![seq![BOM]]);
    } else if i == rest.len() {
        assert(lines(rest) =~= seq![rest]);
        assert(lines(s) =~= seq![s] + lines(rest).drop_first());
    } else {
        assert(s.take(i + 1) =~= seq![BOM] + rest.take(i));
        assert(without_cr(s.take(i + 1)) =~= seq![BOM] + without_cr(rest.take(i)));
        assert(s.skip(i + 2) =~= rest.skip(i + 1));
        assert(lines(rest).drop_first() =~= lines(rest.skip(i + 1)));
    }
}

/// The variables that are read from lines that were written as a file.
proof fn lemma_written(ls: Seq<Seq<char>>)
    requires
        ls.len() > 0,
        forall|i: int| 0 <= i < ls.len() ==> !(#[trigger] ls[i]).contains('\n'),
    ensures
        env_of(file_of(ls)) == assigned(
            Map::empty(),
            seq![without_bom(ls[0])] + ls.drop_first(),
        ),
{
    reveal_strlit("\n");
    assert("\n"@ =~= seq!['\n']);
    let n = seq!['\n'];
    let bare = seq![without_bom(ls[0])] + ls.drop_first();
    // What the file starts with is what its first line starts with.
    if ls.len() > 1 {
        lemma_join_cons(ls, n);
        lemma_join_cons(bare, n);
        assert(bare.drop_first() =~= ls.drop_first());
    }
    if has_bom(ls[0]) {
        assert(file_of(ls)[0] == ls[0][0]);
        assert(without_bom(file_of(ls)) =~= file_of(bare));
    } else {
        assert(bare =~= ls);
        if ls[0].len() > 0 {
            assert(file_of(ls)[0] == ls[0][0]);
        } else {
            assert(file_of(ls)[0] == '\n');
        }
    }
    assert forall|i: int| 0 <= i < bare.len() implies !(#[trigger] bare[i]).contains('\n') by {
        if i == 0 {
            if bare[0].contains('\n') {
                let j = choose|j: int| 0 <= j < bare[0].len() && bare[0][j] == '\n';
                if has_bom(ls[0]) {
                    assert(ls[0][j + 1] == '\n');
                } else {
                    assert(ls[0][j] == '\n');
                }
            }
        } else {
            assert(bare[i] == ls[i]);
        }
    }
    law_join_lines(bare);
    lemma_assigned_without_cr(Map::empty(), bare);
}

/// A name for a variable that reads as it is written: without white space around it, without
/// `=` and line feeds, and neither a comment nor behind the mark of a text.
pub open spec fn plain_key(key: Seq<char>) -> bool {
    &&& trim(key) == key
    &&& key.len() > 0 ==> key[0] != '#' && key[0] != BOM
    &&& !key.contains('=')
    &&& !key.contains('\n')
}

/// A line that names a plain key sets it.
proof fn lemma_names_sets(line: Seq<char>, key: Seq<char>)
    requires
        names_key(line, key),
        plain_key(key),
    ensures
        sets_key(line, key),
{
    lemma_index_of(line, '=');
    let i = index_of(line, '=');
    let head = line.take(i);
    let (a, b) = lemma_trim_bounds(head);
    let (la, lb) = lemma_trim_bounds(line);
    assert(!is_white_space('='));
    assert(lb > i) by {
        if lb <= i {
            assert(is_white_space(line[i]));
        }
    }
    let t = trim(line);
    if a == b {
        // Only white space stands before the sign.
        assert(la == i) by {
            if la < i {
                assert(is_white_space(head[la]));
                assert(line[la] == head[la]);
            }
            if i < la {
                assert(is_white_space(line[i]));
            }
        }
        assert(t[0] == '=');
        lemma_index_of_is(t, '=', 0);
        assert(t.take(0) =~= Seq::<char>::empty());
        lemma_trim_is(t.take(0), 0, 0);
        assert(key =~= Seq::<char>::empty());
        assert(trim(t.take(0)) =~= key);
    } else {
        assert(head[a] == line[a]);
        assert(la == a) by {
            if la < a {
                assert(is_white_space(head[la]));
                assert(line[la] == head[la]);
            }
            if a < la {
                assert(is_white_space(line[a]));
            }
        }
        assert(t =~= line.subrange(la, lb));
        assert(t[0] == key[0]);
        assert forall|j: int| 0 <= j < i - la implies t[j] != '=' by {
            assert(t[j] == line[la + j]);
        }
        lemma_index_of_is(t, '=', i - la);
        let left = t.take(i - la);
        assert forall|j: int| b - a <= j < left.len() implies is_white_space(
            #[trigger] left[j],
        ) by {
            assert(left[j] == head[a + j]);
        }
        assert(left[b - a - 1] == head[b - 1]);
        lemma_trim_is(left, 0, b - a);
        assert(left.subrange(0, b - a) =~= head.subrange(a, b));
    }
}

/// The line that is written for a variable sets it.
proof fn lemma_line_for(key: Seq<char>, value: Seq<char>)
    requires
        plain_key(key),
    ensures
        assignment(line_for(key, value)) == Some((key, unquoted(trim(value)))),
{
    reveal_strlit("=");
    assert("="@ =~= seq!['=']);
    let line = line_for(key, value);
    let n = key.len() as int;
    assert(line =~= key + seq!['='] + value);
    let (va, vb) = lemma_trim_bounds(value);
    let b = if va < vb {
        n + 1 + vb
    } else {
        n + 1
    };
    assert(!is_white_space('='));
    law_trim(key);
    if n > 0 {
        assert(line[0] == key[0]);
    }
    assert forall|i: int| b <= i < line.len() implies is_white_space(#[trigger] line[i]) by {
        assert(line[i] == value[i - n - 1]);
        if va == vb {
            if i - n - 1 < va {
                assert(is_white_space(value[i - n - 1]));
            } else {
                assert(is_white_space(value[i - n - 1]));
            }
        }
    }
    if va < vb {
        assert(line[b - 1] == value[vb - 1]);
    } else {
        assert(line[b - 1] == '=');
    }
    assert(trim_bounds(line, 0, b));
    lemma_trim_is(line, 0, b);
    let t = trim(line);
    assert(t =~= line.subrange(0, b));
    assert forall|j: int| 0 <= j < n implies t[j] != '=' by {
        assert(t[j] == key[j]);
    }
    assert(t[n] == '=');
    lemma_index_of_is(t, '=', n);
    assert(t.take(n) =~= key);
    let right = t.skip(n + 1);
    if va < vb {
        assert(right =~= value.take(vb));
        assert forall|i: int| 0 <= i < va implies is_white_space(#[trigger] right[i]) by {
            assert(right[i] == value[i]);
        }
        lemma_trim_is(right, va, vb);
        assert(right.subrange(va, vb) =~= value.subrange(va, vb));
    } else {
        assert(right =~= Seq::<char>::empty());
        lemma_trim_is(right, 0, 0);
        assert(right.subrange(0, 0) =~= value.subrange(va, vb));
    }
}

/// The first line that is kept does not become the first of the file only to lose a mark
/// that it starts with.
pub open spec fn mark_is_harmless(file: Seq<char>, kept: Seq<Seq<char>>) -> bool {
    kept.len() > 0 && has_bom(kept[0]) && !has_bom(file) ==> assignment(kept[0]) == assignment(
        without_bom(kept[0]),
    )
}

/// The law of set variables, for a value of one line.
proof fn lemma_set_one_line(file: Seq<char>, key: Seq<char>, value: Seq<char>)
    requires
        plain_key(key),
        !value.contains('\n'),
        mark_is_harmless(file, lines_beside(file, key)),
    ensures
        env_of(file_of(lines_beside(file, key).push(line_for(key, value)))) == env_of(
            file,
        ).insert(key, unquoted(trim(value))),
{
    let p = |l: Seq<char>| !names_key(l, key);
    let kept = lines_beside(file, key);
    let line = line_for(key, value);
    let all = kept.push(line);
    let v = unquoted(trim(value));
    reveal_strlit("=");
    assert("="@ =~= seq!['=']);
    assert(line =~= key + seq!['='] + value);
    lemma_line_for(key, value);
    assert forall|l: Seq<char>| !#[trigger] p(l) implies sets_key(l, key) by {
        lemma_names_sets(l, key);
    }
    assert forall|i: int| 0 <= i < all.len() implies !(#[trigger] all[i]).contains('\n') by {
        if i < kept.len() {
            let j = lemma_keep_member(lines(file), p, i);
            lemma_lines_hold_no_feed(file, j);
        } else if line.contains('\n') {
            let j = choose|j: int| 0 <= j < line.len() && line[j] == '\n';
            if j < key.len() {
                assert(key[j] == '\n');
            } else {
                assert(value[j - key.len() - 1] == '\n');
            }
        }
    }
    lemma_written(all);
    let none = Map::<Seq<char>, Seq<char>>::empty();
    let bare = seq![without_bom(all[0])] + all.drop_first();
    if key.len() > 0 {
        assert(line[0] == key[0]);
    }
    // The file as it is read again: the lines that were kept, then the new one.
    let read = if kept.len() > 0 {
        seq![without_bom(kept[0])] + kept.drop_first()
    } else {
        Seq::empty()
    };
    assert(bare =~= read + seq![line]) by {
        if kept.len() == 0 {
            assert(without_bom(line) == line);
        }
    }
    assert((read + seq![line]).drop_last() =~= read);
    let a = assigned(none, read);
    assert(env_of(file_of(all)) == a.insert(key, v));
    lemma_read_back(file, p, key);
    let b = env_of(file);
    assert(a.insert(key, v) =~= a.remove(key).insert(key, v));
    assert(b.insert(key, v) =~= b.remove(key).insert(key, v));
}

/// The lines that are kept, read as a file, give every variable but `key` the value that it
/// had.
proof fn lemma_read_back(file: Seq<char>, p: spec_fn(Seq<char>) -> bool, key: Seq<char>)
    requires
        plain_key(key),
        p == (|l: Seq<char>| !names_key(l, key)),
        mark_is_harmless(file, keep(lines(file), p)),
    ensures
        ({
            let kept = keep(lines(file), p);
            let read = if kept.len() > 0 {
                seq![without_bom(kept[0])] + kept.drop_first()
            } else {
                Seq::empty()
            };
            assigned(Map::empty(), read).remove(key) == env_of(file).remove(key)
        }),
{
    let none = Map::<Seq<char>, Seq<char>>::empty();
    let ls = lines(file);
    let kept = keep(ls, p);
    assert forall|l: Seq<char>| !#[trigger] p(l) implies sets_key(l, key) by {
        lemma_names_sets(l, key);
    }
    if has_bom(file) {
        let rest = file.drop_first();
        assert(file =~= seq![BOM] + rest);
        lemma_lines_bom(rest);
        let first = if rest.len() == 0 {
            Seq::<char>::empty()
        } else {
            lines(rest)[0]
        };
        let tail = ls.drop_first();
        let marked = seq![BOM] + first;
        assert(ls =~= seq![marked] + tail);
        lemma_index_of(marked, '=');
        let i = index_of(marked, '=');
        assert(p(marked)) by {
            if names_key(marked, key) {
                let head = marked.take(i);
                assert(head[0] == BOM);
                let (a, b) = lemma_trim_bounds(head);
                assert(!is_white_space(BOM));
                if a > 0 {
                    assert(is_white_space(head[0]));
                }
            }
        }
        lemma_keep_concat(seq![marked], tail, p);
        assert(seq![marked].drop_last() =~= Seq::<Seq<char>>::empty());
        assert(keep(Seq::<Seq<char>>::empty(), p) =~= Seq::empty());
        assert(keep(seq![marked], p) =~= seq![marked]);
        assert(kept =~= seq![marked] + keep(tail, p));
        assert(without_bom(marked) =~= first);
        assert(kept.drop_first() =~= keep(tail, p));
        lemma_assigned_concat(none, seq![first], keep(tail, p));
        lemma_assigned_concat(none, seq![first], tail);
        lemma_keep_beside(assigned(none, seq![first]), tail, p, key);
        if rest.len() > 0 {
            assert(tail =~= lines(rest).drop_first());
        }
        lemma_lines_of_rest(rest, first, tail);
    } else {
        assert(without_bom(file) == file);
        lemma_keep_beside(none, ls, p, key);
        if kept.len() > 0 {
            lemma_first_unmarked(file, kept);
        }
    }
}

/// The variables of a text, by its first line and the others.
proof fn lemma_lines_of_rest(rest: Seq<char>, first: Seq<char>, tail: Seq<Seq<char>>)
    requires
        rest.len() == 0 ==> first.len() == 0 && tail.len() == 0,
        rest.len() > 0 ==> lines(rest).len() > 0 && first == lines(rest)[0] && tail == lines(
            rest,
        ).drop_first(),
    ensures
        assigned(Map::empty(), seq![first] + tail) == assigned(Map::empty(), lines(rest)),
{
    let none = Map::<Seq<char>, Seq<char>>::empty();
    if rest.len() == 0 {
        assert(seq![first] + tail =~= seq![first]);
        assert(seq![first].drop_last() =~= Seq::<Seq<char>>::empty());
        lemma_trim_is(first, 0, 0);
        assert(trim(first).len() == 0);
        assert(assignment(first) is None);
    } else {
        assert(seq![first] + tail =~= lines(rest));
    }
}

/// Where the mark does no harm, the first line reads the same with it as without.
proof fn lemma_first_unmarked(file: Seq<char>, kept: Seq<Seq<char>>)
    requires
        !has_bom(file),
        mark_is_harmless(file, kept),
        kept.len() > 0,
    ensures
        assigned(Map::empty(), seq![without_bom(kept[0])] + kept.drop_first()) == assigned(
            Map::empty(),
            kept,
        ),
{
    let none = Map::<Seq<char>, Seq<char>>::empty();
    lemma_assigned_concat(none, seq![without_bom(kept[0])], kept.drop_first());
    lemma_assigned_concat(none, seq![kept[0]], kept.drop_first());
    assert(seq![kept[0]] + kept.drop_first() =~= kept);
    assert(seq![kept[0]].drop_last() =~= Seq::<Seq<char>>::empty());
    assert(seq![without_bom(kept[0])].drop_last() =~= Seq::<Seq<char>>::empty());
}

/// The lines of a text behind a line feed.
proof fn lemma_lines_behind(f: Seq<char>, w: Seq<char>)
    requires
        f.len() > 0,
        f.last() == '\n',
    ensures
        lines(f + w) == lines(f) + lines(w),
    decreases f.len(),
{
    lemma_index_of(f, '\n');
    let i = index_of(f, '\n');
    let l = f.take(i);
    let rest = f.skip(i + 1);
    assert(!l.contains('\n'));
    assert(f =~= l + seq!['\n'] + rest);
    assert(f + w =~= l + seq!['\n'] + (rest + w));
    lemma_lines_cons(l, rest);
    lemma_lines_cons(l, rest + w);
    if rest.len() == 0 {
        assert(rest + w =~= w);
        assert(lines(rest) =~= Seq::<Seq<char>>::empty());
    } else {
        assert(rest.last() == f.last());
        lemma_lines_behind(rest, w);
    }
    assert(lines(f + w) =~= lines(f) + lines(w));
}

/// The lines of white space set nothing.
proof fn lemma_white_lines(m: Map<Seq<char>, Seq<char>>, w: Seq<char>)
    requires
        forall|i: int| 0 <= i < w.len() ==> is_white_space(#[trigger] w[i]),
    ensures
        assigned(m, lines(w)) == m,
    decreases w.len(),
{
    if w.len() > 0 {
        lemma_index_of(w, '\n');
        let i = index_of(w, '\n');
        let none = Seq::<Seq<char>>::empty();
        if i < w.len() {
            let l = w.take(i);
            let rest = w.skip(i + 1);
            lemma_trim_without_cr(l);
            lemma_trim_is(l, l.len() as int, l.len() as int);
            assert(assignment(without_cr(l)) is None);
            assert(seq![without_cr(l)].drop_last() =~= none);
            assert(assigned(m, none) == m);
            lemma_assigned_concat(m, seq![without_cr(l)], lines(rest));
            lemma_white_lines(m, rest);
        } else {
            lemma_trim_is(w, w.len() as int, w.len() as int);
            assert(assignment(w) is None);
            assert(seq![w].drop_last() =~= none);
            assert(assigned(m, none) == m);
        }
    }
}

/// Nothing but white space stands behind a line feed.
pub open spec fn ends_in_feeds(value: Seq<char>) -> bool {
    forall|i: int, j: int|
        0 <= i <= j < value.len() && #[trigger] value[i] == '\n' ==> is_white_space(
            #[trigger] value[j],
        )
}

/// A variable that was set has the value that was written, without white space and quotes
/// around it, and every other variable has the value that it had.
///
/// A value that goes on behind a line feed reads as more than one line, and only the first of
/// them sets the variable.
pub proof fn law_set_env_var(file: Seq<char>, key: Seq<char>, value: Seq<char>)
    requires
        plain_key(key),
        ends_in_feeds(value),
        mark_is_harmless(file, lines_beside(file, key)),
    ensures
        env_of(file_of(lines_beside(file, key).push(line_for(key, value)))) == env_of(
            file,
        ).insert(key, unquoted(trim(value))),
{
    lemma_index_of(value, '\n');
    let i = index_of(value, '\n');
    let head = value.take(i);
    assert(!head.contains('\n'));
    lemma_set_one_line(file, key, head);
    if i < value.len() {
        reveal_strlit("\n");
        assert("\n"@ =~= seq!['\n']);
        assert(is_white_space('\n'));
        let kept = lines_beside(file, key);
        let short = kept.push(line_for(key, head));
        let long = kept.push(line_for(key, value));
        let w = value.skip(i + 1) + seq!['\n'];
        assert(short.drop_last() =~= kept);
        assert(long.drop_last() =~= kept);
        assert(value =~= head + seq!['\n'] + value.skip(i + 1));
        assert(file_of(long) =~= file_of(short) + w);
        assert forall|j: int| 0 <= j < w.len() implies is_white_space(#[trigger] w[j]) by {
            if j < w.len() - 1 {
                assert(w[j] == value[i + 1 + j]);
            }
        }
        let f = without_bom(file_of(short));
        assert(file_of(short)[0] != BOM ==> f == file_of(short));
        assert(without_bom(file_of(long)) =~= f + w);
        assert(file_of(short).last() == '\n');
        assert(f.len() > 0 && f.last() == '\n');
        lemma_lines_behind(f, w);
        lemma_assigned_concat(Map::empty(), lines(f), lines(w));
        lemma_white_lines(env_of(file_of(short)), w);
        let (a, b) = lemma_trim_bounds(head);
        assert forall|j: int| b <= j < value.len() implies is_white_space(#[trigger] value[j]) by {
            if j < i {
                assert(value[j] == head[j]);
            }
        }
        assert forall|j: int| 0 <= j < a implies is_white_space(#[trigger] value[j]) by {
            assert(value[j] == head[j]);
        }
        lemma_trim_is(value, a, b);
        assert(value.subrange(a, b) =~= head.subrange(a, b));
    } else {
        assert(head =~= value);
    }
}

/// A variable that was deleted is not set, and every other variable has the value that it
/// had.
///
/// The mark before a text counts as a part of its first line when a variable is deleted, but
/// not when the file is read; so the first line of such a file must not be one that sets the
/// variable.
pub proof fn law_delete_env_var(file: Seq<char>, key: Seq<char>)
    requires
        has_bom(file) ==> !sets_key(lines(file)[0], key) && !sets_key(
            without_bom(lines(file)[0]),
            key,
        ),
        mark_is_harmless(file, lines_without(file, key)),
    ensures
        env_of(file_of(lines_without(file, key))) == env_of(file).remove(key),
{
    let p = |l: Seq<char>| !sets_key(l, key);
    let none = Map::<Seq<char>, Seq<char>>::empty();
    let ls = lines(file);
    let kept = lines_without(file, key);
    assert forall|i: int| 0 <= i < kept.len() implies !(#[trigger] kept[i]).contains('\n') by {
        let j = lemma_keep_member(ls, p, i);
        lemma_lines_hold_no_feed(file, j);
    }
    if kept.len() > 0 {
        lemma_written(kept);
    } else {
        let blank = Seq::<char>::empty();
        reveal_strlit("\n");
        assert(file_of(kept) =~= seq!['\n']);
        lemma_lines_cons(blank, blank);
        assert(blank + seq!['\n'] + blank =~= seq!['\n']);
        assert(without_bom(seq!['\n']) == seq!['\n']);
        assert(lines(blank) =~= Seq::<Seq<char>>::empty());
        assert(lines(seq!['\n']) =~= seq![blank]);
        assert(seq![blank].drop_last() =~= Seq::<Seq<char>>::empty());
        lemma_trim_is(blank, 0, 0);
        assert(assignment(blank) is None);
        assert(assigned(none, Seq::empty()) == none);
        assert(env_of(file_of(kept)) == none);
    }
    if has_bom(file) {
        let rest = file.drop_first();
        assert(file =~= seq![BOM] + rest);
        lemma_lines_bom(rest);
        let first = if rest.len() == 0 {
            Seq::<char>::empty()
        } else {
            lines(rest)[0]
        };
        let tail = ls.drop_first();
        let marked = seq![BOM] + first;
        assert(ls =~= seq![marked] + tail);
        assert(without_bom(marked) =~= first);
        lemma_keep_concat(seq![marked], tail, p);
        assert(seq![marked].drop_last() =~= Seq::<Seq<char>>::empty());
        assert(keep(Seq::<Seq<char>>::empty(), p) =~= Seq::empty());
        assert(keep(seq![marked], p) =~= seq![marked]);
        assert(kept =~= seq![marked] + keep(tail, p));
        assert(kept.drop_first() =~= keep(tail, p));
        let start = assigned(none, seq![first]);
        assert(seq![first].drop_last() =~= Seq::<Seq<char>>::empty());
        assert(assigned(none, Seq::empty()) == none);
        assert(!sets_key(first, key));
        lemma_assigned_concat(none, seq![first], keep(tail, p));
        lemma_assigned_concat(none, seq![first], tail);
        lemma_keep_without(start, tail, key);
        if rest.len() > 0 {
            assert(tail =~= lines(rest).drop_first());
        }
        lemma_lines_of_rest(rest, first, tail);
    } else {
        assert(without_bom(file) == file);
        lemma_keep_without(none, ls, key);
        if kept.len() > 0 {
            lemma_first_unmarked(file, kept);
        }
    }
}

/// The value that is read for a variable is what was set, letter for letter, where that has no
/// white space around it and does not stand between two quotes of a kind; what stands between two
/// such quotes is read without them.
pub proof fn law_value_read_back(
    file: Seq<char>,
    key: Seq<char>,
    value: Seq<char>,
    inner: Seq<char>,
    q: char,
)
    requires
        plain_key(key),
        ends_in_feeds(value),
        mark_is_harmless(file, lines_beside(file, key)),
        q == '"' || q == '\'',
    ensures
        ({
            let env = env_of(file_of(lines_beside(file, key).push(line_for(key, value))));
            &&& env.dom().contains(key)
            &&& trim(value) == value && !(value.len() >= 2 && value[0] == value.last() && (value[0]
                == '"' || value[0] == '\'')) ==> env[key] == value
            &&& value == seq![q] + inner + seq![q] ==> env[key] == inner
        }),
{
    law_set_env_var(file, key, value);
    if value == seq![q] + inner + seq![q] {
        assert(value[0] == q && value.last() == q);
        assert(!is_white_space('"') && !is_white_space('\''));
        lemma_trim_is(value, 0, value.len() as int);
        assert(value.subrange(0, value.len() as int) =~= value);
        assert(value.subrange(1, value.len() - 1) =~= inner);
    }
}

/// A line sets the variable that is named before its first `=`, without the white space around
/// the name, to what stands behind it, without the white space and the quotes around that. A
/// comment and a line without `=` set nothing.
pub proof fn law_assignment(l: Seq<char>, key: Seq<char>, value: Seq<char>, q: char)
    requires
        q == '"' || q == '\'',
        plain_key(key),
        trim(value) == value,
    ensures
        !(value.len() >= 2 && value[0] == value.last() && (value[0] == '"' || value[0] == '\''))
            ==> assignment(key + seq!['='] + value) == Some((key, value)),
        assignment(key + seq!['='] + (seq![q] + value + seq![q])) == Some((key, value)),
        trim(l).len() == 0 || trim(l)[0] == '#' || !l.contains('=') ==> assignment(l) is None,
{
    reveal_strlit("=");
    assert("="@ =~= seq!['=']);
    lemma_line_for(key, value);
    let quoted = seq![q] + value + seq![q];
    lemma_line_for(key, quoted);
    assert(!is_white_space('"') && !is_white_space('\''));
    assert(quoted[0] == q && quoted.last() == q);
    lemma_trim_is(quoted, 0, quoted.len() as int);
    assert(quoted.subrange(0, quoted.len() as int) =~= quoted);
    assert(quoted.subrange(1, quoted.len() - 1) =~= value);
    let t = trim(l);
    lemma_index_of(t, '=');
    let (a, b) = lemma_trim_bounds(l);
    let i = index_of(t, '=');
    if i < t.len() {
        assert(l[a + i] == '=');
    }
}

/// The lines of a file are read one after the other: what a line sets overrides what was set
/// before, and leaves the rest.
pub proof fn law_lines_are_read_in_order(f: Seq<char>, l: Seq<char>)
    requires
        f.len() > 0,
        f.last() == '\n',
        !l.contains('\n'),
    ensures
        env_of(f + l + seq!['\n']) == (match assignment(l) {
            Some((k, v)) => env_of(f).insert(k, v),
            None => env_of(f),
        }),
{
    let none = Seq::<char>::empty();
    let w = l + seq!['\n'];
    let g = without_bom(f);
    assert(f + l + seq!['\n'] =~= f + w);
    assert(without_bom(f + w) =~= g + w) by {
        if f[0] == BOM {
            assert(f.len() > 1) by {
                assert(BOM != '\n');
            }
        }
    }
    assert(g.len() > 0 && g.last() == '\n');
    lemma_lines_behind(g, w);
    lemma_lines_cons(l, none);
    assert(l + seq!['\n'] + none =~= w);
    assert(lines(none) =~= Seq::<Seq<char>>::empty());
    assert(lines(w) =~= seq![without_cr(l)]);
    lemma_assigned_concat(Map::empty(), lines(g), lines(w));
    lemma_trim_without_cr(l);
    assert(seq![without_cr(l)].drop_last() =~= Seq::<Seq<char>>::empty());
    assert(assigned(env_of(f), Seq::empty()) == env_of(f));
}

/// One mark before a text is taken away, and nothing else.
pub proof fn law_mark(f: Seq<char>)
    ensures
        without_bom(seq!['\u{FEFF}'] + f) == f,
        f.len() == 0 || f[0] != '\u{FEFF}' ==> without_bom(f) == f,
{
    assert((seq!['\u{FEFF}'] + f).drop_first() =~= f);
}

/// An empty file sets nothing, and the mark before a text does not matter.
pub proof fn law_empty_file(f: Seq<char>)
    ensures
        env_of(Seq::empty()) == Map::<Seq<char>, Seq<char>>::empty(),
        !(f.len() > 0 && f[0] == '\u{FEFF}') ==> env_of(seq!['\u{FEFF}'] + f) == env_of(f),
{
    assert(lines(Seq::<char>::empty()) =~= Seq::<Seq<char>>::empty());
    assert((seq!['\u{FEFF}'] + f).drop_first() =~= f);
}

/// When a variable is set, all lines stay, in their order, but those that name it before their
/// first `=`; when it is deleted, all but those that set it.
pub proof fn law_lines_stay(file: Seq<char>, key: Seq<char>)
    ensures
        lines_beside(file, key) == lines(file).filter(
            |l: Seq<char>|
                !(l.contains('=') && trim(l.take(index_of(l, '='))) == key),
        ),
        lines_without(file, key) == lines(file).filter(
            |l: Seq<char>| !(assignment(l) matches Some((k, _)) && k == key),
        ),
{
    let p = |l: Seq<char>| !names_key(l, key);
    let p2 = |l: Seq<char>| !(l.contains('=') && trim(l.take(index_of(l, '='))) == key);
    let d = |l: Seq<char>| !sets_key(l, key);
    let d2 = |l: Seq<char>| !(assignment(l) matches Some((k, _)) && k == key);
    assert forall|l: Seq<char>| #[trigger] p(l) == p2(l) by {
        lemma_index_of(l, '=');
        if l.contains('=') {
            let i = choose|i: int| 0 <= i < l.len() && l[i] == '=';
            assert(index_of(l, '=') <= i);
        } else if index_of(l, '=') < l.len() {
            assert(l.contains('='));
        }
    }
    lemma_keep_is_filter(lines(file), p, p2);
    lemma_keep_is_filter(lines(file), d, d2);
}

/// Keeping the lines for which something holds is filtering them.
proof fn lemma_keep_is_filter(
    ls: Seq<Seq<char>>,
    p: spec_fn(Seq<char>) -> bool,
    q: spec_fn(Seq<char>) -> bool,
)
    requires
        forall|l: Seq<char>| #[trigger] p(l) == q(l),
    ensures
        keep(ls, p) == ls.filter(q),
    decreases ls.len(),
{
    reveal(Seq::filter);
    if ls.len() > 0 {
        lemma_keep_is_filter(ls.drop_last(), p, q);
        assert(p(ls.last()) == q(ls.last()));
    }
}

/// A file is written line by line, each ended by a line feed.
pub proof fn law_file_of(ls: Seq<Seq<char>>, l: Seq<char>)
    ensures
        file_of(seq![l]) == l + seq!['\n'],
        ls.len() > 0 ==> file_of(ls.push(l)) == file_of(ls) + l + seq!['\n'],
{
    reveal_strlit("\n");
    assert("\n"@ =~= seq!['\n']);
    if ls.len() > 0 {
        assert(ls.push(l).drop_last() =~= ls);
        assert(file_of(ls.push(l)) =~= file_of(ls) + l + seq!['\n']);
    }
}

/// The line that sets a variable is its name, `=` and the value.
pub proof fn law_line_for(key: Seq<char>, value: Seq<char>)
    ensures
        line_for(key, value) == key + seq!['='] + value,
{
    reveal_strlit("=");
    assert("="@ =~= seq!['=']);
}

/// What the form is told of a variable: it is set where the file gives it a value that is not
/// empty; the value is told masked and never as it is, and nothing where it is not set; the rest
/// is what the metadata say.
pub proof fn law_env_row(meta: Tree, value: Option<Seq<char>>, v: Seq<char>)
    ensures
        ({
            let row = env_row(meta, value);
            &&& row is Table
            &&& row.member("is_set"@) == Some(
                Tree::Bool(value matches Some(x) && x.len() > 0),
            )
            &&& value == Some(v) && v.len() >= 12 ==> row.member("redacted_value"@) == Some(
                Tree::Text(v.take(4) + seq!['.', '.', '.'] + v.skip(v.len() - 4)),
            )
            &&& value == Some(v) && 0 < v.len() < 12 ==> row.member("redacted_value"@) == Some(
                Tree::Text(seq!['*', '*', '*']),
            )
            &&& value is None || value == Some(Seq::<char>::empty()) ==> row.member(
                "redacted_value"@,
            ) == Some(Tree::Null)
            &&& meta.member("url"@) matches Some(u) ==> row.member("url"@) == Some(u)
            &&& meta.member("url"@) is None ==> row.member("url"@) == Some(Tree::Null)
            &&& (meta.member("description"@) matches Some(t) && t.as_text() == Some(v))
                ==> row.member("description"@) == Some(Tree::Text(v))
            &&& !(meta.member("description"@) matches Some(t) && t.as_text() is Some)
                ==> row.member("description"@) == Some(Tree::Text(Seq::empty()))
            &&& (meta.member("category"@) matches Some(t) && t.as_text() == Some(v)) ==> row.member(
                "category"@,
            ) == Some(Tree::Text(v))
            &&& !(meta.member("category"@) matches Some(t) && t.as_text() is Some) ==> row.member(
                "category"@,
            ) == Some(Tree::Text(Seq::empty()))
            &&& row.member("is_password"@) == Some(
                Tree::Bool(meta.member("password"@) matches Some(b) && b.as_bool() == Some(true)),
            )
            &&& row.member("advanced"@) == Some(
                Tree::Bool(meta.member("advanced"@) matches Some(b) && b.as_bool() == Some(true)),
            )
            &&& row.member("tools"@) == Some(Tree::List(texts_under(meta, "tools"@)))
        }),
{
    reveal_strlit("...");
    reveal_strlit("***");
    assert("..."@ =~= seq!['.', '.', '.']);
    assert("***"@ =~= seq!['*', '*', '*']);
    reveal_strlit("is_set");
    reveal_strlit("redacted_value");
    reveal_strlit("description");
    reveal_strlit("url");
    reveal_strlit("category");
    reveal_strlit("is_password");
    reveal_strlit("tools");
    reveal_strlit("advanced");
    assert("is_set"@.len() == 6 && "redacted_value"@.len() == 14 && "description"@.len() == 11
        && "url"@.len() == 3 && "category"@.len() == 8 && "is_password"@.len() == 11
        && "tools"@.len() == 5 && "advanced"@.len() == 8);
    assert("description"@[0] == 'd' && "is_password"@[0] == 'i' && "category"@[0] == 'c'
        && "advanced"@[0] == 'a');
    let e = env_row(meta, value)->Table_0;
    lemma_key_index_is(e, "is_set"@, 0);
    lemma_key_index_is(e, "redacted_value"@, 1);
    lemma_key_index_is(e, "description"@, 2);
    lemma_key_index_is(e, "url"@, 3);
    lemma_key_index_is(e, "category"@, 4);
    lemma_key_index_is(e, "is_password"@, 5);
    lemma_key_index_is(e, "tools"@, 6);
    lemma_key_index_is(e, "advanced"@, 7);
}

/// The tools of a variable are the texts in their list, in order.
pub proof fn law_texts_among(items: Seq<Tree>)
    ensures
        texts_among(items) == items.filter(|t: Tree| t.as_text() is Some).map_values(
            |t: Tree| Tree::Text(t.as_text()->0),
        ),
    decreases items.len(),
{
    let p = |t: Tree| t.as_text() is Some;
    let f = |t: Tree| Tree::Text(t.as_text()->0);
    reveal(Seq::filter);
    if items.len() > 0 {
        let front = items.drop_last();
        law_texts_among(front);
        if p(items.last()) {
            assert(items.filter(p) == front.filter(p).push(items.last()));
            assert(items.filter(p).map_values(f) =~= front.filter(p).map_values(f).push(
                f(items.last()),
            ));
        }
    } else {
        assert(items.filter(p).map_values(f) =~= items);
    }
}

/// The texts under a key are those of the list there, and none where there is no list.
pub proof fn law_texts_under(t: Tree, k: Seq<char>, items: Seq<Tree>)
    ensures
        (t.member(k) matches Some(v) && v.as_list() == Some(items)) ==> texts_under(t, k)
            == texts_among(items),
        !(t.member(k) matches Some(v) && v.as_list() is Some) ==> texts_under(t, k).len() == 0,
{
}

/// The form is told of every variable that the metadata name, in their order, with the value that
/// the file gives it.
pub proof fn law_env_rows(
    vars: Seq<(Tree, Tree)>,
    env: Map<Seq<char>, Seq<char>>,
    i: int,
    name: Seq<char>,
)
    requires
        0 <= i < vars.len(),
    ensures
        env_rows(vars, env).len() == vars.len(),
        env_rows(vars, env)[i].0 == vars[i].0,
        vars[i].0 == Tree::Text(name) && env.dom().contains(name) ==> env_rows(vars, env)[i].1
            == env_row(vars[i].1, Some(env[name])),
        vars[i].0 == Tree::Text(name) && !env.dom().contains(name) ==> env_rows(vars, env)[i].1
            == env_row(vars[i].1, None),
        !(vars[i].0 is Text) ==> env_rows(vars, env)[i].1 == env_row(vars[i].1, None),
{
}

/// White space around the name of a variable, around its value and around the line does not
/// matter.
pub proof fn law_spaces_do_not_matter(
    key: Seq<char>,
    value: Seq<char>,
    a: Seq<char>,
    b: Seq<char>,
    c: Seq<char>,
    d: Seq<char>,
)
    requires
        plain_key(key),
        key.len() > 0,
        value.len() > 0,
        trim(value) == value,
        forall|i: int| 0 <= i < a.len() ==> is_white_space(#[trigger] a[i]),
        forall|i: int| 0 <= i < b.len() ==> is_white_space(#[trigger] b[i]),
        forall|i: int| 0 <= i < c.len() ==> is_white_space(#[trigger] c[i]),
        forall|i: int| 0 <= i < d.len() ==> is_white_space(#[trigger] d[i]),
    ensures
        assignment(a + key + b + seq!['='] + c + value + d) == Some((key, unquoted(value))),
{
    let none = Seq::<char>::empty();
    let line = a + key + b + seq!['='] + c + value + d;
    let t = key + b + seq!['='] + c + value;
    law_trim(key);
    law_trim(value);
    assert(t[0] == key[0]);
    assert(t.last() == value.last());
    assert(line =~= a + t + d);
    law_trim_takes_white_space(a, t, d);
    let n = (key.len() + b.len()) as int;
    assert(t[n] == '=');
    assert forall|i: int| 0 <= i < n implies t[i] != '=' by {
        if i < key.len() {
            assert(t[i] == key[i]);
            assert(key.contains(key[i]));
        } else {
            assert(t[i] == b[i - key.len()]);
            assert(is_white_space(b[i - key.len()]));
        }
    }
    lemma_index_of_is(t, '=', n);
    assert(t.take(n) =~= none + key + b);
    law_trim_takes_white_space(none, key, b);
    assert(t.skip(n + 1) =~= c + value + none);
    law_trim_takes_white_space(c, value, none);
}

} // verus!
