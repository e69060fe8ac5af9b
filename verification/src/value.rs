//! Documents: the values that JSON and YAML texts stand for, and the operations on
//! their tables.
//!
//! A table keeps its entries in order. In a JSON document every key is a text and
//! nothing is tagged, and the order of the entries means nothing; in a YAML document
//! a key can be any value, and the order is that of the file.
use vstd::prelude::*;

use crate::text::text_eq;

verus! {

/// A number of a document.
#[derive(Clone, Copy, Debug, PartialEq, Eq, Structural)]
pub enum Number {
    /// An integer that is not negative.
    PosInt(u64),
    /// A negative integer.
    NegInt(i64),
    /// A floating-point number, by the bits of its IEEE 754 double.
    Float(u64),
    /// The floating-point number nearest to an integer.
    WholeFloat(i64),
}

/// A document, or a part of one.
#[derive(Debug, PartialEq, Eq)]
pub enum Value {
    Null,
    Bool(bool),
    Number(Number),
    Text(String),
    List(Vec<Value>),
    Table(Vec<(Value, Value)>),
    /// A YAML value with a tag before it.
    Tagged(String, Box<Value>),
}

/// What a document holds.
pub enum Tree {
    Null,
    Bool(bool),
    Number(Number),
    Text(Seq<char>),
    List(Seq<Tree>),
    Table(Seq<(Tree, Tree)>),
    Tagged(Seq<char>, Box<Tree>),
}

// ---------------------------------------------------------------------------
// Reading a document
// ---------------------------------------------------------------------------

/// The number as a signed integer of 64 bits, where it is one.
pub open spec fn number_i64(n: Number) -> Option<i64> {
    match n {
        Number::PosInt(v) => if v <= i64::MAX {
            Some(v as i64)
        } else {
            None
        },
        Number::NegInt(v) => Some(v),
        Number::Float(_) => None,
        Number::WholeFloat(_) => None,
    }
}

/// The number as an unsigned integer of 64 bits, where it is one.
pub open spec fn number_u64(n: Number) -> Option<u64> {
    match n {
        Number::PosInt(v) => Some(v),
        _ => None,
    }
}

/// The number that stands for a signed integer.
pub open spec fn int_number(n: i64) -> Number {
    if n < 0 {
        Number::NegInt(n)
    } else {
        Number::PosInt(n as u64)
    }
}

impl Tree {
    /// The value without the tags before it.
    pub open spec fn untag(self) -> Tree
        decreases self,
    {
        match self {
            Tree::Tagged(_, t) => t.untag(),
            _ => self,
        }
    }

    /// The text, where the value is one.
    pub open spec fn as_text(self) -> Option<Seq<char>> {
        match self.untag() {
            Tree::Text(s) => Some(s),
            _ => None,
        }
    }

    /// The truth value, where the value is one.
    pub open spec fn as_bool(self) -> Option<bool> {
        match self.untag() {
            Tree::Bool(b) => Some(b),
            _ => None,
        }
    }

    /// The signed integer, where the value is one.
    pub open spec fn as_i64(self) -> Option<i64> {
        match self.untag() {
            Tree::Number(n) => number_i64(n),
            _ => None,
        }
    }

    /// The unsigned integer, where the value is one.
    pub open spec fn as_u64(self) -> Option<u64> {
        match self.untag() {
            Tree::Number(n) => number_u64(n),
            _ => None,
        }
    }

    /// The items, where the value is a list.
    pub open spec fn as_list(self) -> Option<Seq<Tree>> {
        match self.untag() {
            Tree::List(v) => Some(v),
            _ => None,
        }
    }

    /// The entries, where the value is a table.
    pub open spec fn as_table(self) -> Option<Seq<(Tree, Tree)>> {
        match self.untag() {
            Tree::Table(e) => Some(e),
            _ => None,
        }
    }

    /// The value under a key, where the value is a table that has it.
    pub open spec fn member(self, k: Seq<char>) -> Option<Tree> {
        match self.as_table() {
            Some(e) => get(e, k),
            None => None,
        }
    }

    /// The text under a key, where there is one.
    pub open spec fn member_text(self, k: Seq<char>) -> Option<Seq<char>> {
        match self.member(k) {
            Some(t) => t.as_text(),
            None => None,
        }
    }

    /// The truth value under a key, or another where there is none.
    pub open spec fn flag_or(self, k: Seq<char>, other: bool) -> bool {
        match self.member(k) {
            Some(t) => match t.as_bool() {
                Some(b) => b,
                None => other,
            },
            None => other,
        }
    }

    /// The text under a key, or another text where there is none.
    pub open spec fn text_or(self, k: Seq<char>, other: Seq<char>) -> Seq<char> {
        match self.member_text(k) {
            Some(s) => s,
            None => other,
        }
    }
}

// ---------------------------------------------------------------------------
// Tables
// ---------------------------------------------------------------------------

/// The position of the first entry with the key `k`, or the number of entries where
/// there is none.
pub open spec fn key_index(e: Seq<(Tree, Tree)>, k: Seq<char>) -> int
    decreases e.len(),
{
    if e.len() == 0 || e[0].0 == Tree::Text(k) {
        0
    } else {
        1 + key_index(e.drop_first(), k)
    }
}

/// The table has an entry with the key `k`.
pub open spec fn has_key(e: Seq<(Tree, Tree)>, k: Seq<char>) -> bool {
    key_index(e, k) < e.len()
}

/// The value under the key `k`.
pub open spec fn get(e: Seq<(Tree, Tree)>, k: Seq<char>) -> Option<Tree> {
    if has_key(e, k) {
        Some(e[key_index(e, k)].1)
    } else {
        None
    }
}

/// The text under the key `k`, or another text where there is none.
pub open spec fn get_text_or(e: Seq<(Tree, Tree)>, k: Seq<char>, other: Seq<char>) -> Seq<char> {
    match get(e, k) {
        Some(t) => match t.as_text() {
            Some(s) => s,
            None => other,
        },
        None => other,
    }
}

/// An entry with a text for its key.
pub open spec fn field(k: Seq<char>, v: Tree) -> (Tree, Tree) {
    (Tree::Text(k), v)
}

/// A table without entries.
pub open spec fn fields() -> Seq<(Tree, Tree)> {
    Seq::empty()
}

/// The table with `v` under the key `k`: in the entry that is there, or in a new one at
/// the end.
pub open spec fn put(e: Seq<(Tree, Tree)>, k: Seq<char>, v: Tree) -> Seq<(Tree, Tree)> {
    if has_key(e, k) {
        e.update(key_index(e, k), field(k, v))
    } else {
        e.push(field(k, v))
    }
}

/// The table without the entry with the key `k`; the others keep their order.
pub open spec fn cut(e: Seq<(Tree, Tree)>, k: Seq<char>) -> Seq<(Tree, Tree)> {
    if has_key(e, k) {
        e.remove(key_index(e, k))
    } else {
        e
    }
}

/// The table without the entry with the key `k`; the last entry takes its place.
pub open spec fn swap_cut(e: Seq<(Tree, Tree)>, k: Seq<char>) -> Seq<(Tree, Tree)> {
    if has_key(e, k) {
        e.update(key_index(e, k), e.last()).drop_last()
    } else {
        e
    }
}

/// The entries of a value that is a table without a tag; of any other, none.
pub open spec fn plain_table(t: Tree) -> Seq<(Tree, Tree)> {
    match t {
        Tree::Table(e) => e,
        _ => Seq::empty(),
    }
}

/// The entries of the table under the key `k`; none where there is no table without a tag.
pub open spec fn subtable(e: Seq<(Tree, Tree)>, k: Seq<char>) -> Seq<(Tree, Tree)> {
    match get(e, k) {
        Some(t) => plain_table(t),
        None => Seq::empty(),
    }
}

/// What the table under a key gives for another; nothing where there is no such table.
pub open spec fn section_member(t: Tree, section: Seq<char>, k: Seq<char>) -> Option<Tree> {
    match t.member(section) {
        Some(s) => s.member(k),
        None => None,
    }
}

/// The value with the entries of its table exchanged for `e`; its tags stay.
pub open spec fn retabled(t: Tree, e: Seq<(Tree, Tree)>) -> Tree
    decreases t,
{
    match t {
        Tree::Tagged(tag, b) => Tree::Tagged(tag, Box::new(retabled(*b, e))),
        _ => Tree::Table(e),
    }
}

/// No two entries have the same key.
pub open spec fn distinct_keys(e: Seq<(Tree, Tree)>) -> bool {
    forall|i: int, j: int| 0 <= i < j < e.len() ==> e[i].0 != e[j].0
}

// ---------------------------------------------------------------------------
// What a value holds
// ---------------------------------------------------------------------------

impl Value {
    /// What the value holds.
    pub open spec fn tree(&self) -> Tree
        decreases self,
    {
        match self {
            Value::Null => Tree::Null,
            Value::Bool(b) => Tree::Bool(*b),
            Value::Number(n) => Tree::Number(*n),
            Value::Text(s) => Tree::Text(s@),
            Value::List(v) => Tree::List(
                Seq::new(
                    v@.len(),
                    |i: int|
                        if 0 <= i < v@.len() {
                            v@[i].tree()
                        } else {
                            Tree::Null
                        },
                ),
            ),
            Value::Table(v) => Tree::Table(
                Seq::new(
                    v@.len(),
                    |i: int|
                        if 0 <= i < v@.len() {
                            (v@[i].0.tree(), v@[i].1.tree())
                        } else {
                            (Tree::Null, Tree::Null)
                        },
                ),
            ),
            Value::Tagged(t, v) => Tree::Tagged(t@, Box::new(v.tree())),
        }
    }
}

impl View for Value {
    type V = Tree;

    open spec fn view(&self) -> Tree {
        self.tree()
    }
}

/// What the items of a list hold.
pub open spec fn trees(v: Seq<Value>) -> Seq<Tree> {
    Seq::new(v.len(), |i: int| v[i]@)
}

/// What the entries of a table hold.
pub open spec fn entries(v: Seq<(Value, Value)>) -> Seq<(Tree, Tree)> {
    Seq::new(v.len(), |i: int| (v[i].0@, v[i].1@))
}

/// What a value that may be absent holds.
pub open spec fn opt_tree(v: Option<Value>) -> Option<Tree> {
    match v {
        Some(t) => Some(t@),
        None => None,
    }
}

/// What a borrowed value that may be absent holds.
pub open spec fn opt_ref(v: Option<&Value>) -> Option<Tree> {
    match v {
        Some(t) => Some(t@),
        None => None,
    }
}

/// What a borrowed text that may be absent holds.
pub open spec fn opt_str(v: Option<&str>) -> Option<Seq<char>> {
    match v {
        Some(t) => Some(t@),
        None => None,
    }
}

/// An outcome with what its value holds and the content of its error.
pub open spec fn tree_result(r: Result<Value, String>) -> Result<Tree, Seq<char>> {
    match r {
        Ok(v) => Ok(v@),
        Err(e) => Err(e@),
    }
}

/// A list holds what its items hold.
pub broadcast proof fn lemma_list_tree(v: Vec<Value>)
    ensures
        #[trigger] Value::List(v)@ == Tree::List(trees(v@)),
{
    assert(Value::List(v)@->List_0 =~= trees(v@));
}

/// A table holds what its entries hold.
pub broadcast proof fn lemma_table_tree(v: Vec<(Value, Value)>)
    ensures
        #[trigger] Value::Table(v)@ == Tree::Table(entries(v@)),
{
    assert(Value::Table(v)@->Table_0 =~= entries(v@));
}

// ---------------------------------------------------------------------------
// Laws of tables
// ---------------------------------------------------------------------------

/// The position of a key is in the table or just behind it, and no entry before it has
/// the key.
pub proof fn lemma_key_index(e: Seq<(Tree, Tree)>, k: Seq<char>)
    ensures
        0 <= key_index(e, k) <= e.len(),
        key_index(e, k) < e.len() ==> e[key_index(e, k)].0 == Tree::Text(k),
        forall|i: int| 0 <= i < key_index(e, k) ==> e[i].0 != Tree::Text(k),
    decreases e.len(),
{
    if e.len() > 0 && e[0].0 != Tree::Text(k) {
        let r = e.drop_first();
        lemma_key_index(r, k);
        assert forall|i: int| 0 <= i < key_index(e, k) implies e[i].0 != Tree::Text(k) by {
            if i > 0 {
                assert(r[i - 1] == e[i]);
            }
        }
    }
}

/// An entry with the key and none before it fixes the position of the key.
pub proof fn lemma_key_index_is(e: Seq<(Tree, Tree)>, k: Seq<char>, n: int)
    requires
        0 <= n <= e.len(),
        n < e.len() ==> e[n].0 == Tree::Text(k),
        forall|i: int| 0 <= i < n ==> e[i].0 != Tree::Text(k),
    ensures
        key_index(e, k) == n,
{
    lemma_key_index(e, k);
}

/// What is put under a key is what the key gives.
pub proof fn law_put_get(e: Seq<(Tree, Tree)>, k: Seq<char>, v: Tree)
    ensures
        get(put(e, k, v), k) == Some(v),
{
    lemma_key_index(e, k);
    lemma_key_index_is(put(e, k, v), k, key_index(e, k));
}

/// Putting a value under a key leaves what the other keys give.
pub proof fn law_put_keeps(e: Seq<(Tree, Tree)>, k: Seq<char>, v: Tree, other: Seq<char>)
    requires
        other != k,
    ensures
        get(put(e, k, v), other) == get(e, other),
{
    lemma_key_index(e, k);
    lemma_key_index(e, other);
    let n = key_index(e, other);
    let p = put(e, k, v);
    if n < e.len() {
        lemma_key_index_is(p, other, n);
    } else {
        lemma_key_index_is(p, other, p.len() as int);
    }
}

/// A key that was cut gives nothing, where no key stands twice.
pub proof fn law_cut_get(e: Seq<(Tree, Tree)>, k: Seq<char>)
    requires
        distinct_keys(e),
    ensures
        get(cut(e, k), k) is None,
        get(swap_cut(e, k), k) is None,
{
    lemma_key_index(e, k);
    let n = key_index(e, k);
    if n < e.len() {
        let c = cut(e, k);
        assert forall|i: int| 0 <= i < c.len() implies c[i].0 != Tree::Text(k) by {
            assert(c[i] == if i < n {
                e[i]
            } else {
                e[i + 1]
            });
        }
        lemma_key_index_is(c, k, c.len() as int);
        let w = swap_cut(e, k);
        assert forall|i: int| 0 <= i < w.len() implies w[i].0 != Tree::Text(k) by {
            assert(w[i] == if i == n {
                e.last()
            } else {
                e[i]
            });
        }
        lemma_key_index_is(w, k, w.len() as int);
    }
}

/// Cutting a key leaves what the other keys give.
pub proof fn law_cut_keeps(e: Seq<(Tree, Tree)>, k: Seq<char>, other: Seq<char>)
    requires
        other != k,
    ensures
        get(cut(e, k), other) == get(e, other),
{
    lemma_key_index(e, k);
    lemma_key_index(e, other);
    let n = key_index(e, k);
    let m = key_index(e, other);
    if n < e.len() {
        let c = cut(e, k);
        assert forall|i: int| 0 <= i < c.len() implies #[trigger] c[i] == e[if i < n {
            i
        } else {
            i + 1
        }] by {}
        if m == e.len() {
            lemma_key_index_is(c, other, c.len() as int);
        } else if m < n {
            lemma_key_index_is(c, other, m);
        } else {
            lemma_key_index_is(c, other, m - 1);
        }
    }
}

/// Cutting a key and letting the last entry take its place leaves what the other keys
/// give, where no key stands twice.
pub proof fn law_swap_cut_keeps(e: Seq<(Tree, Tree)>, k: Seq<char>, other: Seq<char>)
    requires
        other != k,
        distinct_keys(e),
    ensures
        get(swap_cut(e, k), other) == get(e, other),
{
    lemma_key_index(e, k);
    lemma_key_index(e, other);
    let n = key_index(e, k);
    let m = key_index(e, other);
    if n < e.len() {
        let w = swap_cut(e, k);
        assert forall|i: int| 0 <= i < w.len() implies #[trigger] w[i] == e[if i == n {
            e.len() - 1
        } else {
            i
        }] by {}
        if m == e.len() {
            lemma_key_index_is(w, other, w.len() as int);
        } else if m == e.len() - 1 {
            lemma_key_index_is(w, other, n);
        } else {
            lemma_key_index_is(w, other, m);
        }
    }
}

/// Putting and cutting keep the keys distinct.
pub proof fn law_distinct_keys(e: Seq<(Tree, Tree)>, k: Seq<char>, v: Tree)
    requires
        distinct_keys(e),
    ensures
        distinct_keys(put(e, k, v)),
        distinct_keys(cut(e, k)),
        distinct_keys(swap_cut(e, k)),
{
    lemma_key_index(e, k);
    let n = key_index(e, k);
    if n < e.len() {
        let c = cut(e, k);
        assert forall|i: int, j: int| 0 <= i < j < c.len() implies c[i].0 != c[j].0 by {
            let a = if i < n {
                i
            } else {
                i + 1
            };
            let b = if j < n {
                j
            } else {
                j + 1
            };
            assert(c[i] == e[a] && c[j] == e[b]);
        }
        let w = swap_cut(e, k);
        assert forall|i: int, j: int| 0 <= i < j < w.len() implies w[i].0 != w[j].0 by {
            let a = if i == n {
                e.len() - 1
            } else {
                i
            };
            let b = if j == n {
                e.len() - 1
            } else {
                j
            };
            assert(w[i] == e[a] && w[j] == e[b]);
        }
    }
}

// ---------------------------------------------------------------------------
// The operations
// ---------------------------------------------------------------------------

impl Number {
    /// The number as a signed integer of 64 bits, where it is one.
    pub fn as_i64(self) -> (r: Option<i64>)
        ensures
            r == number_i64(self),
    {
        match self {
            Number::PosInt(v) => if v <= i64::MAX as u64 {
                Some(v as i64)
            } else {
                None
            },
            Number::NegInt(v) => Some(v),
            Number::Float(_) => None,
            Number::WholeFloat(_) => None,
        }
    }

    /// The number as an unsigned integer of 64 bits, where it is one.
    pub fn as_u64(self) -> (r: Option<u64>)
        ensures
            r == number_u64(self),
    {
        match self {
            Number::PosInt(v) => Some(v),
            _ => None,
        }
    }
}

/// A text as a value.
pub fn text(s: &str) -> (r: Value)
    ensures
        r@ == Tree::Text(s@),
{
    Value::Text(s.to_owned())
}

/// A signed integer as a value.
pub fn integer(n: i64) -> (r: Value)
    ensures
        r@ == Tree::Number(int_number(n)),
{
    if n < 0 {
        Value::Number(Number::NegInt(n))
    } else {
        Value::Number(Number::PosInt(n as u64))
    }
}

/// A text that may be absent as a value.
pub fn text_or_null(s: Option<String>) -> (r: Value)
    ensures
        r@ == (match s {
            Some(t) => Tree::Text(t@),
            None => Tree::Null,
        }),
{
    match s {
        Some(t) => Value::Text(t),
        None => Value::Null,
    }
}

/// A copy of the items of a list.
pub fn copy_list(v: &Vec<Value>) -> (r: Vec<Value>)
    ensures
        trees(r@) == trees(v@),
    decreases v,
{
    let mut out: Vec<Value> = Vec::new();
    let mut i: usize = 0;
    while i < v.len()
        invariant
            i <= v@.len(),
            out@.len() == i,
            forall|j: int| 0 <= j < i ==> out@[j]@ == v@[j]@,
        decreases v@.len() - i,
    {
        out.push(v[i].copy());
        i = i + 1;
    }
    assert(trees(out@) =~= trees(v@));
    out
}

/// A copy of the entries of a table.
pub fn copy_entries(v: &Vec<(Value, Value)>) -> (r: Vec<(Value, Value)>)
    ensures
        entries(r@) == entries(v@),
    decreases v,
{
    let mut out: Vec<(Value, Value)> = Vec::new();
    let mut i: usize = 0;
    while i < v.len()
        invariant
            i <= v@.len(),
            out@.len() == i,
            forall|j: int| 0 <= j < i ==> out@[j].0@ == v@[j].0@ && out@[j].1@ == v@[j].1@,
        decreases v@.len() - i,
    {
        out.push((v[i].0.copy(), v[i].1.copy()));
        i = i + 1;
    }
    assert(entries(out@) =~= entries(v@));
    out
}

impl Value {
    /// A copy of the value.
    pub fn copy(&self) -> (r: Value)
        ensures
            r@ == self@,
        decreases self,
    {
        broadcast use {lemma_list_tree, lemma_table_tree};

        match self {
            Value::Null => Value::Null,
            Value::Bool(b) => Value::Bool(*b),
            Value::Number(n) => Value::Number(*n),
            Value::Text(s) => Value::Text(s.clone()),
            Value::List(v) => Value::List(copy_list(v)),
            Value::Table(v) => Value::Table(copy_entries(v)),
            Value::Tagged(t, v) => Value::Tagged(t.clone(), Box::new((&**v).copy())),
        }
    }

    /// The value without the tags before it.
    pub fn untagged(&self) -> (r: &Value)
        ensures
            r@ == self@.untag(),
            !(r is Tagged),
        decreases self,
    {
        match self {
            Value::Tagged(_, v) => (&**v).untagged(),
            _ => self,
        }
    }

    /// The text, where the value is one.
    pub fn as_text(&self) -> (r: Option<&str>)
        ensures
            opt_str(r) == self@.as_text(),
    {
        match self.untagged() {
            Value::Text(s) => Some(s.as_str()),
            _ => None,
        }
    }

    /// The truth value, where the value is one.
    pub fn as_bool(&self) -> (r: Option<bool>)
        ensures
            r == self@.as_bool(),
    {
        match self.untagged() {
            Value::Bool(b) => Some(*b),
            _ => None,
        }
    }

    /// The signed integer, where the value is one.
    pub fn as_i64(&self) -> (r: Option<i64>)
        ensures
            r == self@.as_i64(),
    {
        match self.untagged() {
            Value::Number(n) => n.as_i64(),
            _ => None,
        }
    }

    /// The unsigned integer, where the value is one.
    pub fn as_u64(&self) -> (r: Option<u64>)
        ensures
            r == self@.as_u64(),
    {
        match self.untagged() {
            Value::Number(n) => n.as_u64(),
            _ => None,
        }
    }

    /// The items, where the value is a list.
    pub fn as_list(&self) -> (r: Option<&Vec<Value>>)
        ensures
            match r {
                Some(v) => self@.as_list() == Some(trees(v@)),
                None => self@.as_list() is None,
            },
    {
        broadcast use lemma_list_tree;

        match self.untagged() {
            Value::List(v) => Some(v),
            _ => None,
        }
    }

    /// The entries, where the value is a table.
    pub fn as_table(&self) -> (r: Option<&Vec<(Value, Value)>>)
        ensures
            match r {
                Some(v) => self@.as_table() == Some(entries(v@)),
                None => self@.as_table() is None,
            },
    {
        broadcast use lemma_table_tree;

        match self.untagged() {
            Value::Table(v) => Some(v),
            _ => None,
        }
    }

    /// The value under a key, where the value is a table that has it.
    pub fn member(&self, k: &str) -> (r: Option<&Value>)
        ensures
            opt_ref(r) == self@.member(k@),
    {
        match self.as_table() {
            Some(e) => table_get(e, k),
            None => None,
        }
    }

    /// The text under a key, where there is one.
    pub fn member_text(&self, k: &str) -> (r: Option<&str>)
        ensures
            opt_str(r) == self@.member_text(k@),
    {
        match self.member(k) {
            Some(v) => v.as_text(),
            None => None,
        }
    }

    /// The truth value under a key, or another where there is none.
    pub fn flag_or(&self, k: &str, other: bool) -> (r: bool)
        ensures
            r == self@.flag_or(k@, other),
    {
        match self.member(k) {
            Some(v) => match v.as_bool() {
                Some(b) => b,
                None => other,
            },
            None => other,
        }
    }

    /// The text under a key, or another text where there is none.
    pub fn text_or(&self, k: &str, other: &str) -> (r: String)
        ensures
            r@ == self@.text_or(k@, other@),
    {
        match self.member_text(k) {
            Some(s) => s.to_owned(),
            None => other.to_owned(),
        }
    }
}

/// The part of a request that holds its fields: what stands under `body`, or the request
/// itself.
pub open spec fn request_body(payload: Tree) -> Tree {
    match payload.member("body"@) {
        Some(b) => b,
        None => payload,
    }
}

/// The part of a request that holds its fields.
pub fn body_of(payload: &Value) -> (r: &Value)
    ensures
        r@ == request_body(payload@),
{
    match payload.member("body") {
        Some(b) => b,
        None => payload,
    }
}

/// Whether a value is the text `k`, without a tag.
fn is_key(v: &Value, k: &str) -> (r: bool)
    ensures
        r == (v@ == Tree::Text(k@)),
{
    match v {
        Value::Text(s) => text_eq(s.as_str(), k),
        _ => false,
    }
}

/// The position of the first entry with the key `k`.
pub fn find_key(e: &Vec<(Value, Value)>, k: &str) -> (r: usize)
    ensures
        r == key_index(entries(e@), k@),
        r <= e@.len(),
{
    let mut i: usize = 0;
    while i < e.len() && !is_key(&e[i].0, k)
        invariant
            i <= e@.len(),
            forall|j: int| 0 <= j < i ==> entries(e@)[j].0 != Tree::Text(k@),
        decreases e@.len() - i,
    {
        i = i + 1;
    }
    proof {
        lemma_key_index_is(entries(e@), k@, i as int);
    }
    i
}

/// The value under the key `k`.
pub fn table_get<'a>(e: &'a Vec<(Value, Value)>, k: &str) -> (r: Option<&'a Value>)
    ensures
        opt_ref(r) == get(entries(e@), k@),
{
    let i: usize = find_key(e, k);
    if i < e.len() {
        Some(&e[i].1)
    } else {
        None
    }
}

/// The text under the key `k`, or another text where there is none.
pub fn table_text_or(e: &Vec<(Value, Value)>, k: &str, other: &str) -> (r: String)
    ensures
        r@ == get_text_or(entries(e@), k@, other@),
{
    match table_get(e, k) {
        Some(v) => match v.as_text() {
            Some(s) => s.to_owned(),
            None => other.to_owned(),
        },
        None => other.to_owned(),
    }
}

/// Puts `v` under the key `k`.
pub fn table_put(e: &mut Vec<(Value, Value)>, k: &str, v: Value)
    ensures
        entries(final(e)@) == put(entries(old(e)@), k@, v@),
{
    let ghost before = entries(e@);
    let i: usize = find_key(e, k);
    if i < e.len() {
        e.set(i, (text(k), v));
    } else {
        e.push((text(k), v));
    }
    assert(entries(e@) =~= put(before, k@, v@));
}

/// Takes the entry with the key `k` out; the others keep their order.
pub fn table_cut(e: &mut Vec<(Value, Value)>, k: &str) -> (r: Option<Value>)
    ensures
        entries(final(e)@) == cut(entries(old(e)@), k@),
        opt_tree(r) == get(entries(old(e)@), k@),
{
    let ghost before = entries(e@);
    let i: usize = find_key(e, k);
    if i < e.len() {
        let (_, v) = e.remove(i);
        assert(entries(e@) =~= cut(before, k@));
        Some(v)
    } else {
        None
    }
}

/// Takes the entry with the key `k` out and lets the last entry take its place.
pub fn table_swap_cut(e: &mut Vec<(Value, Value)>, k: &str)
    ensures
        entries(final(e)@) == swap_cut(entries(old(e)@), k@),
{
    let ghost before = entries(e@);
    let i: usize = find_key(e, k);
    if i < e.len() {
        let _ = e.swap_remove(i);
        assert(entries(e@) =~= swap_cut(before, k@));
    }
}

/// A copy of the entries of the table under the key `k`; none where there is no table
/// without a tag.
pub fn copy_subtable(e: &Vec<(Value, Value)>, k: &str) -> (r: Vec<(Value, Value)>)
    ensures
        entries(r@) == subtable(entries(e@), k@),
{
    broadcast use lemma_table_tree;

    match table_get(e, k) {
        Some(Value::Table(m)) => copy_entries(m),
        _ => {
            let none: Vec<(Value, Value)> = Vec::new();
            assert(entries(none@) =~= Seq::<(Tree, Tree)>::empty());
            none
        },
    }
}

/// The value with the entries of its table exchanged for `e`; its tags stay.
pub fn retable(v: Value, e: Vec<(Value, Value)>) -> (r: Value)
    ensures
        r@ == retabled(v@, entries(e@)),
    decreases v,
{
    broadcast use lemma_table_tree;

    match v {
        Value::Tagged(tag, b) => Value::Tagged(tag, Box::new(retable(*b, e))),
        _ => Value::Table(e),
    }
}

/// Exchanging the entries leaves a table with the new ones.
pub proof fn lemma_retabled(t: Tree, e: Seq<(Tree, Tree)>)
    ensures
        retabled(t, e).as_table() == Some(e),
    decreases t,
{
    match t {
        Tree::Tagged(_, b) => {
            lemma_retabled(*b, e);
        },
        _ => {},
    }
}

/// A table that is written down entry by entry.
pub struct Fields {
    list: Vec<(Value, Value)>,
}

impl View for Fields {
    type V = Seq<(Tree, Tree)>;

    closed spec fn view(&self) -> Seq<(Tree, Tree)> {
        entries(self.list@)
    }
}

impl Fields {
    /// A table without entries.
    pub fn new() -> (r: Fields)
        ensures
            r@ == Seq::<(Tree, Tree)>::empty(),
    {
        let r = Fields { list: Vec::new() };
        assert(r@ =~= Seq::<(Tree, Tree)>::empty());
        r
    }

    /// The table with one more entry.
    pub fn with(self, k: &str, v: Value) -> (r: Fields)
        ensures
            r@ == self@.push(field(k@, v@)),
    {
        let mut list = self.list;
        let ghost before = entries(list@);
        list.push((text(k), v));
        assert(entries(list@) =~= before.push(field(k@, v@)));
        Fields { list }
    }

    /// The table as a value.
    pub fn table(self) -> (r: Value)
        ensures
            r@ == Tree::Table(self@),
    {
        broadcast use lemma_table_tree;

        Value::Table(self.list)
    }
}

// ---------------------------------------------------------------------------
// Laws of reading
// ---------------------------------------------------------------------------

/// The first entry with a key gives its value; a key that no entry has gives nothing.
pub proof fn law_get(e: Seq<(Tree, Tree)>, k: Seq<char>, i: int)
    ensures
        0 <= i < e.len() && e[i].0 == Tree::Text(k) && (forall|j: int|
            0 <= j < i ==> (#[trigger] e[j]).0 != Tree::Text(k)) ==> get(e, k) == Some(e[i].1),
        (forall|j: int| 0 <= j < e.len() ==> (#[trigger] e[j]).0 != Tree::Text(k)) ==> get(e, k)
            is None,
        has_key(e, k) == (get(e, k) is Some),
{
    lemma_key_index(e, k);
    if 0 <= i < e.len() && e[i].0 == Tree::Text(k) && forall|j: int|
        0 <= j < i ==> (#[trigger] e[j]).0 != Tree::Text(k) {
        lemma_key_index_is(e, k, i);
    }
    if forall|j: int| 0 <= j < e.len() ==> (#[trigger] e[j]).0 != Tree::Text(k) {
        lemma_key_index_is(e, k, e.len() as int);
    }
}

/// A value is read as what it is and as nothing else, and a tag before it does not matter.
pub proof fn law_readers(t: Tree, tag: Seq<char>)
    ensures
        t matches Tree::Text(s) ==> t.as_text() == Some(s),
        t matches Tree::Bool(b) ==> t.as_bool() == Some(b),
        t matches Tree::List(v) ==> t.as_list() == Some(v),
        t matches Tree::Table(e) ==> t.as_table() == Some(e),
        !(t is Tagged) && !(t is Text) ==> t.as_text() is None,
        !(t is Tagged) && !(t is Bool) ==> t.as_bool() is None,
        !(t is Tagged) && !(t is List) ==> t.as_list() is None,
        !(t is Tagged) && !(t is Table) ==> t.as_table() is None,
        !(t is Tagged) && !(t is Number) ==> t.as_i64() is None && t.as_u64() is None,
        ({
            let g = Tree::Tagged(tag, Box::new(t));
            &&& g.as_text() == t.as_text()
            &&& g.as_bool() == t.as_bool()
            &&& g.as_i64() == t.as_i64()
            &&& g.as_u64() == t.as_u64()
            &&& g.as_list() == t.as_list()
            &&& g.as_table() == t.as_table()
        }),
{
    reveal_with_fuel(Tree::untag, 2);
}

/// An integer of a document is read as that integer where it fits, a float never is, and an
/// integer that is written is read back.
pub proof fn law_integers(p: u64, n: i64, f: u64, w: i64)
    ensures
        Tree::Number(Number::PosInt(p)).as_u64() == Some(p),
        Tree::Number(Number::PosInt(p)).as_i64() == (if p <= i64::MAX {
            Some(p as i64)
        } else {
            None
        }),
        Tree::Number(Number::NegInt(n)).as_i64() == Some(n),
        Tree::Number(Number::NegInt(n)).as_u64() is None,
        Tree::Number(Number::Float(f)).as_i64() is None,
        Tree::Number(Number::WholeFloat(w)).as_i64() is None,
        Tree::Number(int_number(n)).as_i64() == Some(n),
        n >= 0 ==> Tree::Number(int_number(n)).as_u64() == Some(n as u64),
{
}

/// What a key of a table gives is what its entry holds, whatever tags stand before the table and
/// the value; a value that is no table has no keys.
pub proof fn law_members(t: Tree, e: Seq<(Tree, Tree)>, k: Seq<char>, d: Seq<char>, b: bool)
    ensures
        t.as_table() is None ==> t.member(k) is None,
        t.as_table() == Some(e) ==> t.member(k) == get(e, k),
        t.member(k) is None ==> t.member_text(k) is None && t.text_or(k, d) == d && t.flag_or(k, b)
            == b,
        t.member(k) matches Some(v) ==> {
            &&& t.member_text(k) == v.as_text()
            &&& v.as_text() matches Some(s) ==> t.text_or(k, d) == s
            &&& v.as_text() is None ==> t.text_or(k, d) == d
            &&& v.as_bool() matches Some(x) ==> t.flag_or(k, b) == x
            &&& v.as_bool() is None ==> t.flag_or(k, b) == b
        },
        get(e, k) is None ==> get_text_or(e, k, d) == d,
        get(e, k) matches Some(v) ==> {
            &&& v.as_text() matches Some(s) ==> get_text_or(e, k, d) == s
            &&& v.as_text() is None ==> get_text_or(e, k, d) == d
        },
{
}

/// Putting a value under a key changes the entry with the key, or adds one behind all others;
/// cutting a key takes its entry out. All other entries keep their order, but where the last entry
/// is to take the place of the one that is cut.
pub proof fn law_entries_keep_their_order(e: Seq<(Tree, Tree)>, k: Seq<char>, v: Tree, i: int)
    requires
        0 <= i < e.len(),
        e[i].0 == Tree::Text(k),
        forall|j: int| 0 <= j < i ==> (#[trigger] e[j]).0 != Tree::Text(k),
    ensures
        put(e, k, v) == e.update(i, (Tree::Text(k), v)),
        cut(e, k) == e.remove(i),
        i == e.len() - 1 ==> swap_cut(e, k) == e.drop_last(),
        i < e.len() - 1 ==> swap_cut(e, k) == e.drop_last().update(i, e.last()),
{
    lemma_key_index_is(e, k, i);
}

/// A key that no entry has is put behind all entries, and there is nothing of it to cut.
pub proof fn law_new_key(e: Seq<(Tree, Tree)>, k: Seq<char>, v: Tree)
    requires
        get(e, k) is None,
    ensures
        put(e, k, v) == e.push((Tree::Text(k), v)),
        cut(e, k) == e,
        swap_cut(e, k) == e,
{
}

/// The fields of a request are those of its `body`, where it has one.
pub proof fn law_request_body(payload: Tree, b: Tree)
    ensures
        payload.member("body"@) == Some(b) ==> request_body(payload) == b,
        payload.member("body"@) is None ==> request_body(payload) == payload,
{
}

/// A value holds what it is made of: nothing is left out, and every value of another kind is a
/// tree of another kind.
pub proof fn law_tree(
    b: bool,
    n: Number,
    s: String,
    l: Vec<Value>,
    t: Vec<(Value, Value)>,
    v: Box<Value>,
    i: int,
)
    ensures
        Value::Null@ == Tree::Null,
        Value::Bool(b)@ == Tree::Bool(b),
        Value::Number(n)@ == Tree::Number(n),
        Value::Text(s)@ == Tree::Text(s@),
        Value::List(l)@ matches Tree::List(x) && x.len() == l@.len() && (0 <= i < l@.len() ==> x[i]
            == l@[i]@),
        Value::Table(t)@ matches Tree::Table(x) && x.len() == t@.len() && (0 <= i < t@.len()
            ==> x[i] == (t@[i].0@, t@[i].1@)),
        Value::Tagged(s, v)@ == Tree::Tagged(s@, Box::new((*v)@)),
{
}

} // verus!
