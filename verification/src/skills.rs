//! Skills: which are switched off, what is told of them, and switching them on and off.
use vstd::prelude::*;
use vstd::string::*;

use crate::text::{
    drop_leading, holds_text, is_white_space, law_drop_leading, law_lines, law_text_less_total,
    law_text_less_trans, law_trim_takes_white_space, lines, lines_of, text_before, text_eq,
    text_less, texts, trim, trimmed, without_leading,
};
use crate::value::{
    copy_entries, field, fields, get, key_index, law_put_get, law_put_keeps, lemma_key_index,
    lemma_key_index_is, lemma_list_tree, lemma_retabled, lemma_table_tree, put, retable, retabled,
    section_member, table_get, table_put, text, tree_result, trees, Fields, Tree, Value,
};

verus! {

broadcast use {lemma_list_tree, lemma_table_tree};

// ---------------------------------------------------------------------------
// Names in order
// ---------------------------------------------------------------------------

/// The names stand in order, and none twice.
pub open spec fn in_order(s: Seq<Seq<char>>) -> bool {
    forall|i: int, j: int| 0 <= i < j < s.len() ==> text_less(#[trigger] s[i], #[trigger] s[j])
}

/// The names, in order, with one more where it is not among them.
pub open spec fn with_name(s: Seq<Seq<char>>, x: Seq<char>) -> Seq<Seq<char>>
    decreases s.len(),
{
    if s.len() == 0 || text_less(s.last(), x) {
        s.push(x)
    } else if s.last() == x {
        s
    } else {
        with_name(s.drop_last(), x).push(s.last())
    }
}

/// The names without one of them.
pub open spec fn without_name(s: Seq<Seq<char>>, x: Seq<char>) -> Seq<Seq<char>>
    decreases s.len(),
{
    if s.len() == 0 {
        s
    } else if s.last() == x {
        without_name(s.drop_last(), x)
    } else {
        without_name(s.drop_last(), x).push(s.last())
    }
}

/// The texts among the items of a list, in order and each once.
pub open spec fn names_in(items: Seq<Tree>) -> Seq<Seq<char>>
    decreases items.len(),
{
    if items.len() == 0 {
        Seq::empty()
    } else {
        match items.last().as_text() {
            Some(s) => with_name(names_in(items.drop_last()), s),
            None => names_in(items.drop_last()),
        }
    }
}

/// Putting a name in at its place.
proof fn lemma_with_name(s: Seq<Seq<char>>, x: Seq<char>, p: int)
    requires
        0 <= p <= s.len(),
        p > 0 ==> !text_less(x, s[p - 1]),
        forall|i: int| p <= i < s.len() ==> text_less(x, #[trigger] s[i]),
    ensures
        with_name(s, x) == if p > 0 && s[p - 1] == x {
            s
        } else {
            s.insert(p, x)
        },
    decreases s.len(),
{
    if p == s.len() {
        if p > 0 {
            law_text_less_total(x, s[p - 1]);
        }
        assert(s.insert(p, x) =~= s.push(x));
    } else {
        let front = s.drop_last();
        law_text_less_total(x, s[s.len() - 1]);
        lemma_with_name(front, x, p);
        assert(s.insert(p, x) =~= front.insert(p, x).push(s.last()));
        assert(front.push(s.last()) =~= s);
    }
}

/// Puts a name in at its place, where it is not among the names.
fn put_name(v: &mut Vec<String>, x: String)
    ensures
        texts(final(v)@) == with_name(texts(old(v)@), x@),
{
    let ghost before = texts(v@);
    let mut p: usize = v.len();
    while p > 0 && text_before(x.as_str(), v[p - 1].as_str())
        invariant
            p <= v@.len(),
            before == texts(v@),
            forall|i: int| p <= i < before.len() ==> text_less(x@, #[trigger] before[i]),
        decreases p,
    {
        p = p - 1;
        assert(before[p as int] == v@[p as int]@);
    }
    proof {
        if p > 0 {
            assert(before[p - 1] == v@[p - 1]@);
        }
        lemma_with_name(before, x@, p as int);
    }
    if p > 0 && text_eq(v[p - 1].as_str(), x.as_str()) {
        return ;
    }
    v.insert(p, x);
    assert(texts(v@) =~= before.insert(p as int, x@));
}

/// The names without one of them.
fn cut_name(v: &Vec<String>, x: &str) -> (r: Vec<String>)
    ensures
        texts(r@) == without_name(texts(v@), x@),
{
    let ghost all = texts(v@);
    let mut out: Vec<String> = Vec::new();
    let mut i: usize = 0;
    assert(all.take(0) =~= Seq::<Seq<char>>::empty());
    assert(texts(out@) =~= Seq::<Seq<char>>::empty());
    while i < v.len()
        invariant
            i <= v@.len(),
            all == texts(v@),
            texts(out@) == without_name(all.take(i as int), x@),
        decreases v@.len() - i,
    {
        proof {
            assert(all.take(i + 1).drop_last() =~= all.take(i as int));
            assert(all.take(i + 1).last() == v@[i as int]@);
        }
        if !text_eq(v[i].as_str(), x) {
            let ghost before = texts(out@);
            out.push(v[i].clone());
            assert(texts(out@) =~= before.push(v@[i as int]@));
        }
        i = i + 1;
    }
    assert(all.take(i as int) =~= all);
    out
}

/// The texts among the items of a list, in order and each once.
fn read_names(items: &Vec<Value>) -> (r: Vec<String>)
    ensures
        texts(r@) == names_in(trees(items@)),
{
    let ghost all = trees(items@);
    let mut out: Vec<String> = Vec::new();
    let mut i: usize = 0;
    assert(all.take(0) =~= Seq::<Tree>::empty());
    assert(texts(out@) =~= Seq::<Seq<char>>::empty());
    while i < items.len()
        invariant
            i <= items@.len(),
            all == trees(items@),
            texts(out@) == names_in(all.take(i as int)),
        decreases items@.len() - i,
    {
        proof {
            assert(all.take(i + 1).drop_last() =~= all.take(i as int));
            assert(all.take(i + 1).last() == items@[i as int]@);
        }
        if let Some(s) = items[i].as_text() {
            put_name(&mut out, s.to_owned());
        }
        i = i + 1;
    }
    assert(all.take(i as int) =~= all);
    out
}

// ---------------------------------------------------------------------------
// Which skills are switched off
// ---------------------------------------------------------------------------

/// The names of the skills that a configuration switches off: the texts in the list
/// `skills.disabled`, in order and each once.
pub open spec fn disabled(cfg: Tree) -> Seq<Seq<char>> {
    match cfg.member("skills"@) {
        Some(s) => match s.member("disabled"@) {
            Some(d) => match d.as_list() {
                Some(items) => names_in(items),
                None => Seq::empty(),
            },
            None => Seq::empty(),
        },
        None => Seq::empty(),
    }
}

/// The names of the skills that a configuration switches off.
pub fn skills_disabled_set(cfg: &Value) -> (r: Vec<String>)
    ensures
        texts(r@) == disabled(cfg@),
{
    if let Some(s) = cfg.member("skills") {
        if let Some(d) = s.member("disabled") {
            if let Some(items) = d.as_list() {
                return read_names(items);
            }
        }
    }
    let none: Vec<String> = Vec::new();
    assert(texts(none@) =~= Seq::<Seq<char>>::empty());
    none
}

/// The value with the items of its list exchanged; its tags stay.
pub open spec fn relisted(t: Tree, items: Seq<Tree>) -> Tree
    decreases t,
{
    match t {
        Tree::Tagged(tag, b) => Tree::Tagged(tag, Box::new(relisted(*b, items))),
        _ => Tree::List(items),
    }
}

/// The value with the items of its list exchanged; its tags stay.
fn relist(v: Value, items: Vec<Value>) -> (r: Value)
    ensures
        r@ == relisted(v@, trees(items@)),
    decreases v,
{
    match v {
        Value::Tagged(tag, b) => Value::Tagged(tag, Box::new(relist(*b, items))),
        _ => Value::List(items),
    }
}

/// Exchanging the items leaves a list with the new ones.
proof fn lemma_relisted(t: Tree, items: Seq<Tree>)
    ensures
        relisted(t, items).as_list() == Some(items),
    decreases t,
{
    match t {
        Tree::Tagged(_, b) => {
            lemma_relisted(*b, items);
        },
        _ => {},
    }
}

/// Names as the items of a list.
pub open spec fn name_items(s: Seq<Seq<char>>) -> Seq<Tree> {
    Seq::new(s.len(), |i: int| Tree::Text(s[i]))
}

/// The value under a key, or another where there is none.
pub open spec fn get_or(e: Seq<(Tree, Tree)>, k: Seq<char>, other: Tree) -> Tree {
    match get(e, k) {
        Some(t) => t,
        None => other,
    }
}

/// The names that are switched off after a skill was switched.
pub open spec fn switched(s: Seq<Seq<char>>, name: Seq<char>, enabled: bool) -> Seq<Seq<char>> {
    if enabled {
        without_name(s, name)
    } else {
        with_name(s, name)
    }
}

/// The configuration with a skill switched on or off. One that is no table becomes one; a list
/// or a table that is missing is added.
pub open spec fn toggled(cfg: Tree, name: Seq<char>, enabled: bool) -> Result<Tree, Seq<char>> {
    let base = if cfg.as_table() is Some {
        cfg
    } else {
        Tree::Table(fields())
    };
    let e = base.as_table()->0;
    let skills = get_or(e, "skills"@, Tree::Table(fields()));
    match skills.as_table() {
        None => Err("skills moet een mapping zijn"@),
        Some(se) => {
            let list = get_or(se, "disabled"@, Tree::List(Seq::empty()));
            match list.as_list() {
                None => Err("skills.disabled moet een lijst zijn"@),
                Some(items) => {
                    let names = switched(names_in(items), name, enabled);
                    let new_skills = retabled(
                        skills,
                        put(se, "disabled"@, relisted(list, name_items(names))),
                    );
                    Ok(retabled(base, put(e, "skills"@, new_skills)))
                },
            }
        },
    }
}

/// Names as the items of a list.
fn items_of(v: &Vec<String>) -> (r: Vec<Value>)
    ensures
        trees(r@) == name_items(texts(v@)),
{
    let mut out: Vec<Value> = Vec::new();
    let mut i: usize = 0;
    while i < v.len()
        invariant
            i <= v@.len(),
            out@.len() == i,
            forall|j: int| 0 <= j < i ==> (#[trigger] out@[j])@ == Tree::Text(v@[j]@),
        decreases v@.len() - i,
    {
        out.push(text(v[i].as_str()));
        i = i + 1;
    }
    assert(trees(out@) =~= name_items(texts(v@)));
    out
}

/// A table without entries.
fn empty_table() -> (r: Value)
    ensures
        r@ == Tree::Table(fields()),
{
    Fields::new().table()
}

/// The configuration with a skill switched on or off, from the outcome of loading it.
pub fn toggle_skill_via_yaml(
    name: &str,
    enabled: bool,
    loaded: Result<Value, String>,
) -> (r: Result<Value, String>)
    ensures
        tree_result(r) == (match tree_result(loaded) {
            Ok(cfg) => toggled(cfg, name@, enabled),
            Err(e) => Err(e),
        }),
{
    let cfg = match loaded {
        Ok(cfg) => cfg,
        Err(e) => {
            return Err(e);
        },
    };
    let base = if cfg.as_table().is_some() {
        cfg
    } else {
        empty_table()
    };
    let mut e = match base.as_table() {
        Some(e) => copy_entries(e),
        None => Vec::new(),
    };
    let skills = match table_get(&e, "skills") {
        Some(s) => s.copy(),
        None => empty_table(),
    };
    let mut se = match skills.as_table() {
        Some(se) => copy_entries(se),
        None => {
            return Err("skills moet een mapping zijn".to_owned());
        },
    };
    let list = match table_get(&se, "disabled") {
        Some(d) => d.copy(),
        None => {
            let none: Vec<Value> = Vec::new();
            assert(trees(none@) =~= Seq::<Tree>::empty());
            Value::List(none)
        },
    };
    let names = match list.as_list() {
        Some(items) => read_names(items),
        None => {
            return Err("skills.disabled moet een lijst zijn".to_owned());
        },
    };
    let names = if enabled {
        cut_name(&names, name)
    } else {
        let mut names = names;
        put_name(&mut names, name.to_owned());
        names
    };
    table_put(&mut se, "disabled", relist(list, items_of(&names)));
    table_put(&mut e, "skills", retable(skills, se));
    Ok(retable(base, e))
}

// ---------------------------------------------------------------------------
// What is told of skills
// ---------------------------------------------------------------------------

/// What is told of a skill.
#[derive(Debug, PartialEq, Eq)]
pub struct SkillInfo {
    pub name: String,
    pub description: String,
    pub category: String,
    pub enabled: bool,
}

/// What is told of a skill, by its contents.
pub struct SkillFacts {
    pub name: Seq<char>,
    pub description: Seq<char>,
    pub category: Seq<char>,
    pub enabled: bool,
}

impl View for SkillInfo {
    type V = SkillFacts;

    open spec fn view(&self) -> SkillFacts {
        SkillFacts {
            name: self.name@,
            description: self.description@,
            category: self.category@,
            enabled: self.enabled,
        }
    }
}

/// A directory in which a skill is, and what its `SKILL.md` holds where it can be read.
pub struct SkillDir {
    pub name: String,
    pub readme: Option<String>,
}

/// What describes a skill: the first line of its `SKILL.md` without the marks of a heading, and
/// its name where the file cannot be read. The name stands in for a file without lines too.
pub open spec fn description(name: Seq<char>, readme: Option<Seq<char>>) -> Seq<char> {
    match readme {
        Some(s) => trim(
            drop_leading(
                if lines(s).len() > 0 {
                    lines(s)[0]
                } else {
                    name
                },
                '#',
            ),
        ),
        None => name,
    }
}

/// What is told of the skill in a directory.
pub open spec fn skill_facts(d: SkillDir, off: Seq<Seq<char>>) -> SkillFacts {
    SkillFacts {
        name: d.name@,
        description: description(
            d.name@,
            match d.readme {
                Some(s) => Some(s@),
                None => None,
            },
        ),
        category: "user"@,
        enabled: !off.contains(d.name@),
    }
}

/// What is told of skills, by its contents.
pub open spec fn facts(v: Seq<SkillInfo>) -> Seq<SkillFacts> {
    Seq::new(v.len(), |i: int| v[i]@)
}

/// What describes a skill.
pub fn skill_description(name: &str, readme: &Option<String>) -> (r: String)
    ensures
        r@ == description(
            name@,
            match readme {
                Some(s) => Some(s@),
                None => None,
            },
        ),
{
    match readme {
        Some(s) => {
            let ls = lines_of(s.as_str());
            if ls.len() > 0 {
                assert(texts(ls@)[0] == ls@[0]@);
                trimmed(without_leading(ls[0].as_str(), '#')).to_owned()
            } else {
                trimmed(without_leading(name, '#')).to_owned()
            }
        },
        None => name.to_owned(),
    }
}

/// What is told of the skills in the directories that were found, from the outcome of loading
/// the configuration.
pub fn get_skills_fallback_scan(loaded: Result<&Value, String>, dirs: &Vec<SkillDir>) -> (r: Result<
    Vec<SkillInfo>,
    String,
>)
    ensures
        match loaded {
            Ok(cfg) => r matches Ok(v) && facts(v@) == Seq::new(
                dirs@.len(),
                |i: int| skill_facts(dirs@[i], disabled(cfg@)),
            ),
            Err(e) => r matches Err(x) && x@ == e@,
        },
        loaded matches Ok(cfg) ==> r matches Ok(v) && v@.len() == dirs@.len() && forall|i: int|
            0 <= i < dirs@.len() ==> (#[trigger] v@[i]).name@ == dirs@[i].name@ && v@[i].enabled
                == !disabled(cfg@).contains(dirs@[i].name@),
{
    let cfg = match loaded {
        Ok(cfg) => cfg,
        Err(e) => {
            return Err(e);
        },
    };
    let off = skills_disabled_set(cfg);
    let mut out: Vec<SkillInfo> = Vec::new();
    let mut i: usize = 0;
    while i < dirs.len()
        invariant
            i <= dirs@.len(),
            texts(off@) == disabled(cfg@),
            out@.len() == i,
            forall|j: int|
                0 <= j < i ==> (#[trigger] out@[j])@ == skill_facts(dirs@[j], disabled(cfg@)),
        decreases dirs@.len() - i,
    {
        let d = &dirs[i];
        out.push(
            SkillInfo {
                name: d.name.clone(),
                description: skill_description(d.name.as_str(), &d.readme),
                category: "user".to_owned(),
                enabled: !holds_text(&off, d.name.as_str()),
            },
        );
        i = i + 1;
    }
    assert(facts(out@) =~= Seq::new(
        dirs@.len(),
        |i: int| skill_facts(dirs@[i], disabled(cfg@)),
    ));
    Ok(out)
}

/// The request for all skills, for the helper.
pub fn get_skills() -> (r: Value)
    ensures
        r@ == Tree::Table(fields().push(field("op"@, Tree::Text("list"@)))),
{
    Fields::new().with("op", text("list")).table()
}

/// The request to switch a skill, for the helper.
pub open spec fn switch_request(name: Seq<char>, enabled: bool) -> Result<Tree, Seq<char>> {
    if trim(name).len() == 0 {
        Err("skill naam leeg"@)
    } else {
        Ok(
            Tree::Table(
                fields()
                    .push(field("op"@, Tree::Text("toggle"@)))
                    .push(field("name"@, Tree::Text(trim(name))))
                    .push(field("enabled"@, Tree::Bool(enabled))),
            ),
        )
    }
}

/// The request to switch a skill, for the helper.
pub fn toggle_skill(name: &str, enabled: bool) -> (r: Result<Value, String>)
    ensures
        tree_result(r) == switch_request(name@, enabled),
{
    let skill = trimmed(name);
    if skill.unicode_len() == 0 {
        return Err("skill naam leeg".to_owned());
    }
    Ok(
        Fields::new()
            .with("op", text("toggle"))
            .with("name", text(skill))
            .with("enabled", Value::Bool(enabled))
            .table(),
    )
}

// ---------------------------------------------------------------------------
// Laws
// ---------------------------------------------------------------------------

/// Names in order but for the last are in order.
proof fn lemma_front_in_order(s: Seq<Seq<char>>)
    requires
        in_order(s),
        s.len() > 0,
    ensures
        in_order(s.drop_last()),
{
    let front = s.drop_last();
    assert forall|i: int, j: int| 0 <= i < j < front.len() implies text_less(
        #[trigger] front[i],
        #[trigger] front[j],
    ) by {
        assert(text_less(s[i], s[j]));
    }
}

/// Putting a name in keeps the names in order, and adds it to them and nothing else.
pub proof fn law_with_name(s: Seq<Seq<char>>, x: Seq<char>)
    requires
        in_order(s),
    ensures
        in_order(with_name(s, x)),
        forall|y: Seq<char>| #[trigger]
            with_name(s, x).contains(y) <==> s.contains(y) || y == x,
    decreases s.len(),
{
    let r = with_name(s, x);
    if s.len() == 0 || text_less(s.last(), x) {
        assert forall|i: int, j: int| 0 <= i < j < r.len() implies text_less(
            #[trigger] r[i],
            #[trigger] r[j],
        ) by {
            if j == s.len() && i < s.len() - 1 {
                assert(text_less(s[i], s[s.len() - 1]));
                law_text_less_trans(s[i], s.last(), x);
            }
        }
        assert forall|y: Seq<char>| #[trigger] r.contains(y) <==> s.contains(y) || y == x by {
            if s.contains(y) {
                let k = choose|k: int| 0 <= k < s.len() && s[k] == y;
                assert(r[k] == y);
            }
            assert(r[s.len() as int] == x);
            if r.contains(y) && y != x {
                let k = choose|k: int| 0 <= k < r.len() && r[k] == y;
                assert(s[k] == y);
            }
        }
    } else if s.last() == x {
        assert(s[s.len() - 1] == x);
    } else {
        let front = s.drop_last();
        let y0 = s.last();
        lemma_front_in_order(s);
        law_with_name(front, x);
        let inner = with_name(front, x);
        law_text_less_total(x, y0);
        assert forall|i: int, j: int| 0 <= i < j < r.len() implies text_less(
            #[trigger] r[i],
            #[trigger] r[j],
        ) by {
            if j == inner.len() {
                assert(inner.contains(inner[i]));
                if inner[i] != x {
                    let k = choose|k: int| 0 <= k < front.len() && front[k] == inner[i];
                    assert(text_less(s[k], s[s.len() - 1]));
                }
            } else {
                assert(text_less(inner[i], inner[j]));
            }
        }
        assert forall|y: Seq<char>| #[trigger] r.contains(y) <==> s.contains(y) || y == x by {
            if r.contains(y) {
                let k = choose|k: int| 0 <= k < r.len() && r[k] == y;
                if k < inner.len() {
                    assert(inner[k] == y);
                    assert(inner.contains(y));
                    if y != x {
                        let m = choose|m: int| 0 <= m < front.len() && front[m] == y;
                        assert(s[m] == y);
                    }
                } else {
                    assert(s[s.len() - 1] == y);
                }
            }
            if s.contains(y) || y == x {
                if s.contains(y) {
                    let k = choose|k: int| 0 <= k < s.len() && s[k] == y;
                    if k < front.len() {
                        assert(front[k] == y);
                        assert(inner.contains(y));
                        let m = choose|m: int| 0 <= m < inner.len() && inner[m] == y;
                        assert(r[m] == y);
                    } else {
                        assert(r[inner.len() as int] == y);
                    }
                } else {
                    assert(inner.contains(y));
                    let m = choose|m: int| 0 <= m < inner.len() && inner[m] == y;
                    assert(r[m] == y);
                }
            }
        }
    }
}

/// Taking a name out keeps the names in order, and takes it out and nothing else.
pub proof fn law_without_name(s: Seq<Seq<char>>, x: Seq<char>)
    requires
        in_order(s),
    ensures
        in_order(without_name(s, x)),
        forall|y: Seq<char>| #[trigger]
            without_name(s, x).contains(y) <==> s.contains(y) && y != x,
    decreases s.len(),
{
    let r = without_name(s, x);
    if s.len() > 0 {
        let front = s.drop_last();
        lemma_front_in_order(s);
        law_without_name(front, x);
        let inner = without_name(front, x);
        if s.last() != x {
            assert forall|i: int, j: int| 0 <= i < j < r.len() implies text_less(
                #[trigger] r[i],
                #[trigger] r[j],
            ) by {
                if j == inner.len() {
                    assert(inner.contains(inner[i]));
                    let k = choose|k: int| 0 <= k < front.len() && front[k] == inner[i];
                    assert(text_less(s[k], s[s.len() - 1]));
                } else {
                    assert(text_less(inner[i], inner[j]));
                }
            }
        }
        assert forall|y: Seq<char>| #[trigger] r.contains(y) <==> s.contains(y) && y != x by {
            if r.contains(y) {
                let k = choose|k: int| 0 <= k < r.len() && r[k] == y;
                if k < inner.len() {
                    assert(inner[k] == y);
                    assert(inner.contains(y));
                    let m = choose|m: int| 0 <= m < front.len() && front[m] == y;
                    assert(s[m] == y);
                } else {
                    assert(s[s.len() - 1] == y);
                }
            }
            if s.contains(y) && y != x {
                let k = choose|k: int| 0 <= k < s.len() && s[k] == y;
                if k < front.len() {
                    assert(front[k] == y);
                    assert(inner.contains(y));
                    let m = choose|m: int| 0 <= m < inner.len() && inner[m] == y;
                    assert(r[m] == y);
                } else {
                    assert(r[inner.len() as int] == y);
                }
            }
        }
    }
}

/// The names that are read from a list are in order and each there once; they are the texts of
/// the list.
pub proof fn law_names_in(items: Seq<Tree>)
    ensures
        in_order(names_in(items)),
        forall|y: Seq<char>| #[trigger]
            names_in(items).contains(y) <==> exists|i: int|
                0 <= i < items.len() && (#[trigger] items[i]).as_text() == Some(y),
    decreases items.len(),
{
    if items.len() > 0 {
        let front = items.drop_last();
        law_names_in(front);
        if let Some(s) = items.last().as_text() {
            law_with_name(names_in(front), s);
        }
        assert forall|y: Seq<char>| #[trigger] names_in(items).contains(y) <==> exists|i: int|
            0 <= i < items.len() && (#[trigger] items[i]).as_text() == Some(y) by {
            if names_in(items).contains(y) {
                if names_in(front).contains(y) {
                    let i = choose|i: int|
                        0 <= i < front.len() && (#[trigger] front[i]).as_text() == Some(y);
                    assert(items[i].as_text() == Some(y));
                } else {
                    assert(items[items.len() - 1].as_text() == Some(y));
                }
            }
            if exists|i: int| 0 <= i < items.len() && (#[trigger] items[i]).as_text() == Some(y) {
                let i = choose|i: int|
                    0 <= i < items.len() && (#[trigger] items[i]).as_text() == Some(y);
                if i < front.len() {
                    assert(front[i].as_text() == Some(y));
                    assert(names_in(front).contains(y));
                }
            }
        }
    }
}

/// Names in order that were written as a list are read as they are.
proof fn lemma_names_read_back(s: Seq<Seq<char>>)
    requires
        in_order(s),
    ensures
        names_in(name_items(s)) == s,
    decreases s.len(),
{
    if s.len() > 0 {
        lemma_front_in_order(s);
        lemma_names_read_back(s.drop_last());
        assert(name_items(s).drop_last() =~= name_items(s.drop_last()));
        assert(name_items(s).last() == Tree::Text(s.last()));
        if s.len() > 1 {
            assert(text_less(s[s.len() - 2], s[s.len() - 1]));
        }
        assert(s.drop_last().push(s.last()) =~= s);
    } else {
        assert(name_items(s) =~= Seq::<Tree>::empty());
        assert(names_in(name_items(s)) =~= s);
    }
}

/// A name that is there already is not put in again.
proof fn lemma_with_name_again(s: Seq<Seq<char>>, x: Seq<char>)
    requires
        in_order(s),
        s.contains(x),
    ensures
        with_name(s, x) == s,
    decreases s.len(),
{
    let k = choose|k: int| 0 <= k < s.len() && s[k] == x;
    let last = s.len() - 1;
    if k < last {
        assert(text_less(s[k], s[last]));
        law_text_less_total(x, s[last]);
        let front = s.drop_last();
        lemma_front_in_order(s);
        assert(front[k] == x);
        lemma_with_name_again(front, x);
        assert(front.push(s.last()) =~= s);
    } else {
        law_text_less_total(x, x);
    }
}

/// A name that is not there is not taken out.
proof fn lemma_without_name_again(s: Seq<Seq<char>>, x: Seq<char>)
    requires
        !s.contains(x),
    ensures
        without_name(s, x) == s,
    decreases s.len(),
{
    if s.len() > 0 {
        let front = s.drop_last();
        assert(s[s.len() - 1] != x);
        if front.contains(x) {
            let k = choose|k: int| 0 <= k < front.len() && front[k] == x;
            assert(s[k] == x);
        }
        lemma_without_name_again(front, x);
        assert(front.push(s.last()) =~= s);
    }
}

/// Exchanging the items of a list twice comes to the second time.
proof fn lemma_relisted_again(t: Tree, a: Seq<Tree>, b: Seq<Tree>)
    ensures
        relisted(relisted(t, a), b) == relisted(t, b),
    decreases t,
{
    match t {
        Tree::Tagged(_, t) => {
            lemma_relisted_again(*t, a, b);
        },
        _ => {},
    }
}

/// Exchanging the entries of a table twice comes to the second time.
proof fn lemma_retabled_again(t: Tree, a: Seq<(Tree, Tree)>, b: Seq<(Tree, Tree)>)
    ensures
        retabled(retabled(t, a), b) == retabled(t, b),
    decreases t,
{
    match t {
        Tree::Tagged(_, t) => {
            lemma_retabled_again(*t, a, b);
        },
        _ => {},
    }
}

/// Putting a value under a key twice comes to the same as once.
proof fn lemma_put_again(e: Seq<(Tree, Tree)>, k: Seq<char>, v: Tree)
    ensures
        put(put(e, k, v), k, v) == put(e, k, v),
{
    lemma_key_index(e, k);
    let p = put(e, k, v);
    lemma_key_index_is(p, k, key_index(e, k));
    assert(put(p, k, v) =~= p);
}

/// A skill that was switched off is switched off when the configuration is read again, one that
/// was switched on is not, and every other skill stays as it was. So does everything else in
/// the configuration and in its table `skills`. Switching the skill the same way once more
/// changes nothing.
pub proof fn law_toggle_read_back(
    cfg: Tree,
    name: Seq<char>,
    enabled: bool,
    other: Seq<char>,
    k: Seq<char>,
)
    requires
        toggled(cfg, name, enabled) is Ok,
        other != "skills"@,
        k != "disabled"@,
    ensures
        ({
            let after = toggled(cfg, name, enabled)->Ok_0;
            &&& disabled(after) == switched(disabled(cfg), name, enabled)
            &&& disabled(after).contains(name) == !enabled
            &&& forall|y: Seq<char>|
                y != name ==> #[trigger] disabled(after).contains(y) == disabled(cfg).contains(y)
            &&& after.member(other) == cfg.member(other)
            &&& section_member(after, "skills"@, k) == section_member(cfg, "skills"@, k)
            &&& toggled(after, name, enabled) == Ok::<Tree, Seq<char>>(after)
        }),
{
    let base = if cfg.as_table() is Some {
        cfg
    } else {
        Tree::Table(fields())
    };
    let e = base.as_table()->0;
    let skills = get_or(e, "skills"@, Tree::Table(fields()));
    let se = skills.as_table()->0;
    let list = get_or(se, "disabled"@, Tree::List(Seq::empty()));
    let items = list.as_list()->0;
    let names = switched(names_in(items), name, enabled);
    let new_list = relisted(list, name_items(names));
    let new_skills = retabled(skills, put(se, "disabled"@, new_list));
    let after = retabled(base, put(e, "skills"@, new_skills));
    assert(toggled(cfg, name, enabled)->Ok_0 == after);
    law_names_in(items);
    law_with_name(names_in(items), name);
    law_without_name(names_in(items), name);
    lemma_names_read_back(names);
    lemma_relisted(list, name_items(names));
    lemma_retabled(skills, put(se, "disabled"@, new_list));
    lemma_retabled(base, put(e, "skills"@, new_skills));
    law_put_get(e, "skills"@, new_skills);
    law_put_get(se, "disabled"@, new_list);
    law_put_keeps(e, "skills"@, new_skills, other);
    assert(names_in(Seq::empty()) =~= Seq::<Seq<char>>::empty());
    assert(get(fields(), "skills"@) is None);
    assert(get(fields(), "disabled"@) is None);
    assert(disabled(cfg) == names_in(items));
    assert(disabled(after) == names);
    law_put_keeps(se, "disabled"@, new_list, k);
    assert(get(fields(), k) is None);
    // The same once more.
    if enabled {
        lemma_without_name_again(names, name);
    } else {
        lemma_with_name_again(names, name);
    }
    lemma_relisted_again(list, name_items(names), name_items(names));
    lemma_put_again(se, "disabled"@, new_list);
    lemma_retabled_again(
        skills,
        put(se, "disabled"@, new_list),
        put(se, "disabled"@, new_list),
    );
    lemma_put_again(e, "skills"@, new_skills);
    lemma_retabled_again(base, put(e, "skills"@, new_skills), put(e, "skills"@, new_skills));
}

/// Of a skill that is listed, `enabled` is false exactly where its name is a text in the list
/// `skills.disabled` of the configuration, whatever its `SKILL.md` holds; its name is that of its
/// directory.
pub proof fn law_listed(cfg: Tree, d: SkillDir, list: Tree, items: Seq<Tree>)
    ensures
        ({
            let told = skill_facts(d, disabled(cfg));
            &&& told.name == d.name@
            &&& told.category == "user"@
            &&& section_member(cfg, "skills"@, "disabled"@) == Some(list) && list.as_list() == Some(
                items,
            ) ==> (told.enabled <==> forall|i: int|
                0 <= i < items.len() ==> (#[trigger] items[i]).as_text() != Some(d.name@))
            &&& !(section_member(cfg, "skills"@, "disabled"@) matches Some(l)
                && l.as_list() is Some) ==> told.enabled
        }),
{
    law_names_in(items);
    assert(!Seq::<Seq<char>>::empty().contains(d.name@));
}

/// A skill that was switched is listed as it was switched, whatever its `SKILL.md` holds, and
/// every other skill is listed as it was.
pub proof fn law_switched_skill_is_listed(cfg: Tree, name: Seq<char>, on: bool, d: SkillDir)
    requires
        toggled(cfg, name, on) is Ok,
    ensures
        ({
            let after = toggled(cfg, name, on)->Ok_0;
            let told = skill_facts(d, disabled(after));
            &&& d.name@ == name ==> told.enabled == on
            &&& d.name@ != name ==> told == skill_facts(d, disabled(cfg))
        }),
{
    reveal_strlit("skills");
    reveal_strlit("disabled");
    assert("skills"@.len() == 6 && "disabled"@.len() == 8);
    law_toggle_read_back(cfg, name, on, "disabled"@, "skills"@);
}

/// Switching a skill is refused exactly where `skills` is there and is no table, or its list
/// `disabled` is there and is no list.
pub proof fn law_switching_refused(cfg: Tree, name: Seq<char>, on: bool)
    ensures
        toggled(cfg, name, on) is Ok <==> {
            &&& cfg.member("skills"@) matches Some(s) ==> s.as_table() is Some
            &&& section_member(cfg, "skills"@, "disabled"@) matches Some(l) ==> l.as_list() is Some
        },
{
    assert(get(fields(), "skills"@) is None);
    assert(get(fields(), "disabled"@) is None);
}

/// A skill is described by the first line of its `SKILL.md`, without the marks of a heading and
/// the white space around it; where the file cannot be read, by its name.
pub proof fn law_description(
    name: Seq<char>,
    marks: Seq<char>,
    space: Seq<char>,
    title: Seq<char>,
    more: Seq<char>,
)
    requires
        forall|i: int| 0 <= i < marks.len() ==> #[trigger] marks[i] == '#',
        forall|i: int| 0 <= i < space.len() ==> #[trigger] space[i] == ' ',
        title.len() > 0,
        title[0] != '#' || space.len() > 0,
        !is_white_space(title[0]),
        !is_white_space(title.last()),
        !title.contains('\n'),
    ensures
        description(name, Some(marks + space + title)) == title,
        description(name, Some(marks + space + title + seq!['\n'] + more)) == title,
        description(name, None) == name,
{
    let l = marks + space + title;
    let none = Seq::<char>::empty();
    assert(!l.contains('\n')) by {
        if l.contains('\n') {
            let i = choose|i: int| 0 <= i < l.len() && l[i] == '\n';
            if i < marks.len() {
                assert(marks[i] == '#');
            } else if i < marks.len() + space.len() {
                assert(space[i - marks.len()] == ' ');
            } else {
                assert(title[i - marks.len() - space.len()] == '\n');
            }
        }
    }
    assert(is_white_space('\r'));
    assert(l.last() == title.last());
    law_lines(l, more);
    assert(lines(l)[0] == l);
    assert(lines(l + seq!['\n'] + more)[0] == l);
    let m = space + title;
    if space.len() > 0 {
        assert(m[0] == space[0]);
    } else {
        assert(m[0] == title[0]);
    }
    law_drop_leading(marks, m, '#');
    assert(l =~= marks + m);
    assert forall|i: int| 0 <= i < space.len() implies is_white_space(#[trigger] space[i]) by {
        assert(space[i] == ' ');
        assert(is_white_space(' '));
    }
    law_trim_takes_white_space(space, title, none);
    assert(space + title + none =~= m);
}

/// The request to switch a skill names it without the white space around it and says which way;
/// a blank name is refused.
pub proof fn law_switch_request(name: Seq<char>, on: bool)
    ensures
        switch_request(name, on) is Ok <==> trim(name).len() > 0,
        switch_request(name, on) matches Ok(t) ==> {
            &&& t.member("op"@) == Some(Tree::Text("toggle"@))
            &&& t.member("name"@) == Some(Tree::Text(trim(name)))
            &&& t.member("enabled"@) == Some(Tree::Bool(on))
        },
{
    if let Ok(t) = switch_request(name, on) {
        reveal_strlit("op");
        reveal_strlit("name");
        reveal_strlit("enabled");
        assert("op"@.len() == 2 && "name"@.len() == 4 && "enabled"@.len() == 7);
        let e = t->Table_0;
        lemma_key_index_is(e, "op"@, 0);
        lemma_key_index_is(e, "name"@, 1);
        lemma_key_index_is(e, "enabled"@, 2);
    }
}

/// What is told where a skill cannot be switched: which of the two is of the wrong kind.
pub proof fn law_switching_complaints(cfg: Tree, name: Seq<char>, on: bool, s: Tree)
    ensures
        cfg.member("skills"@) == Some(s) && s.as_table() is None ==> toggled(cfg, name, on)
            == Err::<Tree, Seq<char>>("skills moet een mapping zijn"@),
        section_member(cfg, "skills"@, "disabled"@) == Some(s) && s.as_list() is None ==> toggled(
            cfg,
            name,
            on,
        ) == Err::<Tree, Seq<char>>("skills.disabled moet een lijst zijn"@),
{
}

/// A skill whose `SKILL.md` starts with a blank line has an empty description, and one whose file
/// is empty is described by its name.
pub proof fn law_description_of_blank(name: Seq<char>, more: Seq<char>)
    requires
        name.len() > 0,
        name[0] != '#',
        trim(name) == name,
    ensures
        description(name, Some(seq!['\n'] + more)) == Seq::<char>::empty(),
        description(name, Some(Seq::empty())) == name,
{
    let none = Seq::<char>::empty();
    assert(!none.contains('\n'));
    law_lines(none, more);
    assert(none + seq!['\n'] + more =~= seq!['\n'] + more);
    assert((seq![none] + lines(more))[0] == none);
    assert(drop_leading(none, '#') == none);
    assert(trim(none) =~= none);
    assert(drop_leading(name, '#') == name);
}

/// What is told of a skill stands in the entry as it is.
pub proof fn law_skill_info(s: SkillInfo)
    ensures
        s@.name == s.name@,
        s@.description == s.description@,
        s@.category == s.category@,
        s@.enabled == s.enabled,
{
}

/// A skill whose `SKILL.md` starts with nothing but the marks of a heading has an empty
/// description.
pub proof fn law_description_of_marks(
    name: Seq<char>,
    marks: Seq<char>,
    space: Seq<char>,
    more: Seq<char>,
)
    requires
        forall|i: int| 0 <= i < marks.len() ==> #[trigger] marks[i] == '#',
        forall|i: int| 0 <= i < space.len() ==> #[trigger] space[i] == ' ',
        marks.len() + space.len() > 0,
    ensures
        description(name, Some(marks + space)) == Seq::<char>::empty(),
        description(name, Some(marks + space + seq!['\n'] + more)) == Seq::<char>::empty(),
{
    let none = Seq::<char>::empty();
    let l = marks + space;
    assert forall|i: int| 0 <= i < l.len() implies l[i] != '\n' && l[i] != '\r' by {
        if i < marks.len() {
            assert(l[i] == marks[i]);
        } else {
            assert(l[i] == space[i - marks.len()]);
        }
    }
    assert(!l.contains('\n'));
    law_lines(l, more);
    assert(l.last() != '\r');
    assert(seq![l][0] == l);
    assert((seq![l] + lines(more))[0] == l);
    if space.len() > 0 {
        assert(space[0] == ' ');
    }
    law_drop_leading(marks, space, '#');
    law_trim_takes_white_space(space, none, none);
    assert(space + none + none =~= space);
}

} // verus!
