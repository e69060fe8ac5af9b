//! Usage figures: what the skills were used for, and the reports on tokens, costs and
//! sessions that are made of the rows of the session database.
use vstd::prelude::*;
use vstd::string::*;

use crate::text::{trim, trimmed};
use crate::value::{
    entries, field, fields, int_number, integer, lemma_key_index_is, lemma_list_tree,
    lemma_table_tree, opt_ref, section_member, text, trees, Fields, Number, Tree, Value,
};

verus! {

broadcast use {lemma_list_tree, lemma_table_tree};

// ---------------------------------------------------------------------------
// Numbers and times
// ---------------------------------------------------------------------------

/// The period of a report where none is asked for, in days.
pub const DEFAULT_DAYS: u32 = 30;

/// The longest period of a report, in days.
pub const MAX_DAYS: u32 = 366;

/// The period of a report: thirty days where none is asked for, and never less than a day or
/// more than a leap year.
pub open spec fn period(days: Option<u32>) -> u32 {
    let d = match days {
        Some(n) => n,
        None => DEFAULT_DAYS,
    };
    if d < 1 {
        1
    } else if d > MAX_DAYS {
        MAX_DAYS
    } else {
        d
    }
}

/// The period of a report, in days.
pub fn analytics_days(days: Option<u32>) -> (r: u32)
    ensures
        r == period(days),
{
    let d: u32 = match days {
        Some(n) => n,
        None => DEFAULT_DAYS,
    };
    if d < 1 {
        1
    } else if d > MAX_DAYS {
        MAX_DAYS
    } else {
        d
    }
}

/// The bits of an IEEE 754 double are those of a finite number: not every bit of the exponent
/// is set.
pub open spec fn is_finite(bits: u64) -> bool {
    (bits as int / 0x10_0000_0000_0000) % 0x800 != 0x7ff
}

/// A floating-point number in a document: one that is not finite is null.
pub open spec fn float_tree(bits: u64) -> Tree {
    if is_finite(bits) {
        Tree::Number(Number::Float(bits))
    } else {
        Tree::Null
    }
}

/// A floating-point number as a value.
pub fn float(bits: u64) -> (r: Value)
    ensures
        r@ == float_tree(bits),
{
    if (bits / 0x10_0000_0000_0000) % 0x800 != 0x7ff {
        Value::Number(Number::Float(bits))
    } else {
        Value::Null
    }
}

/// What `DateTime::parse_from_rfc3339` gives for a text, in seconds since the start of 1970.
pub uninterp spec fn rfc3339_seconds(s: Seq<char>) -> Option<i64>;

/// `DateTime::parse_from_rfc3339`, and `DateTime::timestamp` of what it gives: the time that
/// the text says, in seconds since the start of 1970, or nothing where it is no such time.
/// Which texts are times, and what their seconds are, is left to the name.
#[verifier::external_body]
fn parse_rfc3339(s: &str) -> (r: Option<i64>)
    ensures
        r == rfc3339_seconds(s@),
{
    chrono::DateTime::parse_from_rfc3339(s).ok().map(|dt| dt.timestamp())
}

/// The time that a text says, with or without white space around it.
pub open spec fn usage_time(s: Seq<char>) -> Option<i64> {
    if trim(s).len() == 0 {
        None
    } else {
        rfc3339_seconds(trim(s))
    }
}

/// The time that a text says, in seconds since the start of 1970.
pub fn parse_usage_timestamp_iso(s: &str) -> (r: Option<i64>)
    ensures
        r == usage_time(s@),
{
    let s = trimmed(s);
    if s.unicode_len() == 0 {
        None
    } else {
        parse_rfc3339(s)
    }
}

// ---------------------------------------------------------------------------
// Skills
// ---------------------------------------------------------------------------

/// The most skills that a report lists.
pub const MAX_TOP_SKILLS: usize = 50;

/// A count of a usage record; zero where it has none.
pub open spec fn count_of(rec: Tree, k: Seq<char>) -> int {
    match rec.member(k) {
        Some(v) => match v.as_i64() {
            Some(n) => n as int,
            None => 0,
        },
        None => 0,
    }
}

/// How often a skill was viewed, used and edited, taken together.
pub open spec fn total_of(rec: Tree) -> int {
    count_of(rec, "view_count"@) + count_of(rec, "use_count"@) + count_of(rec, "patch_count"@)
}

/// The sum of a count over all records.
pub open spec fn sum_of(e: Seq<(Tree, Tree)>, k: Seq<char>) -> int
    decreases e.len(),
{
    if e.len() == 0 {
        0
    } else {
        sum_of(e.drop_last(), k) + count_of(e.last().1, k)
    }
}

/// The sum of the totals of all records.
pub open spec fn sum_of_totals(e: Seq<(Tree, Tree)>) -> int
    decreases e.len(),
{
    if e.len() == 0 {
        0
    } else {
        sum_of_totals(e.drop_last()) + total_of(e.last().1)
    }
}

/// The records of the skills that were used at all.
pub open spec fn used(e: Seq<(Tree, Tree)>) -> Seq<(Tree, Tree)>
    decreases e.len(),
{
    if e.len() == 0 {
        Seq::empty()
    } else if total_of(e.last().1) > 0 {
        used(e.drop_last()).push(e.last())
    } else {
        used(e.drop_last())
    }
}

/// The records with one more, behind all those with a total that is not smaller.
pub open spec fn ranked_in(e: Seq<(Tree, Tree)>, x: (Tree, Tree)) -> Seq<(Tree, Tree)>
    decreases e.len(),
{
    if e.len() == 0 || total_of(e.last().1) >= total_of(x.1) {
        e.push(x)
    } else {
        ranked_in(e.drop_last(), x).push(e.last())
    }
}

/// The records by their totals, the largest first; records with equal totals keep their order.
pub open spec fn ranked(e: Seq<(Tree, Tree)>) -> Seq<(Tree, Tree)>
    decreases e.len(),
{
    if e.len() == 0 {
        Seq::empty()
    } else {
        ranked_in(ranked(e.drop_last()), e.last())
    }
}

/// The first records, as many as a report lists.
pub open spec fn top(e: Seq<(Tree, Tree)>) -> Seq<(Tree, Tree)> {
    if e.len() > MAX_TOP_SKILLS {
        e.take(MAX_TOP_SKILLS as int)
    } else {
        e
    }
}

/// The skills that a report lists.
pub open spec fn top_skills(e: Seq<(Tree, Tree)>) -> Seq<(Tree, Tree)> {
    top(ranked(used(e)))
}

/// When a skill was used last.
pub open spec fn last_used(rec: Tree) -> Option<i64> {
    match rec.member_text("last_used_at"@) {
        Some(s) => usage_time(s),
        None => None,
    }
}

/// A skill in the report, with the time at which it was used last.
pub open spec fn skill_tree(name: Tree, rec: Tree, last: Option<i64>) -> Tree {
    Tree::Table(
        fields()
            .push(field("skill"@, name))
            .push(field("view_count"@, number(count_of(rec, "view_count"@))))
            .push(field("manage_count"@, number(count_of(rec, "patch_count"@))))
            .push(field("total_count"@, number(total_of(rec))))
            .push(field(
                "last_used_at"@,
                match last { Some(n) => Tree::Number(Number::WholeFloat(n)), None => Tree::Null, },
            )),
    )
}

/// An integer in a document.
pub open spec fn number(n: int) -> Tree {
    Tree::Number(int_number(n as i64))
}

/// The report on skills, of its sums and its list.
pub open spec fn skills_tree(
    loads: int,
    edits: int,
    actions: int,
    distinct: int,
    list: Seq<Tree>,
) -> Tree {
    Tree::Table(
        fields()
            .push(field(
                "summary"@,
                Tree::Table(
                    fields()
                        .push(field("total_skill_loads"@, number(loads)))
                        .push(field("total_skill_edits"@, number(edits)))
                        .push(field("total_skill_actions"@, number(actions)))
                        .push(field("distinct_skills_used"@, number(distinct))),
                ),
            ))
            .push(field("top_skills"@, Tree::List(list))),
    )
}

/// The report on the skills of a usage file. Its sums go over all records, but for that of the
/// actions, which goes over the skills that it lists.
pub open spec fn skills_report(usage: Option<Tree>) -> Tree {
    match usage {
        Some(t) => match t.as_table() {
            Some(e) => skills_tree(
                sum_of(e, "use_count"@),
                sum_of(e, "patch_count"@),
                sum_of_totals(top_skills(e)),
                used(e).len() as int,
                Seq::new(
                    top_skills(e).len(),
                    |i: int|
                        skill_tree(
                            top_skills(e)[i].0,
                            top_skills(e)[i].1,
                            last_used(top_skills(e)[i].1),
                        ),
                ),
            ),
            None => skills_tree(0, 0, 0, 0, Seq::empty()),
        },
        None => skills_tree(0, 0, 0, 0, Seq::empty()),
    }
}

/// The number is one of 64 bits with a sign.
pub open spec fn fits(n: int) -> bool {
    i64::MIN <= n <= i64::MAX
}

/// The counts of each record can be added up in 64 bits, and so can those of the records from
/// the first to any other.
pub open spec fn counts_fit(e: Seq<(Tree, Tree)>) -> bool
    decreases e.len(),
{
    e.len() == 0 || {
        &&& counts_fit(e.drop_last())
        &&& fits(sum_of(e, "use_count"@))
        &&& fits(sum_of(e, "patch_count"@))
        &&& fits(count_of(e.last().1, "view_count"@) + count_of(e.last().1, "use_count"@))
        &&& fits(total_of(e.last().1))
    }
}

/// The counts of a usage file can be added up in 64 bits, and so can the totals of the skills
/// that a report lists.
pub open spec fn usage_fits(usage: Option<Tree>) -> bool {
    match usage {
        Some(t) => match t.as_table() {
            Some(e) => counts_fit(e) && fits(sum_of_totals(top_skills(e))),
            None => true,
        },
        None => true,
    }
}

/// A count of a usage record.
fn read_count(rec: &Value, k: &str) -> (r: i64)
    ensures
        r == count_of(rec@, k@),
{
    match rec.member(k) {
        Some(v) => match v.as_i64() {
            Some(n) => n,
            None => 0,
        },
        None => 0,
    }
}

/// Putting the record in at its place.
proof fn lemma_ranked_in(e: Seq<(Tree, Tree)>, x: (Tree, Tree), p: int)
    requires
        0 <= p <= e.len(),
        p > 0 ==> total_of(e[p - 1].1) >= total_of(x.1),
        forall|i: int| p <= i < e.len() ==> total_of(#[trigger] e[i].1) < total_of(x.1),
    ensures
        ranked_in(e, x) == e.insert(p, x),
    decreases e.len(),
{
    if p == e.len() {
        assert(e.insert(p, x) =~= e.push(x));
    } else {
        let front = e.drop_last();
        assert(total_of(e[e.len() - 1].1) < total_of(x.1));
        lemma_ranked_in(front, x, p);
        assert(e.insert(p, x) =~= front.insert(p, x).push(e.last()));
    }
}

/// The records at some positions of a table.
spec fn at(e: Seq<(Tree, Tree)>, order: Seq<usize>) -> Seq<(Tree, Tree)> {
    Seq::new(order.len(), |i: int| e[order[i] as int])
}

/// The total of a record that fits.
fn read_total(rec: &Value) -> (r: i64)
    requires
        fits(count_of(rec@, "view_count"@) + count_of(rec@, "use_count"@)),
        fits(total_of(rec@)),
    ensures
        r == total_of(rec@),
{
    read_count(rec, "view_count") + read_count(rec, "use_count") + read_count(rec, "patch_count")
}

/// What holds of counts that fit holds of those of the first records.
proof fn lemma_counts_fit(e: Seq<(Tree, Tree)>, n: int)
    requires
        counts_fit(e),
        0 <= n <= e.len(),
    ensures
        counts_fit(e.take(n)),
    decreases e.len(),
{
    if n < e.len() {
        lemma_counts_fit(e.drop_last(), n);
        assert(e.drop_last().take(n) =~= e.take(n));
    } else {
        assert(e.take(n) =~= e);
    }
}

/// Every record that fits has a total that fits.
proof fn lemma_total_fits(e: Seq<(Tree, Tree)>, n: int)
    requires
        counts_fit(e),
        0 <= n < e.len(),
    ensures
        fits(count_of(e[n].1, "view_count"@) + count_of(e[n].1, "use_count"@)),
        fits(total_of(e[n].1)),
{
    lemma_counts_fit(e, n + 1);
    assert(e.take(n + 1).last() == e[n]);
}

/// Every total is positive.
spec fn all_used(e: Seq<(Tree, Tree)>) -> bool {
    forall|i: int| 0 <= i < e.len() ==> total_of(#[trigger] e[i].1) > 0
}

/// The records of used skills have positive totals, and so have they when they are ranked.
proof fn lemma_all_used(e: Seq<(Tree, Tree)>)
    ensures
        all_used(used(e)),
    decreases e.len(),
{
    if e.len() > 0 {
        lemma_all_used(e.drop_last());
    }
}

proof fn lemma_all_ranked_in(e: Seq<(Tree, Tree)>, x: (Tree, Tree))
    requires
        all_used(e),
        total_of(x.1) > 0,
    ensures
        all_used(ranked_in(e, x)),
    decreases e.len(),
{
    if !(e.len() == 0 || total_of(e.last().1) >= total_of(x.1)) {
        assert(all_used(e.drop_last())) by {
            assert forall|i: int| 0 <= i < e.drop_last().len() implies total_of(
                #[trigger] e.drop_last()[i].1,
            ) > 0 by {
                assert(e.drop_last()[i] == e[i]);
            }
        }
        assert(total_of(e[e.len() - 1].1) > 0);
        lemma_all_ranked_in(e.drop_last(), x);
    }
}

proof fn lemma_all_ranked(e: Seq<(Tree, Tree)>)
    requires
        all_used(e),
    ensures
        all_used(ranked(e)),
    decreases e.len(),
{
    if e.len() > 0 {
        assert(all_used(e.drop_last())) by {
            assert forall|i: int| 0 <= i < e.drop_last().len() implies total_of(
                #[trigger] e.drop_last()[i].1,
            ) > 0 by {
                assert(e.drop_last()[i] == e[i]);
            }
        }
        lemma_all_ranked(e.drop_last());
        assert(total_of(e[e.len() - 1].1) > 0);
        lemma_all_ranked_in(ranked(e.drop_last()), e.last());
    }
}

/// The sum over the first of records with positive totals is not larger than that over all.
proof fn lemma_sum_of_first(e: Seq<(Tree, Tree)>, n: int)
    requires
        all_used(e),
        0 <= n <= e.len(),
    ensures
        0 <= sum_of_totals(e.take(n)) <= sum_of_totals(e),
    decreases e.len(),
{
    if n < e.len() {
        let front = e.drop_last();
        assert(all_used(front)) by {
            assert forall|i: int| 0 <= i < front.len() implies total_of(#[trigger] front[i].1)
                > 0 by {
                assert(front[i] == e[i]);
            }
        }
        lemma_sum_of_first(front, n);
        assert(front.take(n) =~= e.take(n));
        assert(total_of(e[e.len() - 1].1) > 0);
    } else {
        assert(e.take(n) =~= e);
        if n > 0 {
            let front = e.drop_last();
            assert(all_used(front)) by {
                assert forall|i: int| 0 <= i < front.len() implies total_of(
                    #[trigger] front[i].1,
                ) > 0 by {
                    assert(front[i] == e[i]);
                }
            }
            lemma_sum_of_first(front, n - 1);
            assert(front.take(n - 1) =~= front);
            assert(total_of(e[e.len() - 1].1) > 0);
        }
    }
}

/// A skill in the report.
pub fn skill_row(name: &Value, rec: &Value, last: Option<i64>) -> (r: Value)
    requires
        fits(count_of(rec@, "view_count"@) + count_of(rec@, "use_count"@)),
        fits(total_of(rec@)),
    ensures
        r@ == skill_tree(name@, rec@, last),
{
    let last_value = match last {
        Some(n) => Value::Number(Number::WholeFloat(n)),
        None => Value::Null,
    };
    Fields::new()
        .with("skill", name.copy())
        .with("view_count", integer(read_count(rec, "view_count")))
        .with("manage_count", integer(read_count(rec, "patch_count")))
        .with("total_count", integer(read_total(rec)))
        .with("last_used_at", last_value)
        .table()
}

/// The report on skills, of its sums and its list.
fn skills_value(loads: i64, edits: i64, actions: i64, distinct: i64, list: Vec<Value>) -> (r: Value)
    ensures
        r@ == skills_tree(
            loads as int,
            edits as int,
            actions as int,
            distinct as int,
            trees(list@),
        ),
{
    Fields::new()
        .with(
            "summary",
            Fields::new()
                .with("total_skill_loads", integer(loads))
                .with("total_skill_edits", integer(edits))
                .with("total_skill_actions", integer(actions))
                .with("distinct_skills_used", integer(distinct))
                .table(),
        )
        .with("top_skills", Value::List(list))
        .table()
}

/// The report on skills where nothing is known of them.
pub fn empty_skills_json() -> (r: Value)
    ensures
        r@ == skills_tree(0, 0, 0, 0, Seq::empty()),
{
    let list: Vec<Value> = Vec::new();
    assert(trees(list@) =~= Seq::<Tree>::empty());
    skills_value(0, 0, 0, 0, list)
}

/// When a skill was used last.
fn last_used_of(rec: &Value) -> (r: Option<i64>)
    ensures
        r == last_used(rec@),
{
    match rec.member_text("last_used_at") {
        Some(s) => parse_usage_timestamp_iso(s),
        None => None,
    }
}

/// The positions of the records of used skills, by their totals.
fn ranking(e: &Vec<(Value, Value)>) -> (r: Vec<usize>)
    requires
        counts_fit(entries(e@)),
    ensures
        forall|i: int| 0 <= i < r@.len() ==> (#[trigger] r@[i]) < e@.len(),
        at(entries(e@), r@) == ranked(used(entries(e@))),
{
    let ghost all = entries(e@);
    let mut order: Vec<usize> = Vec::new();
    let mut totals: Vec<i64> = Vec::new();
    let mut i: usize = 0;
    assert(at(all, order@) =~= ranked(used(all.take(0)))) by {
        assert(all.take(0) =~= fields());
        assert(used(fields()) =~= fields());
    }
    while i < e.len()
        invariant
            i <= e@.len(),
            all == entries(e@),
            counts_fit(all),
            forall|j: int| 0 <= j < order@.len() ==> (#[trigger] order@[j]) < i,
            at(all, order@) == ranked(used(all.take(i as int))),
            totals@.len() == order@.len(),
            forall|j: int|
                0 <= j < totals@.len() ==> (#[trigger] totals@[j]) == total_of(
                    at(all, order@)[j].1,
                ),
        decreases e@.len() - i,
    {
        proof {
            lemma_total_fits(all, i as int);
            assert(all.take(i + 1).drop_last() =~= all.take(i as int));
            assert(all.take(i + 1).last() == all[i as int]);
        }
        let total: i64 = read_total(&e[i].1);
        if total > 0 {
            let ghost before = at(all, order@);
            let mut p: usize = totals.len();
            while p > 0 && totals[p - 1] < total
                invariant
                    p <= totals@.len(),
                    totals@.len() == before.len(),
                    forall|j: int|
                        0 <= j < totals@.len() ==> (#[trigger] totals@[j]) == total_of(
                            before[j].1,
                        ),
                    forall|j: int|
                        p <= j < before.len() ==> total_of(#[trigger] before[j].1) < total,
                decreases p,
            {
                p = p - 1;
            }
            proof {
                lemma_ranked_in(before, all[i as int], p as int);
                let u = used(all.take(i as int));
                assert(u.push(all[i as int]).drop_last() =~= u);
            }
            order.insert(p, i);
            totals.insert(p, total);
            assert(at(all, order@) =~= before.insert(p as int, all[i as int]));
        }
        i = i + 1;
    }
    assert(all.take(i as int) =~= all);
    order
}

/// The report on the skills of a usage file, from what the file holds; nothing where it cannot
/// be read.
pub fn skills_analytics_from_usage_sidecar(usage: Option<&Value>) -> (r: Value)
    requires
        usage_fits(opt_ref(usage)),
    ensures
        r@ == skills_report(opt_ref(usage)),
{
    let e = match usage {
        Some(v) => match v.as_table() {
            Some(e) => e,
            None => {
                return empty_skills_json();
            },
        },
        None => {
            return empty_skills_json();
        },
    };
    let ghost all = entries(e@);
    let mut loads: i64 = 0;
    let mut edits: i64 = 0;
    let mut i: usize = 0;
    assert(all.take(0) =~= fields());
    while i < e.len()
        invariant
            i <= e@.len(),
            all == entries(e@),
            counts_fit(all),
            loads == sum_of(all.take(i as int), "use_count"@),
            edits == sum_of(all.take(i as int), "patch_count"@),
        decreases e@.len() - i,
    {
        proof {
            lemma_counts_fit(all, i + 1);
            assert(all.take(i + 1).drop_last() =~= all.take(i as int));
            assert(all.take(i + 1).last() == all[i as int]);
        }
        loads = loads + read_count(&e[i].1, "use_count");
        edits = edits + read_count(&e[i].1, "patch_count");
        i = i + 1;
    }
    assert(all.take(i as int) =~= all);
    let order = ranking(e);
    let ghost list = ranked(used(all));
    proof {
        lemma_all_used(all);
        lemma_all_ranked(used(all));
        lemma_len_ranked(used(all));
        assert(at(all, order@).len() == order@.len());
    }
    let n: usize = if order.len() > MAX_TOP_SKILLS {
        MAX_TOP_SKILLS
    } else {
        order.len()
    };
    let ghost first = list.take(n as int);
    assert(first =~= top(list));
    assert(all_used(first)) by {
        assert forall|j: int| 0 <= j < first.len() implies total_of(#[trigger] first[j].1) > 0 by {
            assert(first[j] == list[j]);
        }
    }
    let mut rows: Vec<Value> = Vec::new();
    let mut actions: i64 = 0;
    let mut k: usize = 0;
    assert(list.take(0) =~= fields());
    while k < n
        invariant
            k <= n <= order@.len(),
            all == entries(e@),
            counts_fit(all),
            list == ranked(used(all)),
            list == at(all, order@),
            all_used(first),
            fits(sum_of_totals(first)),
            first == list.take(n as int),
            forall|j: int| 0 <= j < order@.len() ==> (#[trigger] order@[j]) < e@.len(),
            rows@.len() == k,
            forall|j: int|
                0 <= j < k ==> (#[trigger] rows@[j])@ == skill_tree(
                    list[j].0,
                    list[j].1,
                    last_used(list[j].1),
                ),
            actions == sum_of_totals(list.take(k as int)),
        decreases n - k,
    {
        let at_k: usize = order[k];
        proof {
            assert(list[k as int] == all[at_k as int]);
            lemma_total_fits(all, at_k as int);
            lemma_sum_of_first(first, k + 1);
            assert(first.take(k + 1) =~= list.take(k + 1));
            assert(list.take(k + 1).drop_last() =~= list.take(k as int));
            assert(list.take(k + 1).last() == list[k as int]);
        }
        actions = actions + read_total(&e[at_k].1);
        let last = last_used_of(&e[at_k].1);
        rows.push(skill_row(&e[at_k].0, &e[at_k].1, last));
        k = k + 1;
    }
    assert(trees(rows@) =~= Seq::new(
        top_skills(all).len(),
        |j: int|
            skill_tree(top_skills(all)[j].0, top_skills(all)[j].1, last_used(top_skills(all)[j].1)),
    ));
    proof {
        lemma_len_used(all);
    }
    skills_value(loads, edits, actions, order.len() as i64, rows)
}

/// Ranking keeps the number of records.
proof fn lemma_len_ranked(e: Seq<(Tree, Tree)>)
    ensures
        ranked(e).len() == e.len(),
    decreases e.len(),
{
    if e.len() > 0 {
        lemma_len_ranked(e.drop_last());
        lemma_len_ranked_in(ranked(e.drop_last()), e.last());
    }
}

proof fn lemma_len_ranked_in(e: Seq<(Tree, Tree)>, x: (Tree, Tree))
    ensures
        ranked_in(e, x).len() == e.len() + 1,
    decreases e.len(),
{
    if !(e.len() == 0 || total_of(e.last().1) >= total_of(x.1)) {
        lemma_len_ranked_in(e.drop_last(), x);
    }
}

proof fn lemma_len_used(e: Seq<(Tree, Tree)>)
    ensures
        used(e).len() <= e.len(),
    decreases e.len(),
{
    if e.len() > 0 {
        lemma_len_used(e.drop_last());
    }
}

/// Whether the counts of a usage file can be added up in 64 bits.
pub fn usage_counts_fit(usage: Option<&Value>) -> (r: bool)
    ensures
        r == usage_fits(opt_ref(usage)),
{
    let e = match usage {
        Some(v) => match v.as_table() {
            Some(e) => e,
            None => {
                return true;
            },
        },
        None => {
            return true;
        },
    };
    let ghost all = entries(e@);
    let low: i128 = i64::MIN as i128;
    let high: i128 = i64::MAX as i128;
    let mut loads: i128 = 0;
    let mut edits: i128 = 0;
    let mut i: usize = 0;
    assert(all.take(0) =~= fields());
    while i < e.len()
        invariant
            i <= e@.len(),
            low == i64::MIN,
            high == i64::MAX,
            all == entries(e@),
            usage_fits(opt_ref(usage)) ==> counts_fit(all),
            counts_fit(all.take(i as int)),
            low <= loads <= high,
            low <= edits <= high,
            loads == sum_of(all.take(i as int), "use_count"@),
            edits == sum_of(all.take(i as int), "patch_count"@),
        decreases e@.len() - i,
    {
        let ghost next = all.take(i + 1);
        proof {
            assert(next.drop_last() =~= all.take(i as int));
            assert(next.last() == all[i as int]);
            if counts_fit(all) {
                lemma_counts_fit(all, i + 1);
            }
        }
        let uses: i128 = read_count(&e[i].1, "use_count") as i128;
        let views: i128 = read_count(&e[i].1, "view_count") as i128;
        let patches: i128 = read_count(&e[i].1, "patch_count") as i128;
        loads = loads + uses;
        edits = edits + patches;
        let total: i128 = views + uses + patches;
        if views + uses < low || views + uses > high || total < low || total > high {
            return false;
        }
        if loads < low || loads > high || edits < low || edits > high {
            return false;
        }
        i = i + 1;
    }
    assert(all.take(i as int) =~= all);
    let order = ranking(e);
    let ghost list = ranked(used(all));
    let n: usize = if order.len() > MAX_TOP_SKILLS {
        MAX_TOP_SKILLS
    } else {
        order.len()
    };
    let mut actions: i128 = 0;
    let mut k: usize = 0;
    assert(list.take(0) =~= fields());
    while k < n
        invariant
            k <= n <= order@.len(),
            n <= MAX_TOP_SKILLS,
            all == entries(e@),
            counts_fit(all),
            list == at(all, order@),
            forall|j: int| 0 <= j < order@.len() ==> (#[trigger] order@[j]) < e@.len(),
            actions == sum_of_totals(list.take(k as int)),
            k * i64::MIN <= actions <= k * i64::MAX,
        decreases n - k,
    {
        let at_k: usize = order[k];
        proof {
            assert(list[k as int] == all[at_k as int]);
            lemma_total_fits(all, at_k as int);
            assert(list.take(k + 1).drop_last() =~= list.take(k as int));
            assert(list.take(k + 1).last() == list[k as int]);
        }
        actions = actions + read_total(&e[at_k].1) as i128;
        k = k + 1;
    }
    assert(list.take(n as int) =~= top(list));
    low <= actions && actions <= high
}

/// The record stands behind no smaller one.
spec fn falls(e: Seq<(Tree, Tree)>) -> bool {
    forall|i: int, j: int|
        0 <= i < j < e.len() ==> total_of(#[trigger] e[i].1) >= total_of(#[trigger] e[j].1)
}

/// Putting a record in keeps the order by totals, the record count and the order of equals.
proof fn lemma_ranked_in_order(e: Seq<(Tree, Tree)>, x: (Tree, Tree))
    requires
        falls(e),
    ensures
        falls(ranked_in(e, x)),
        ranked_in(e, x).to_multiset() == e.to_multiset().insert(x),
        forall|t: int|
            #![trigger with_total(ranked_in(e, x), t)]
            with_total(ranked_in(e, x), t) == with_total(e.push(x), t),
        forall|i: int|
            0 <= i < ranked_in(e, x).len() ==> (#[trigger] ranked_in(e, x)[i]) == x
                || e.contains(ranked_in(e, x)[i]),
    decreases e.len(),
{
    broadcast use vstd::seq_lib::group_to_multiset_ensures;

    if e.len() == 0 || total_of(e.last().1) >= total_of(x.1) {
        let r = e.push(x);
        assert forall|i: int, j: int| 0 <= i < j < r.len() implies total_of(#[trigger] r[i].1)
            >= total_of(#[trigger] r[j].1) by {
            if j == e.len() {
                if i < e.len() - 1 {
                    assert(total_of(e[i].1) >= total_of(e[e.len() - 1].1));
                }
            }
        }
        assert forall|i: int| 0 <= i < r.len() implies (#[trigger] r[i]) == x || e.contains(
            r[i],
        ) by {
            if i < e.len() {
                assert(r[i] == e[i]);
            }
        }
    } else {
        let front = e.drop_last();
        let y = e.last();
        assert(falls(front)) by {
            assert forall|i: int, j: int| 0 <= i < j < front.len() implies total_of(
                #[trigger] front[i].1,
            ) >= total_of(#[trigger] front[j].1) by {
                assert(total_of(e[i].1) >= total_of(e[j].1));
            }
        }
        lemma_ranked_in_order(front, x);
        let inner = ranked_in(front, x);
        let r = inner.push(y);
        assert forall|i: int| 0 <= i < r.len() implies (#[trigger] r[i]) == x || e.contains(
            r[i],
        ) by {
            if i < inner.len() {
                assert(inner[i] == x || front.contains(inner[i]));
                if inner[i] != x {
                    let k = choose|k: int| 0 <= k < front.len() && front[k] == inner[i];
                    assert(e[k] == r[i]);
                }
            } else {
                assert(e[e.len() - 1] == r[i]);
            }
        }
        assert forall|i: int, j: int| 0 <= i < j < r.len() implies total_of(#[trigger] r[i].1)
            >= total_of(#[trigger] r[j].1) by {
            if j == inner.len() {
                assert(inner[i] == x || front.contains(inner[i]));
                if inner[i] != x {
                    let k = choose|k: int| 0 <= k < front.len() && front[k] == inner[i];
                    assert(total_of(e[k].1) >= total_of(e[e.len() - 1].1));
                }
            } else {
                assert(r[i] == inner[i] && r[j] == inner[j]);
                assert(total_of(inner[i].1) >= total_of(inner[j].1));
            }
        }
        assert(front.push(y) =~= e);
        assert(r.to_multiset() =~= e.to_multiset().insert(x));
        assert forall|t: int|
            #![trigger with_total(r, t)]
            with_total(r, t) == with_total(e.push(x), t) by {
            reveal_with_fuel(with_total, 3);
            assert(with_total(inner, t) == with_total(front.push(x), t));
            assert(r.drop_last() =~= inner);
            assert(front.push(x).drop_last() =~= front);
            assert(e.push(x).drop_last() =~= e);
        }
    }
}

/// The records with a total of `t`, in their order.
pub open spec fn with_total(e: Seq<(Tree, Tree)>, t: int) -> Seq<(Tree, Tree)>
    decreases e.len(),
{
    if e.len() == 0 {
        Seq::empty()
    } else if total_of(e.last().1) == t {
        with_total(e.drop_last(), t).push(e.last())
    } else {
        with_total(e.drop_last(), t)
    }
}

/// Ranking puts the larger totals first, neither loses nor adds a record, and leaves records
/// with equal totals in their order.
pub proof fn law_ranked(e: Seq<(Tree, Tree)>)
    ensures
        forall|i: int, j: int|
            0 <= i < j < ranked(e).len() ==> total_of(#[trigger] ranked(e)[i].1) >= total_of(
                #[trigger] ranked(e)[j].1,
            ),
        ranked(e).to_multiset() == e.to_multiset(),
        forall|t: int| #[trigger] with_total(ranked(e), t) == with_total(e, t),
    decreases e.len(),
{
    broadcast use vstd::seq_lib::group_to_multiset_ensures;

    if e.len() > 0 {
        let front = e.drop_last();
        law_ranked(front);
        lemma_ranked_in_order(ranked(front), e.last());
        assert(front.push(e.last()) =~= e);
        let r = ranked(e);
        assert forall|t: int| #[trigger] with_total(r, t) == with_total(e, t) by {
            let s = ranked(front).push(e.last());
            assert(with_total(ranked_in(ranked(front), e.last()), t) == with_total(s, t));
            assert(s.drop_last() =~= ranked(front));
            assert(with_total(ranked(front), t) == with_total(front, t));
        }
    } else {
        assert(ranked(e) =~= e);
    }
}

// ---------------------------------------------------------------------------
// Reports on the session database
// ---------------------------------------------------------------------------

/// What the sessions of a day used. Tokens, costs and calls are sums of floating-point
/// numbers, by their bits.
pub struct DailyUsage {
    pub day: String,
    pub input_tokens: u64,
    pub output_tokens: u64,
    pub cache_read_tokens: u64,
    pub reasoning_tokens: u64,
    pub estimated_cost: u64,
    pub actual_cost: u64,
    pub sessions: i64,
    pub api_calls: u64,
}

/// What the sessions with a model used.
pub struct ModelUsage {
    pub model: String,
    pub input_tokens: u64,
    pub output_tokens: u64,
    pub estimated_cost: u64,
    pub sessions: i64,
    pub api_calls: u64,
}

/// What all sessions used.
pub struct UsageTotals {
    pub input: u64,
    pub output: u64,
    pub cache_read: u64,
    pub reasoning: u64,
    pub estimated_cost: u64,
    pub actual_cost: u64,
    pub sessions: i64,
    pub api_calls: u64,
}

/// What the session database holds for a report.
pub struct Usage {
    pub daily: Vec<DailyUsage>,
    pub by_model: Vec<ModelUsage>,
    pub totals: UsageTotals,
}

/// What the sessions with a model and a provider used.
pub struct ProviderUsage {
    pub model: String,
    pub provider: Option<String>,
    pub input_tokens: u64,
    pub output_tokens: u64,
    pub cache_read_tokens: u64,
    pub reasoning_tokens: u64,
    pub estimated_cost: u64,
    pub actual_cost: u64,
    pub sessions: i64,
    pub api_calls: u64,
    pub tool_calls: u64,
    pub last_used_at: u64,
    pub avg_tokens_per_session: u64,
}

/// What the session database holds for a report on models.
pub struct ModelsUsage {
    pub models: Vec<ProviderUsage>,
    pub distinct_models: i64,
    pub totals: UsageTotals,
}

/// A day in a report.
pub open spec fn daily_tree(d: DailyUsage) -> Tree {
    Tree::Table(
        fields()
            .push(field("day"@, Tree::Text(d.day@)))
            .push(field("input_tokens"@, float_tree(d.input_tokens)))
            .push(field("output_tokens"@, float_tree(d.output_tokens)))
            .push(field("cache_read_tokens"@, float_tree(d.cache_read_tokens)))
            .push(field("reasoning_tokens"@, float_tree(d.reasoning_tokens)))
            .push(field("estimated_cost"@, float_tree(d.estimated_cost)))
            .push(field("actual_cost"@, float_tree(d.actual_cost)))
            .push(field("sessions"@, number(d.sessions as int)))
            .push(field("api_calls"@, float_tree(d.api_calls))),
    )
}

/// A day in a report.
fn daily_row(d: &DailyUsage) -> (r: Value)
    ensures
        r@ == daily_tree(*d),
{
    Fields::new()
        .with("day", text(d.day.as_str()))
        .with("input_tokens", float(d.input_tokens))
        .with("output_tokens", float(d.output_tokens))
        .with("cache_read_tokens", float(d.cache_read_tokens))
        .with("reasoning_tokens", float(d.reasoning_tokens))
        .with("estimated_cost", float(d.estimated_cost))
        .with("actual_cost", float(d.actual_cost))
        .with("sessions", integer(d.sessions))
        .with("api_calls", float(d.api_calls))
        .table()
}

/// A model in a report.
pub open spec fn model_tree(m: ModelUsage) -> Tree {
    Tree::Table(
        fields()
            .push(field("model"@, Tree::Text(m.model@)))
            .push(field("input_tokens"@, float_tree(m.input_tokens)))
            .push(field("output_tokens"@, float_tree(m.output_tokens)))
            .push(field("estimated_cost"@, float_tree(m.estimated_cost)))
            .push(field("sessions"@, number(m.sessions as int)))
            .push(field("api_calls"@, float_tree(m.api_calls))),
    )
}

/// A model in a report.
fn model_row(m: &ModelUsage) -> (r: Value)
    ensures
        r@ == model_tree(*m),
{
    Fields::new()
        .with("model", text(m.model.as_str()))
        .with("input_tokens", float(m.input_tokens))
        .with("output_tokens", float(m.output_tokens))
        .with("estimated_cost", float(m.estimated_cost))
        .with("sessions", integer(m.sessions))
        .with("api_calls", float(m.api_calls))
        .table()
}

/// A model with its provider in a report; a provider that is not known is an empty text.
pub open spec fn provider_tree(m: ProviderUsage) -> Tree {
    Tree::Table(
        fields()
            .push(field("model"@, Tree::Text(m.model@)))
            .push(field(
                "provider"@,
                match m.provider { Some(p) => Tree::Text(p@), None => Tree::Text(""@), },
            ))
            .push(field("input_tokens"@, float_tree(m.input_tokens)))
            .push(field("output_tokens"@, float_tree(m.output_tokens)))
            .push(field("cache_read_tokens"@, float_tree(m.cache_read_tokens)))
            .push(field("reasoning_tokens"@, float_tree(m.reasoning_tokens)))
            .push(field("estimated_cost"@, float_tree(m.estimated_cost)))
            .push(field("actual_cost"@, float_tree(m.actual_cost)))
            .push(field("sessions"@, number(m.sessions as int)))
            .push(field("api_calls"@, float_tree(m.api_calls)))
            .push(field("tool_calls"@, float_tree(m.tool_calls)))
            .push(field("last_used_at"@, float_tree(m.last_used_at)))
            .push(field("avg_tokens_per_session"@, float_tree(m.avg_tokens_per_session)))
            .push(field("capabilities"@, Tree::Table(fields()))),
    )
}

/// A model with its provider in a report.
fn provider_row(m: &ProviderUsage) -> (r: Value)
    ensures
        r@ == provider_tree(*m),
{
    let provider = match &m.provider {
        Some(p) => text(p.as_str()),
        None => text(""),
    };
    Fields::new()
        .with("model", text(m.model.as_str()))
        .with("provider", provider)
        .with("input_tokens", float(m.input_tokens))
        .with("output_tokens", float(m.output_tokens))
        .with("cache_read_tokens", float(m.cache_read_tokens))
        .with("reasoning_tokens", float(m.reasoning_tokens))
        .with("estimated_cost", float(m.estimated_cost))
        .with("actual_cost", float(m.actual_cost))
        .with("sessions", integer(m.sessions))
        .with("api_calls", float(m.api_calls))
        .with("tool_calls", float(m.tool_calls))
        .with("last_used_at", float(m.last_used_at))
        .with("avg_tokens_per_session", float(m.avg_tokens_per_session))
        .with("capabilities", Fields::new().table())
        .table()
}

/// The totals of a report behind other entries; where there is no database every one is the
/// integer zero.
pub open spec fn totals_tree(before: Seq<(Tree, Tree)>, totals: Option<UsageTotals>) -> Tree {
    let zero = number(0);
    Tree::Table(
        match totals {
            Some(t) => before
                .push(field("total_input"@, float_tree(t.input)))
                .push(field("total_output"@, float_tree(t.output)))
                .push(field("total_cache_read"@, float_tree(t.cache_read)))
                .push(field("total_reasoning"@, float_tree(t.reasoning)))
                .push(field("total_estimated_cost"@, float_tree(t.estimated_cost)))
                .push(field("total_actual_cost"@, float_tree(t.actual_cost)))
                .push(field("total_sessions"@, number(t.sessions as int)))
                .push(field("total_api_calls"@, float_tree(t.api_calls))),
            None => before
                .push(field("total_input"@, zero))
                .push(field("total_output"@, zero))
                .push(field("total_cache_read"@, zero))
                .push(field("total_reasoning"@, zero))
                .push(field("total_estimated_cost"@, zero))
                .push(field("total_actual_cost"@, zero))
                .push(field("total_sessions"@, zero))
                .push(field("total_api_calls"@, zero)),
        },
    )
}

/// The totals of a report behind other entries.
fn totals_value(before: Fields, totals: Option<&UsageTotals>) -> (r: Value)
    ensures
        r@ == totals_tree(
            before@,
            match totals {
                Some(t) => Some(*t),
                None => None,
            },
        ),
{
    match totals {
        Some(t) => before
            .with("total_input", float(t.input))
            .with("total_output", float(t.output))
            .with("total_cache_read", float(t.cache_read))
            .with("total_reasoning", float(t.reasoning))
            .with("total_estimated_cost", float(t.estimated_cost))
            .with("total_actual_cost", float(t.actual_cost))
            .with("total_sessions", integer(t.sessions))
            .with("total_api_calls", float(t.api_calls))
            .table(),
        None => before
            .with("total_input", integer(0))
            .with("total_output", integer(0))
            .with("total_cache_read", integer(0))
            .with("total_reasoning", integer(0))
            .with("total_estimated_cost", integer(0))
            .with("total_actual_cost", integer(0))
            .with("total_sessions", integer(0))
            .with("total_api_calls", integer(0))
            .table(),
    }
}

/// The report on usage: by day, by model and in all, with the period and the skills. Without
/// a database the lists are empty.
pub open spec fn usage_report(days: Option<u32>, found: Option<Usage>, skills: Tree) -> Tree {
    let (daily, by_model, totals) = match found {
        Some(u) => (
            Seq::new(u.daily@.len(), |i: int| daily_tree(u.daily@[i])),
            Seq::new(u.by_model@.len(), |i: int| model_tree(u.by_model@[i])),
            Some(u.totals),
        ),
        None => (Seq::empty(), Seq::empty(), None),
    };
    Tree::Table(
        fields()
            .push(field("daily"@, Tree::List(daily)))
            .push(field("by_model"@, Tree::List(by_model)))
            .push(field("totals"@, totals_tree(fields(), totals)))
            .push(field("period_days"@, number(period(days) as int)))
            .push(field("skills"@, skills)),
    )
}

/// The report on usage, from the rows of the session database where there is one.
pub fn get_analytics(days: Option<u32>, found: Option<&Usage>, skills: Value) -> (r: Value)
    ensures
        r@ == usage_report(
            days,
            match found {
                Some(u) => Some(*u),
                None => None,
            },
            skills@,
        ),
{
    let mut daily: Vec<Value> = Vec::new();
    let mut by_model: Vec<Value> = Vec::new();
    let mut totals: Option<&UsageTotals> = None;
    match found {
        Some(u) => {
            let mut i: usize = 0;
            while i < u.daily.len()
                invariant
                    i <= u.daily@.len(),
                    daily@.len() == i,
                    forall|j: int|
                        0 <= j < i ==> (#[trigger] daily@[j])@ == daily_tree(u.daily@[j]),
                decreases u.daily@.len() - i,
            {
                daily.push(daily_row(&u.daily[i]));
                i = i + 1;
            }
            let mut k: usize = 0;
            while k < u.by_model.len()
                invariant
                    k <= u.by_model@.len(),
                    by_model@.len() == k,
                    forall|j: int|
                        0 <= j < k ==> (#[trigger] by_model@[j])@ == model_tree(u.by_model@[j]),
                decreases u.by_model@.len() - k,
            {
                by_model.push(model_row(&u.by_model[k]));
                k = k + 1;
            }
            totals = Some(&u.totals);
            assert(trees(daily@) =~= Seq::new(u.daily@.len(), |i: int| daily_tree(u.daily@[i])));
            assert(trees(by_model@) =~= Seq::new(
                u.by_model@.len(),
                |i: int| model_tree(u.by_model@[i]),
            ));
        },
        None => {
            assert(trees(daily@) =~= Seq::<Tree>::empty());
            assert(trees(by_model@) =~= Seq::<Tree>::empty());
        },
    }
    Fields::new()
        .with("daily", Value::List(daily))
        .with("by_model", Value::List(by_model))
        .with("totals", totals_value(Fields::new(), totals))
        .with("period_days", integer(analytics_days(days) as i64))
        .with("skills", skills)
        .table()
}

/// The report on models: one row for each model and provider, and the totals.
pub open spec fn models_report(days: Option<u32>, found: Option<ModelsUsage>) -> Tree {
    let (models, distinct, totals) = match found {
        Some(u) => (
            Seq::new(u.models@.len(), |i: int| provider_tree(u.models@[i])),
            u.distinct_models,
            Some(u.totals),
        ),
        None => (Seq::empty(), 0i64, None),
    };
    Tree::Table(
        fields()
            .push(field("models"@, Tree::List(models)))
            .push(field(
                "totals"@,
                totals_tree(
                    fields().push(field("distinct_models"@, number(distinct as int))),
                    totals,
                ),
            ))
            .push(field("period_days"@, number(period(days) as int))),
    )
}

/// The report on models, from the rows of the session database where there is one.
pub fn get_models_analytics(days: Option<u32>, found: Option<&ModelsUsage>) -> (r: Value)
    ensures
        r@ == models_report(
            days,
            match found {
                Some(u) => Some(*u),
                None => None,
            },
        ),
{
    let mut models: Vec<Value> = Vec::new();
    let mut distinct: i64 = 0;
    let mut totals: Option<&UsageTotals> = None;
    match found {
        Some(u) => {
            let mut i: usize = 0;
            while i < u.models.len()
                invariant
                    i <= u.models@.len(),
                    models@.len() == i,
                    forall|j: int|
                        0 <= j < i ==> (#[trigger] models@[j])@ == provider_tree(u.models@[j]),
                decreases u.models@.len() - i,
            {
                models.push(provider_row(&u.models[i]));
                i = i + 1;
            }
            distinct = u.distinct_models;
            totals = Some(&u.totals);
            assert(trees(models@) =~= Seq::new(
                u.models@.len(),
                |i: int| provider_tree(u.models@[i]),
            ));
        },
        None => {
            assert(trees(models@) =~= Seq::<Tree>::empty());
        },
    }
    Fields::new()
        .with("models", Value::List(models))
        .with(
            "totals",
            totals_value(Fields::new().with("distinct_models", integer(distinct)), totals),
        )
        .with("period_days", integer(analytics_days(days) as i64))
        .table()
}

// ---------------------------------------------------------------------------
// Laws
// ---------------------------------------------------------------------------

/// The period of a report is the one that is asked for wherever it is one of a day to a leap
/// year, thirty days where none is asked for, and else the nearest bound.
pub proof fn law_period(d: u32)
    ensures
        period(None) == 30,
        1 <= d <= 366 ==> period(Some(d)) == d,
        d == 0 ==> period(Some(d)) == 1,
        d > 366 ==> period(Some(d)) == 366,
{
}

/// A floating-point number is told bit by bit, unless all eleven bits of its exponent are set,
/// as those of an infinity and of what is no number are.
pub proof fn law_float(bits: u64)
    ensures
        (bits >> 52) & 0x7ff == 0x7ff ==> float_tree(bits) == Tree::Null,
        (bits >> 52) & 0x7ff != 0x7ff ==> float_tree(bits) == Tree::Number(Number::Float(bits)),
{
    assert((bits / 0x10_0000_0000_0000) % 0x800 == (bits >> 52) & 0x7ff) by (bit_vector);
}

/// White space around a time is no part of it, and a blank text is no time.
pub proof fn law_usage_time(s: Seq<char>)
    ensures
        trim(s).len() > 0 ==> usage_time(s) == rfc3339_seconds(trim(s)),
        trim(s) == Seq::<char>::empty() ==> usage_time(s) is None,
{
}

/// A skill was used last at the time that its record says, where it says one in a text.
pub proof fn law_last_used(rec: Tree, s: Seq<char>)
    ensures
        (rec.member("last_used_at"@) matches Some(t) && t.as_text() == Some(s)) ==> last_used(rec)
            == usage_time(s),
        !(rec.member("last_used_at"@) matches Some(t) && t.as_text() is Some) ==> last_used(
            rec,
        ) is None,
{
}

/// A count is the integer that the record holds, and zero where it holds none.
pub proof fn law_count(rec: Tree, k: Seq<char>, n: i64)
    ensures
        rec.member(k) is None ==> count_of(rec, k) == 0,
        rec.member(k) matches Some(v) && v.as_i64() == Some(n) ==> count_of(rec, k) == n,
        rec.member(k) matches Some(v) && v.as_i64() is None ==> count_of(rec, k) == 0,
{
}

/// The total of a record is the sum of the times that the skill was viewed, used and edited.
pub proof fn law_total(rec: Tree, views: i64, uses: i64, edits: i64)
    ensures
        rec.member("view_count"@) == Some(Tree::Number(int_number(views))) && rec.member(
            "use_count"@,
        ) == Some(Tree::Number(int_number(uses))) && rec.member("patch_count"@) == Some(
            Tree::Number(int_number(edits)),
        ) ==> total_of(rec) == views + uses + edits,
{
}

/// Sums add up: that over no record is zero, that over one record is its count, and that over
/// two tables, one behind the other, is the sum of theirs.
pub proof fn law_sums(a: Seq<(Tree, Tree)>, b: Seq<(Tree, Tree)>, x: (Tree, Tree), k: Seq<char>)
    ensures
        sum_of(Seq::empty(), k) == 0,
        sum_of(seq![x], k) == count_of(x.1, k),
        sum_of(a + b, k) == sum_of(a, k) + sum_of(b, k),
        sum_of_totals(Seq::empty()) == 0,
        sum_of_totals(seq![x]) == total_of(x.1),
        sum_of_totals(a + b) == sum_of_totals(a) + sum_of_totals(b),
    decreases b.len(),
{
    reveal_with_fuel(sum_of, 2);
    reveal_with_fuel(sum_of_totals, 2);
    assert(seq![x].drop_last() =~= Seq::empty());
    if b.len() == 0 {
        assert(a + b =~= a);
    } else {
        assert((a + b).drop_last() =~= a + b.drop_last());
        assert((a + b).last() == b.last());
        law_sums(a, b.drop_last(), x, k);
    }
}

/// The records of used skills are those with a positive total, in their order.
pub proof fn law_used(e: Seq<(Tree, Tree)>)
    ensures
        used(e) == e.filter(|x: (Tree, Tree)| total_of(x.1) > 0),
    decreases e.len(),
{
    reveal(Seq::filter);
    if e.len() > 0 {
        law_used(e.drop_last());
    }
}

/// A record among others is still among them when they are ranked, and the other way round.
proof fn lemma_ranked_contains(e: Seq<(Tree, Tree)>, x: (Tree, Tree))
    ensures
        ranked(e).contains(x) <==> e.contains(x),
{
    law_ranked(e);
    broadcast use vstd::seq_lib::group_to_multiset_ensures;

    assert(ranked(e).to_multiset().count(x) == e.to_multiset().count(x));
    assert(ranked(e).contains(x) <==> ranked(e).to_multiset().count(x) > 0);
    assert(e.contains(x) <==> e.to_multiset().count(x) > 0);
}

/// A report lists skills that were used, at most fifty of them, each with a total that is not
/// smaller than those behind it; it leaves a used skill out only where it lists fifty others
/// that were not used less.
pub proof fn law_top_skills(e: Seq<(Tree, Tree)>, x: (Tree, Tree), i: int, j: int)
    ensures
        ({
            let t = top_skills(e);
            &&& t.len() <= 50
            &&& t.contains(x) ==> e.contains(x) && total_of(x.1) > 0
            &&& 0 <= i < j < t.len() ==> total_of(t[i].1) >= total_of(t[j].1)
            &&& e.contains(x) && total_of(x.1) > 0 && !t.contains(x) ==> t.len() == 50
            &&& e.contains(x) && total_of(x.1) > 0 && !t.contains(x) && 0 <= i < t.len()
                ==> total_of(t[i].1) >= total_of(x.1)
        }),
{
    let u = used(e);
    let r = ranked(u);
    let t = top_skills(e);
    law_used(e);
    let p = |y: (Tree, Tree)| total_of(y.1) > 0;
    lemma_ranked_contains(u, x);
    law_ranked(u);
    assert(forall|n: int| 0 <= n < t.len() ==> #[trigger] t[n] == r[n]);
    if t.contains(x) {
        let n = choose|n: int| 0 <= n < t.len() && t[n] == x;
        assert(r[n] == x);
        assert(u.contains(x));
        lemma_filtered(e, p, x);
    }
    if e.contains(x) && total_of(x.1) > 0 {
        lemma_filtered(e, p, x);
        assert(r.contains(x));
        let n = choose|n: int| 0 <= n < r.len() && r[n] == x;
        if n < t.len() {
            assert(t[n] == x);
        }
        if 0 <= i < t.len() && !t.contains(x) {
            assert(t[i] == r[i]);
            assert(total_of(r[i].1) >= total_of(r[n].1));
        }
    }
}

/// What a filter keeps is what it accepts of what was there.
proof fn lemma_filtered(
    e: Seq<(Tree, Tree)>,
    p: spec_fn((Tree, Tree)) -> bool,
    x: (Tree, Tree),
)
    ensures
        e.filter(p).contains(x) <==> e.contains(x) && p(x),
    decreases e.len(),
{
    reveal(Seq::filter);
    if e.len() > 0 {
        let front = e.drop_last();
        lemma_filtered(front, p, x);
        assert(e =~= front.push(e.last()));
        if front.contains(x) {
            let n = choose|n: int| 0 <= n < front.len() && front[n] == x;
            assert(e[n] == x);
        }
        if e.contains(x) && e.last() != x {
            let n = choose|n: int| 0 <= n < e.len() && e[n] == x;
            assert(front[n] == x);
        }
        if e.last() == x {
            assert(e[e.len() - 1] == x);
        }
        let f = front.filter(p);
        if p(e.last()) {
            assert(e.filter(p) == f.push(e.last()));
            if f.contains(x) {
                let n = choose|n: int| 0 <= n < f.len() && f[n] == x;
                assert(e.filter(p)[n] == x);
            }
            if e.last() == x {
                assert(e.filter(p)[f.len() as int] == x);
            }
            if e.filter(p).contains(x) && e.last() != x {
                let n = choose|n: int| 0 <= n < e.filter(p).len() && e.filter(p)[n] == x;
                assert(f[n] == x);
            }
        }
    }
}

/// What is told of a skill: its name, how often it was viewed, edited and used in all, and when
/// it was used last.
pub proof fn law_skill_row(name: Tree, rec: Tree, last: Option<i64>)
    ensures
        ({
            let row = skill_tree(name, rec, last);
            &&& row is Table
            &&& row.member("skill"@) == Some(name)
            &&& row.member("view_count"@) == Some(
                Tree::Number(int_number(count_of(rec, "view_count"@) as i64)),
            )
            &&& row.member("manage_count"@) == Some(
                Tree::Number(int_number(count_of(rec, "patch_count"@) as i64)),
            )
            &&& row.member("total_count"@) == Some(Tree::Number(int_number(total_of(rec) as i64)))
            &&& row.member("last_used_at"@) == Some(
                match last {
                    Some(n) => Tree::Number(Number::WholeFloat(n)),
                    None => Tree::Null,
                },
            )
        }),
{
    let e = skill_tree(name, rec, last)->Table_0;
    reveal_strlit("skill");
    reveal_strlit("view_count");
    reveal_strlit("manage_count");
    reveal_strlit("total_count");
    reveal_strlit("last_used_at");
    assert("skill"@.len() == 5);
    assert("view_count"@.len() == 10);
    assert("manage_count"@.len() == 12);
    assert("total_count"@.len() == 11);
    assert("last_used_at"@.len() == 12);
    assert("manage_count"@[0] != "last_used_at"@[0]);
    lemma_key_index_is(e, "skill"@, 0);
    lemma_key_index_is(e, "view_count"@, 1);
    lemma_key_index_is(e, "manage_count"@, 2);
    lemma_key_index_is(e, "total_count"@, 3);
    lemma_key_index_is(e, "last_used_at"@, 4);
}

/// What is told of a day is what the database says of it.
pub proof fn law_daily_row(d: DailyUsage)
    ensures
        ({
            let row = daily_tree(d);
            &&& row is Table
            &&& row.member("day"@) == Some(Tree::Text(d.day@))
            &&& row.member("input_tokens"@) == Some(float_tree(d.input_tokens))
            &&& row.member("output_tokens"@) == Some(float_tree(d.output_tokens))
            &&& row.member("cache_read_tokens"@) == Some(float_tree(d.cache_read_tokens))
            &&& row.member("reasoning_tokens"@) == Some(float_tree(d.reasoning_tokens))
            &&& row.member("estimated_cost"@) == Some(float_tree(d.estimated_cost))
            &&& row.member("actual_cost"@) == Some(float_tree(d.actual_cost))
            &&& row.member("sessions"@) == Some(Tree::Number(int_number(d.sessions)))
            &&& row.member("api_calls"@) == Some(float_tree(d.api_calls))
        }),
{
    let e = daily_tree(d)->Table_0;
    reveal_strlit("day");
    reveal_strlit("input_tokens");
    reveal_strlit("output_tokens");
    reveal_strlit("cache_read_tokens");
    reveal_strlit("reasoning_tokens");
    reveal_strlit("estimated_cost");
    reveal_strlit("actual_cost");
    reveal_strlit("sessions");
    reveal_strlit("api_calls");
    assert("day"@.len() == 3);
    assert("input_tokens"@.len() == 12);
    assert("output_tokens"@.len() == 13);
    assert("cache_read_tokens"@.len() == 17);
    assert("reasoning_tokens"@.len() == 16);
    assert("estimated_cost"@.len() == 14);
    assert("actual_cost"@.len() == 11);
    assert("sessions"@.len() == 8);
    assert("api_calls"@.len() == 9);
    lemma_key_index_is(e, "day"@, 0);
    lemma_key_index_is(e, "input_tokens"@, 1);
    lemma_key_index_is(e, "output_tokens"@, 2);
    lemma_key_index_is(e, "cache_read_tokens"@, 3);
    lemma_key_index_is(e, "reasoning_tokens"@, 4);
    lemma_key_index_is(e, "estimated_cost"@, 5);
    lemma_key_index_is(e, "actual_cost"@, 6);
    lemma_key_index_is(e, "sessions"@, 7);
    lemma_key_index_is(e, "api_calls"@, 8);
}

/// What is told of a model is what the database says of it.
pub proof fn law_model_row(d: ModelUsage)
    ensures
        ({
            let row = model_tree(d);
            &&& row is Table
            &&& row.member("model"@) == Some(Tree::Text(d.model@))
            &&& row.member("input_tokens"@) == Some(float_tree(d.input_tokens))
            &&& row.member("output_tokens"@) == Some(float_tree(d.output_tokens))
            &&& row.member("estimated_cost"@) == Some(float_tree(d.estimated_cost))
            &&& row.member("sessions"@) == Some(Tree::Number(int_number(d.sessions)))
            &&& row.member("api_calls"@) == Some(float_tree(d.api_calls))
        }),
{
    let e = model_tree(d)->Table_0;
    reveal_strlit("model");
    reveal_strlit("input_tokens");
    reveal_strlit("output_tokens");
    reveal_strlit("estimated_cost");
    reveal_strlit("sessions");
    reveal_strlit("api_calls");
    assert("model"@.len() == 5);
    assert("input_tokens"@.len() == 12);
    assert("output_tokens"@.len() == 13);
    assert("estimated_cost"@.len() == 14);
    assert("sessions"@.len() == 8);
    assert("api_calls"@.len() == 9);
    lemma_key_index_is(e, "model"@, 0);
    lemma_key_index_is(e, "input_tokens"@, 1);
    lemma_key_index_is(e, "output_tokens"@, 2);
    lemma_key_index_is(e, "estimated_cost"@, 3);
    lemma_key_index_is(e, "sessions"@, 4);
    lemma_key_index_is(e, "api_calls"@, 5);
}

/// What is told of a model and its provider is what the database says of them; a provider that is
/// not known is an empty text.
pub proof fn law_provider_row(d: ProviderUsage)
    ensures
        ({
            let row = provider_tree(d);
            &&& row is Table
            &&& row.member("model"@) == Some(Tree::Text(d.model@))
            &&& row.member("provider"@) == Some(
                Tree::Text(
                    match d.provider {
                        Some(p) => p@,
                        None => Seq::empty(),
                    },
                ),
            )
            &&& row.member("input_tokens"@) == Some(float_tree(d.input_tokens))
            &&& row.member("output_tokens"@) == Some(float_tree(d.output_tokens))
            &&& row.member("cache_read_tokens"@) == Some(float_tree(d.cache_read_tokens))
            &&& row.member("reasoning_tokens"@) == Some(float_tree(d.reasoning_tokens))
            &&& row.member("estimated_cost"@) == Some(float_tree(d.estimated_cost))
            &&& row.member("actual_cost"@) == Some(float_tree(d.actual_cost))
            &&& row.member("sessions"@) == Some(Tree::Number(int_number(d.sessions)))
            &&& row.member("api_calls"@) == Some(float_tree(d.api_calls))
            &&& row.member("tool_calls"@) == Some(float_tree(d.tool_calls))
            &&& row.member("last_used_at"@) == Some(float_tree(d.last_used_at))
            &&& row.member("avg_tokens_per_session"@) == Some(float_tree(d.avg_tokens_per_session))
            &&& row.member("capabilities"@) == Some(Tree::Table(Seq::empty()))
        }),
{
    reveal_strlit("");
    assert(""@ =~= Seq::<char>::empty());
    let e = provider_tree(d)->Table_0;
    reveal_strlit("model");
    reveal_strlit("provider");
    reveal_strlit("input_tokens");
    reveal_strlit("output_tokens");
    reveal_strlit("cache_read_tokens");
    reveal_strlit("reasoning_tokens");
    reveal_strlit("estimated_cost");
    reveal_strlit("actual_cost");
    reveal_strlit("sessions");
    reveal_strlit("api_calls");
    reveal_strlit("tool_calls");
    reveal_strlit("last_used_at");
    reveal_strlit("avg_tokens_per_session");
    reveal_strlit("capabilities");
    assert("model"@.len() == 5);
    assert("provider"@.len() == 8);
    assert("input_tokens"@.len() == 12);
    assert("output_tokens"@.len() == 13);
    assert("cache_read_tokens"@.len() == 17);
    assert("reasoning_tokens"@.len() == 16);
    assert("estimated_cost"@.len() == 14);
    assert("actual_cost"@.len() == 11);
    assert("sessions"@.len() == 8);
    assert("api_calls"@.len() == 9);
    assert("tool_calls"@.len() == 10);
    assert("last_used_at"@.len() == 12);
    assert("avg_tokens_per_session"@.len() == 22);
    assert("capabilities"@.len() == 12);
    assert("provider"@[0] != "sessions"@[0]);
    assert("input_tokens"@[0] != "last_used_at"@[0]);
    assert("input_tokens"@[0] != "capabilities"@[0]);
    assert("last_used_at"@[0] != "capabilities"@[0]);
    lemma_key_index_is(e, "model"@, 0);
    lemma_key_index_is(e, "provider"@, 1);
    lemma_key_index_is(e, "input_tokens"@, 2);
    lemma_key_index_is(e, "output_tokens"@, 3);
    lemma_key_index_is(e, "cache_read_tokens"@, 4);
    lemma_key_index_is(e, "reasoning_tokens"@, 5);
    lemma_key_index_is(e, "estimated_cost"@, 6);
    lemma_key_index_is(e, "actual_cost"@, 7);
    lemma_key_index_is(e, "sessions"@, 8);
    lemma_key_index_is(e, "api_calls"@, 9);
    lemma_key_index_is(e, "tool_calls"@, 10);
    lemma_key_index_is(e, "last_used_at"@, 11);
    lemma_key_index_is(e, "avg_tokens_per_session"@, 12);
    lemma_key_index_is(e, "capabilities"@, 13);
}

/// The totals are what the database says they are.
pub proof fn law_totals(d: UsageTotals)
    ensures
        ({
            let row = totals_tree(fields(), Some(d));
            &&& row is Table
            &&& row.member("total_input"@) == Some(float_tree(d.input))
            &&& row.member("total_output"@) == Some(float_tree(d.output))
            &&& row.member("total_cache_read"@) == Some(float_tree(d.cache_read))
            &&& row.member("total_reasoning"@) == Some(float_tree(d.reasoning))
            &&& row.member("total_estimated_cost"@) == Some(float_tree(d.estimated_cost))
            &&& row.member("total_actual_cost"@) == Some(float_tree(d.actual_cost))
            &&& row.member("total_sessions"@) == Some(Tree::Number(int_number(d.sessions)))
            &&& row.member("total_api_calls"@) == Some(float_tree(d.api_calls))
        }),
{
    let e = totals_tree(fields(), Some(d))->Table_0;
    reveal_strlit("total_input");
    reveal_strlit("total_output");
    reveal_strlit("total_cache_read");
    reveal_strlit("total_reasoning");
    reveal_strlit("total_estimated_cost");
    reveal_strlit("total_actual_cost");
    reveal_strlit("total_sessions");
    reveal_strlit("total_api_calls");
    assert("total_input"@.len() == 11);
    assert("total_output"@.len() == 12);
    assert("total_cache_read"@.len() == 16);
    assert("total_reasoning"@.len() == 15);
    assert("total_estimated_cost"@.len() == 20);
    assert("total_actual_cost"@.len() == 17);
    assert("total_sessions"@.len() == 14);
    assert("total_api_calls"@.len() == 15);
    assert("total_reasoning"@[6] != "total_api_calls"@[6]);
    lemma_key_index_is(e, "total_input"@, 0);
    lemma_key_index_is(e, "total_output"@, 1);
    lemma_key_index_is(e, "total_cache_read"@, 2);
    lemma_key_index_is(e, "total_reasoning"@, 3);
    lemma_key_index_is(e, "total_estimated_cost"@, 4);
    lemma_key_index_is(e, "total_actual_cost"@, 5);
    lemma_key_index_is(e, "total_sessions"@, 6);
    lemma_key_index_is(e, "total_api_calls"@, 7);
}

/// Without a database every total is zero.
pub proof fn law_no_totals()
    ensures
        ({
            let row = totals_tree(fields(), None);
            &&& row is Table
            &&& row.member("total_input"@) == Some(Tree::Number(int_number(0)))
            &&& row.member("total_output"@) == Some(Tree::Number(int_number(0)))
            &&& row.member("total_cache_read"@) == Some(Tree::Number(int_number(0)))
            &&& row.member("total_reasoning"@) == Some(Tree::Number(int_number(0)))
            &&& row.member("total_estimated_cost"@) == Some(Tree::Number(int_number(0)))
            &&& row.member("total_actual_cost"@) == Some(Tree::Number(int_number(0)))
            &&& row.member("total_sessions"@) == Some(Tree::Number(int_number(0)))
            &&& row.member("total_api_calls"@) == Some(Tree::Number(int_number(0)))
        }),
{
    let e = totals_tree(fields(), None)->Table_0;
    reveal_strlit("total_input");
    reveal_strlit("total_output");
    reveal_strlit("total_cache_read");
    reveal_strlit("total_reasoning");
    reveal_strlit("total_estimated_cost");
    reveal_strlit("total_actual_cost");
    reveal_strlit("total_sessions");
    reveal_strlit("total_api_calls");
    assert("total_input"@.len() == 11);
    assert("total_output"@.len() == 12);
    assert("total_cache_read"@.len() == 16);
    assert("total_reasoning"@.len() == 15);
    assert("total_estimated_cost"@.len() == 20);
    assert("total_actual_cost"@.len() == 17);
    assert("total_sessions"@.len() == 14);
    assert("total_api_calls"@.len() == 15);
    assert("total_reasoning"@[6] != "total_api_calls"@[6]);
    lemma_key_index_is(e, "total_input"@, 0);
    lemma_key_index_is(e, "total_output"@, 1);
    lemma_key_index_is(e, "total_cache_read"@, 2);
    lemma_key_index_is(e, "total_reasoning"@, 3);
    lemma_key_index_is(e, "total_estimated_cost"@, 4);
    lemma_key_index_is(e, "total_actual_cost"@, 5);
    lemma_key_index_is(e, "total_sessions"@, 6);
    lemma_key_index_is(e, "total_api_calls"@, 7);
}

/// The totals of the report on models have the number of distinct models before the others.
pub proof fn law_models_totals(d: UsageTotals, n: i64)
    ensures
        ({
            let row = totals_tree(
                fields().push(field("distinct_models"@, number(n as int))),
                Some(d),
            );
            &&& row is Table
            &&& row.member("distinct_models"@) == Some(Tree::Number(int_number(n)))
            &&& row.member("total_input"@) == Some(float_tree(d.input))
            &&& row.member("total_output"@) == Some(float_tree(d.output))
            &&& row.member("total_cache_read"@) == Some(float_tree(d.cache_read))
            &&& row.member("total_reasoning"@) == Some(float_tree(d.reasoning))
            &&& row.member("total_estimated_cost"@) == Some(float_tree(d.estimated_cost))
            &&& row.member("total_actual_cost"@) == Some(float_tree(d.actual_cost))
            &&& row.member("total_sessions"@) == Some(Tree::Number(int_number(d.sessions)))
            &&& row.member("total_api_calls"@) == Some(float_tree(d.api_calls))
        }),
{
    let e = totals_tree(
        fields().push(field("distinct_models"@, number(n as int))),
        Some(d),
    )->Table_0;
    reveal_strlit("distinct_models");
    reveal_strlit("total_input");
    reveal_strlit("total_output");
    reveal_strlit("total_cache_read");
    reveal_strlit("total_reasoning");
    reveal_strlit("total_estimated_cost");
    reveal_strlit("total_actual_cost");
    reveal_strlit("total_sessions");
    reveal_strlit("total_api_calls");
    assert("distinct_models"@.len() == 15);
    assert("total_input"@.len() == 11);
    assert("total_output"@.len() == 12);
    assert("total_cache_read"@.len() == 16);
    assert("total_reasoning"@.len() == 15);
    assert("total_estimated_cost"@.len() == 20);
    assert("total_actual_cost"@.len() == 17);
    assert("total_sessions"@.len() == 14);
    assert("total_api_calls"@.len() == 15);
    assert("distinct_models"@[0] != "total_reasoning"@[0]);
    assert("distinct_models"@[0] != "total_api_calls"@[0]);
    assert("total_reasoning"@[6] != "total_api_calls"@[6]);
    lemma_key_index_is(e, "distinct_models"@, 0);
    lemma_key_index_is(e, "total_input"@, 1);
    lemma_key_index_is(e, "total_output"@, 2);
    lemma_key_index_is(e, "total_cache_read"@, 3);
    lemma_key_index_is(e, "total_reasoning"@, 4);
    lemma_key_index_is(e, "total_estimated_cost"@, 5);
    lemma_key_index_is(e, "total_actual_cost"@, 6);
    lemma_key_index_is(e, "total_sessions"@, 7);
    lemma_key_index_is(e, "total_api_calls"@, 8);
}

/// The report on usage has a row for each day and each model of the database, in their order, the
/// totals, the period and what is told of the skills; without a database it has no rows and no
/// usage.
pub proof fn law_usage_report(days: Option<u32>, u: Usage, skills: Tree, i: int)
    ensures
        ({
            let row = usage_report(days, Some(u), skills);
            &&& row is Table
            &&& row.member("daily"@) matches Some(Tree::List(l)) && l.len() == u.daily@.len() && (0
                <= i < l.len() ==> l[i] == daily_tree(u.daily@[i]))
            &&& row.member("by_model"@) matches Some(Tree::List(l)) && l.len() == u.by_model@.len()
                && (0 <= i < l.len() ==> l[i] == model_tree(u.by_model@[i]))
            &&& row.member("totals"@) == Some(totals_tree(Seq::empty(), Some(u.totals)))
            &&& row.member("period_days"@) == Some(Tree::Number(int_number(period(days) as i64)))
            &&& row.member("skills"@) == Some(skills)
        }),
        ({
            let row = usage_report(days, None, skills);
            &&& row is Table
            &&& row.member("daily"@) == Some(Tree::List(Seq::empty()))
            &&& row.member("by_model"@) == Some(Tree::List(Seq::empty()))
            &&& row.member("totals"@) == Some(totals_tree(Seq::empty(), None))
            &&& row.member("period_days"@) == Some(Tree::Number(int_number(period(days) as i64)))
            &&& row.member("skills"@) == Some(skills)
        }),
{
    let e = usage_report(days, Some(u), skills)->Table_0;
    let f = usage_report(days, None, skills)->Table_0;
    reveal_strlit("daily");
    reveal_strlit("by_model");
    reveal_strlit("totals");
    reveal_strlit("period_days");
    reveal_strlit("skills");
    assert("daily"@.len() == 5);
    assert("by_model"@.len() == 8);
    assert("totals"@.len() == 6);
    assert("period_days"@.len() == 11);
    assert("skills"@.len() == 6);
    assert("totals"@[0] != "skills"@[0]);
    lemma_key_index_is(e, "daily"@, 0);
    lemma_key_index_is(e, "by_model"@, 1);
    lemma_key_index_is(e, "totals"@, 2);
    lemma_key_index_is(e, "period_days"@, 3);
    lemma_key_index_is(e, "skills"@, 4);
    lemma_key_index_is(f, "daily"@, 0);
    lemma_key_index_is(f, "by_model"@, 1);
    lemma_key_index_is(f, "totals"@, 2);
    lemma_key_index_is(f, "period_days"@, 3);
    lemma_key_index_is(f, "skills"@, 4);
}

/// The report on models has a row for each model and provider of the database, in their order,
/// the totals with the number of distinct models, and the period; without a database it has no
/// rows and no usage.
pub proof fn law_models_report(days: Option<u32>, u: ModelsUsage, i: int)
    ensures
        ({
            let row = models_report(days, Some(u));
            &&& row is Table
            &&& row.member("models"@) matches Some(Tree::List(l)) && l.len() == u.models@.len()
                && (0 <= i < l.len() ==> l[i] == provider_tree(u.models@[i]))
            &&& row.member("totals"@) == Some(
                totals_tree(
                    seq![field("distinct_models"@, Tree::Number(int_number(u.distinct_models)))],
                    Some(u.totals),
                ),
            )
            &&& row.member("period_days"@) == Some(Tree::Number(int_number(period(days) as i64)))
        }),
        ({
            let row = models_report(days, None);
            &&& row is Table
            &&& row.member("models"@) == Some(Tree::List(Seq::empty()))
            &&& row.member("totals"@) == Some(
                totals_tree(seq![field("distinct_models"@, Tree::Number(int_number(0)))], None),
            )
            &&& row.member("period_days"@) == Some(Tree::Number(int_number(period(days) as i64)))
        }),
{
    let e = models_report(days, Some(u))->Table_0;
    let f = models_report(days, None)->Table_0;
    assert(fields().push(field("distinct_models"@, number(u.distinct_models as int))) =~= seq![
        field("distinct_models"@, Tree::Number(int_number(u.distinct_models))),
    ]);
    assert(fields().push(field("distinct_models"@, number(0))) =~= seq![
        field("distinct_models"@, Tree::Number(int_number(0))),
    ]);
    reveal_strlit("models");
    reveal_strlit("totals");
    reveal_strlit("period_days");
    assert("models"@.len() == 6);
    assert("totals"@.len() == 6);
    assert("period_days"@.len() == 11);
    assert("models"@[0] != "totals"@[0]);
    lemma_key_index_is(e, "models"@, 0);
    lemma_key_index_is(e, "totals"@, 1);
    lemma_key_index_is(e, "period_days"@, 2);
    lemma_key_index_is(f, "models"@, 0);
    lemma_key_index_is(f, "totals"@, 1);
    lemma_key_index_is(f, "period_days"@, 2);
}

/// The report on skills counts the uses and the edits over all records, the actions over the
/// skills that it lists, and the skills that were used; and it lists the first fifty of them.
pub proof fn law_skills_report(e: Seq<(Tree, Tree)>, i: int)
    requires
        usage_fits(Some(Tree::Table(e))),
        used(e).len() <= i64::MAX,
    ensures
        ({
            let row = skills_report(Some(Tree::Table(e)));
            let t = top_skills(e);
            &&& row is Table
            &&& section_member(row, "summary"@, "total_skill_loads"@) matches Some(v)
                && v.as_i64() == Some(sum_of(e, "use_count"@) as i64)
            &&& section_member(row, "summary"@, "total_skill_edits"@) matches Some(v)
                && v.as_i64() == Some(sum_of(e, "patch_count"@) as i64)
            &&& section_member(row, "summary"@, "total_skill_actions"@) matches Some(v)
                && v.as_i64() == Some(sum_of_totals(t) as i64)
            &&& section_member(row, "summary"@, "distinct_skills_used"@) matches Some(v)
                && v.as_i64() == Some(
                e.filter(|x: (Tree, Tree)| total_of(x.1) > 0).len() as i64,
            )
            &&& row.member("top_skills"@) matches Some(Tree::List(l)) && l.len() == t.len() && (0
                <= i < l.len() ==> l[i] == skill_tree(t[i].0, t[i].1, last_used(t[i].1)))
        }),
{
    law_used(e);
    let row = skills_report(Some(Tree::Table(e)));
    let f = row->Table_0;
    reveal_strlit("summary");
    reveal_strlit("top_skills");
    assert("summary"@.len() == 7);
    assert("top_skills"@.len() == 10);
    lemma_key_index_is(f, "summary"@, 0);
    lemma_key_index_is(f, "top_skills"@, 1);
    let s = f[0].1->Table_0;
    reveal_strlit("total_skill_loads");
    reveal_strlit("total_skill_edits");
    reveal_strlit("total_skill_actions");
    reveal_strlit("distinct_skills_used");
    assert("total_skill_loads"@.len() == 17);
    assert("total_skill_edits"@.len() == 17);
    assert("total_skill_actions"@.len() == 19);
    assert("distinct_skills_used"@.len() == 20);
    assert("total_skill_loads"@[12] != "total_skill_edits"@[12]);
    lemma_key_index_is(s, "total_skill_loads"@, 0);
    lemma_key_index_is(s, "total_skill_edits"@, 1);
    lemma_key_index_is(s, "total_skill_actions"@, 2);
    lemma_key_index_is(s, "distinct_skills_used"@, 3);
}

/// A tag before the table of a usage file does not matter.
pub proof fn law_tagged_usage(t: Tree, e: Seq<(Tree, Tree)>)
    requires
        t.as_table() == Some(e),
    ensures
        skills_report(Some(t)) == skills_report(Some(Tree::Table(e))),
{
}

/// Where there is no usage file, or what it holds is no table, nothing is known of any skill.
pub proof fn law_no_skills(t: Tree)
    requires
        t.as_table() is None,
    ensures
        skills_report(None) == skills_report(Some(Tree::Table(Seq::empty()))),
        skills_report(Some(t)) == skills_report(None),
{
    let e = Seq::<(Tree, Tree)>::empty();
    assert(used(e) =~= e);
    assert(top_skills(e) =~= e);
    assert(Seq::new(
        top_skills(e).len(),
        |i: int|
            skill_tree(top_skills(e)[i].0, top_skills(e)[i].1, last_used(top_skills(e)[i].1)),
    ) =~= Seq::<Tree>::empty());
}

/// Every signed integer of 64 bits fits, and none beyond them does.
pub proof fn law_fits(n: i64, m: int)
    ensures
        fits(n as int),
        m > 0x7fff_ffff_ffff_ffff || m < -0x8000_0000_0000_0000 ==> !fits(m),
{
}

} // verus!
