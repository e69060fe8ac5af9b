//! Profiles: their names, what is listed of them, and the requests to change them.
use vstd::prelude::*;
use vstd::string::*;

use crate::text::{
    all_ascii, ascii_lower, chars_of, holds_text, in_small_letters, is_white_space,
    law_text_less_total, law_text_less_trans, law_trim, lemma_trim_is, lower_case, lowered,
    opt_text, text_before, text_eq, text_less, text_result, texts, trim, trimmed, unit_result,
};
use crate::value::{
    body_of, field, fields, get, lemma_key_index_is, lemma_list_tree, lemma_table_tree, opt_ref,
    opt_tree, request_body, table_get, text, tree_result, Fields, Tree, Value,
};

verus! {

broadcast use {lemma_list_tree, lemma_table_tree};

// ---------------------------------------------------------------------------
// Names
// ---------------------------------------------------------------------------

/// The longest name of a profile.
pub const MAX_PROFILE_NAME: usize = 64;

/// The name as profiles are called by it: without white space around it and in small letters.
pub open spec fn normalized_name(name: Seq<char>) -> Result<Seq<char>, Seq<char>> {
    let t = trim(name);
    if t.len() == 0 {
        Err("profielnaam mag niet leeg zijn"@)
    } else {
        Ok(lower_case(t))
    }
}

/// A small letter or a digit.
pub open spec fn is_name_start(c: char) -> bool {
    97 <= c as u32 <= 122 || 48 <= c as u32 <= 57
}

/// The text can be the name of a profile: one to sixty-four small letters, digits, underscores
/// and dashes, the first a letter or a digit.
pub open spec fn is_profile_id(name: Seq<char>) -> bool {
    &&& 0 < name.len() <= MAX_PROFILE_NAME
    &&& is_name_start(name[0])
    &&& forall|i: int|
        0 < i < name.len() ==> is_name_start(#[trigger] name[i]) || name[i] == '_' || name[i] == '-'
}

/// The names that no profile can have.
pub open spec fn reserved_names() -> Seq<Seq<char>> {
    seq!["hermes"@, "test"@, "tmp"@, "root"@, "sudo"@]
}

/// What the `Debug` of a text shows.
pub uninterp spec fn debug_shown(s: Seq<char>) -> Seq<char>;

/// `format!` with the `Debug` of a text, which sets it in double quotes and escapes what needs
/// escaping. The result is named; of the name of a profile, which holds nothing to escape, the
/// claim is that only the quotes are added.
#[verifier::external_body]
fn shown(s: &str) -> (r: String)
    ensures
        r@ == debug_shown(s@),
        is_profile_id(s@) ==> r@ == seq!['"'] + s@ + seq!['"'],
{
    format!("{:?}", s)
}

/// The complaint about a text that cannot be the name of a profile, given as it is shown.
pub open spec fn bad_name(shown: Seq<char>) -> Seq<char> {
    "Ongeldige profielnaam "@ + shown + ". Moet voldoen aan [a-z0-9][a-z0-9_-]{0,63}"@
}

/// The complaint about a name that no profile can have, given as it is shown.
pub open spec fn reserved_name(shown: Seq<char>) -> Seq<char> {
    "Profielnaam "@ + shown + " is gereserveerd."@
}

/// Whether a normalized name is accepted; `quoted` is the name as it is shown.
pub open spec fn name_verdict(name: Seq<char>, quoted: Seq<char>) -> Result<(), Seq<char>> {
    if name == "default"@ {
        Ok(())
    } else if !is_profile_id(name) {
        Err(bad_name(quoted))
    } else if reserved_names().contains(name) {
        Err(reserved_name(quoted))
    } else {
        Ok(())
    }
}

/// The name as profiles are called by it, where it is accepted.
pub open spec fn checked_name(name: Seq<char>) -> Result<Seq<char>, Seq<char>> {
    match normalized_name(name) {
        Ok(n) => match name_verdict(n, debug_shown(n)) {
            Ok(_) => Ok(n),
            Err(e) => Err(e),
        },
        Err(e) => Err(e),
    }
}

/// Whether the text is `default` in small or capital letters.
fn is_default_text(s: &str) -> (r: bool)
    ensures
        r == (in_small_letters(s@) == "default"@),
{
    let cs = chars_of(s);
    let ds = chars_of("default");
    let ghost low = in_small_letters(s@);
    if cs.len() != ds.len() {
        assert(low.len() == cs@.len());
        return false;
    }
    let mut i: usize = 0;
    while i < cs.len()
        invariant
            i <= cs@.len(),
            cs@ == s@,
            ds@ == "default"@,
            cs@.len() == ds@.len(),
            low == in_small_letters(s@),
            forall|j: int| 0 <= j < i ==> low[j] == ds@[j],
        decreases cs@.len() - i,
    {
        let u: u32 = cs[i] as u32;
        let c: char = if 65 <= u && u <= 90 {
            ((u + 32) as u8) as char
        } else {
            cs[i]
        };
        assert(low[i as int] == c);
        if c != ds[i] {
            return false;
        }
        i = i + 1;
    }
    assert(low =~= ds@);
    true
}

/// The name as profiles are called by it. What can be the name of a profile stays as it is, and
/// so does what comes of a name of ASCII characters.
pub fn normalize_profile_name(name: &str) -> (r: Result<String, String>)
    ensures
        text_result(r) == normalized_name(name@),
        is_profile_id(name@) ==> text_result(r) == Ok::<Seq<char>, Seq<char>>(name@),
        all_ascii(trim(name@)) && r is Ok ==> trim(r->Ok_0@) == r->Ok_0@ && normalized_name(
            r->Ok_0@,
        ) == text_result(r),
{
    let t = trimmed(name);
    proof {
        law_normalized_name(name@);
        if is_profile_id(name@) {
            lemma_plain_id(name@);
        }
    }
    if t.unicode_len() == 0 {
        return Err("profielnaam mag niet leeg zijn".to_owned());
    }
    if is_default_text(t) {
        proof {
            lemma_default_is_ascii(t@);
        }
        return Ok("default".to_owned());
    }
    Ok(lowered(t))
}

/// What can be the name of a profile has no white space around it and no capital letters.
proof fn lemma_plain_id(name: Seq<char>)
    requires
        is_profile_id(name),
    ensures
        trim(name) == name,
        all_ascii(name),
        in_small_letters(name) == name,
{
    assert(is_name_start(name[0]));
    assert forall|i: int| 0 <= i < name.len() implies (#[trigger] name[i] as u32) < 128 && !(65
        <= name[i] as u32 <= 90) && !is_white_space(name[i]) by {
        if i > 0 {
            assert(is_name_start(name[i]) || name[i] == '_' || name[i] == '-');
        }
    }
    lemma_trim_is(name, 0, name.len() as int);
    assert(name.subrange(0, name.len() as int) =~= name);
    assert(in_small_letters(name) =~= name);
}

/// A text that is `default` in small or capital letters is ASCII.
proof fn lemma_default_is_ascii(s: Seq<char>)
    requires
        in_small_letters(s) == "default"@,
    ensures
        all_ascii(s),
{
    reveal_strlit("default");
    let d = seq!['d', 'e', 'f', 'a', 'u', 'l', 't'];
    assert("default"@ =~= d);
    assert(s.len() == 7);
    assert forall|i: int| 0 <= i < 7 implies (#[trigger] s[i] as u32) < 128 by {
        assert(d[i] == ascii_lower(s[i]));
        assert(d[i] == 'd' || d[i] == 'e' || d[i] == 'f' || d[i] == 'a' || d[i] == 'u' || d[i]
            == 'l' || d[i] == 't');
    }
}

/// Small letters are kept, and white space is neither made nor lost.
proof fn lemma_small_letter(c: char)
    ensures
        ascii_lower(ascii_lower(c)) == ascii_lower(c),
        is_white_space(ascii_lower(c)) == is_white_space(c),
        (c as u32) < 128 ==> (ascii_lower(c) as u32) < 128,
{
}

/// A name is normalized where it holds anything but white space. Where what it holds is ASCII,
/// the result is that in small letters; it is not empty and has no white space around it, and
/// normalizing it again changes nothing.
pub proof fn law_normalized_name(name: Seq<char>)
    ensures
        normalized_name(name) is Err <==> trim(name).len() == 0,
        all_ascii(trim(name)) ==> (normalized_name(name) matches Ok(n) ==> {
            &&& n == in_small_letters(trim(name))
            &&& n.len() > 0
            &&& trim(n) == n
            &&& normalized_name(n) == Ok::<Seq<char>, Seq<char>>(n)
        }),
        in_small_letters(trim(name)) == "default"@ ==> normalized_name(name) == Ok::<
            Seq<char>,
            Seq<char>,
        >("default"@),
{
    let t = trim(name);
    let n = in_small_letters(t);
    reveal_strlit("default");
    if n == "default"@ {
        assert("default"@.len() == 7);
        lemma_default_is_ascii(t);
    }
    if all_ascii(t) && t.len() > 0 {
        law_trim(name);
        assert forall|i: int| 0 <= i < n.len() implies (#[trigger] n[i] as u32) < 128 by {
            assert(n[i] == ascii_lower(t[i]));
            assert((t[i] as u32) < 128);
            lemma_small_letter(t[i]);
        }
        assert(in_small_letters(n) =~= n) by {
            assert forall|i: int| 0 <= i < n.len() implies ascii_lower(#[trigger] n[i]) == n[i] by {
                lemma_small_letter(t[i]);
            }
        }
        lemma_small_letter(t[0]);
        lemma_small_letter(t.last());
        lemma_trim_is(n, 0, n.len() as int);
        assert(n.subrange(0, n.len() as int) =~= n);
    }
}

/// Whether the text can be the name of a profile.
pub fn is_valid_profile_id(name: &str) -> (r: bool)
    ensures
        r == is_profile_id(name@),
{
    let cs = chars_of(name);
    if cs.len() == 0 || cs.len() > MAX_PROFILE_NAME {
        return false;
    }
    let mut i: usize = 0;
    while i < cs.len()
        invariant
            i <= cs@.len(),
            cs@ == name@,
            0 < cs@.len() <= MAX_PROFILE_NAME,
            i > 0 ==> is_name_start(cs@[0]),
            forall|j: int|
                0 < j < i ==> is_name_start(#[trigger] cs@[j]) || cs@[j] == '_' || cs@[j] == '-',
        decreases cs@.len() - i,
    {
        let u: u32 = cs[i] as u32;
        let start: bool = (97 <= u && u <= 122) || (48 <= u && u <= 57);
        if !start && (i == 0 || (cs[i] != '_' && cs[i] != '-')) {
            return false;
        }
        i = i + 1;
    }
    true
}

/// The names that no profile can have.
pub fn reserved_profile_names() -> (r: Vec<String>)
    ensures
        texts(r@) == reserved_names(),
{
    let r: Vec<String> = vec![
        "hermes".to_owned(),
        "test".to_owned(),
        "tmp".to_owned(),
        "root".to_owned(),
        "sudo".to_owned(),
    ];
    assert(texts(r@) =~= reserved_names());
    r
}

/// Whether a normalized name is accepted, where `quoted` is the name as it is shown.
pub fn judge_name(name: &str, quoted: &str) -> (r: Result<(), String>)
    ensures
        unit_result(r) == name_verdict(name@, quoted@),
{
    if text_eq(name, "default") {
        return Ok(());
    }
    if !is_valid_profile_id(name) {
        let mut e = "Ongeldige profielnaam ".to_owned();
        e.append(quoted);
        e.append(". Moet voldoen aan [a-z0-9][a-z0-9_-]{0,63}");
        return Err(e);
    }
    if holds_text(&reserved_profile_names(), name) {
        let mut e = "Profielnaam ".to_owned();
        e.append(quoted);
        e.append(" is gereserveerd.");
        return Err(e);
    }
    Ok(())
}

/// Whether a normalized name is accepted.
pub fn validate_profile_name_normalized(name: &str) -> (r: Result<(), String>)
    ensures
        unit_result(r) == name_verdict(name@, debug_shown(name@)),
        is_profile_id(name@) ==> unit_result(r) == name_verdict(
            name@,
            seq!['"'] + name@ + seq!['"'],
        ),
{
    let quoted = shown(name);
    judge_name(name, quoted.as_str())
}

/// The name as profiles are called by it, where it is accepted.
pub fn checked_profile_name(name: &str) -> (r: Result<String, String>)
    ensures
        text_result(r) == checked_name(name@),
{
    match normalize_profile_name(name) {
        Ok(n) => match validate_profile_name_normalized(n.as_str()) {
            Ok(_) => Ok(n),
            Err(e) => Err(e),
        },
        Err(e) => Err(e),
    }
}

/// A name that is accepted is `default` or can be the name of a profile: it is short, and holds
/// no separator of paths and no dot, so that under `profiles` it stands for one directory.
pub proof fn law_accepted_names(name: Seq<char>)
    requires
        checked_name(name) is Ok,
    ensures
        ({
            let n = checked_name(name)->Ok_0;
            &&& 0 < n.len() <= MAX_PROFILE_NAME
            &&& !n.contains('/')
            &&& !n.contains('\\')
            &&& !n.contains('.')
            &&& !reserved_names().contains(n)
            &&& n == "default"@ || is_profile_id(n)
        }),
{
    let n = checked_name(name)->Ok_0;
    reveal_strlit("default");
    reveal_strlit("hermes");
    reveal_strlit("test");
    reveal_strlit("tmp");
    reveal_strlit("root");
    reveal_strlit("sudo");
    if n == "default"@ {
        assert("default"@.len() == 7);
        assert(is_profile_id("default"@));
        assert forall|i: int| 0 <= i < 5 implies #[trigger] reserved_names()[i].len() != 7 by {}
    }
    assert(is_profile_id(n));
    assert forall|i: int| 0 <= i < n.len() implies (#[trigger] n[i]) != '/' && n[i] != '\\' && n[i]
        != '.' by {
        if i == 0 {
            assert(is_name_start(n[0]));
        } else {
            assert(is_name_start(n[i]) || n[i] == '_' || n[i] == '-');
        }
    }
}

// ---------------------------------------------------------------------------
// What is listed
// ---------------------------------------------------------------------------

/// The model and the provider that the configuration of a profile names.
pub open spec fn profile_model(config: Option<Tree>) -> (Option<Seq<char>>, Option<Seq<char>>) {
    match config {
        Some(cfg) => match cfg.member("model"@) {
            Some(Tree::Text(s)) => (Some(s), None),
            Some(Tree::Table(m)) => (
                text_at(
                    match get(m, "default"@) {
                        Some(t) => Some(t),
                        None => match get(m, "model"@) {
                            Some(t) => Some(t),
                            None => get(m, "name"@),
                        },
                    },
                ),
                text_at(get(m, "provider"@)),
            ),
            _ => (None, None),
        },
        None => (None, None),
    }
}

/// The text that a value is, where there is a value.
pub open spec fn text_at(t: Option<Tree>) -> Option<Seq<char>> {
    match t {
        Some(v) => v.as_text(),
        None => None,
    }
}

/// The text that a value is, where there is a value.
fn owned_text(v: Option<&Value>) -> (r: Option<String>)
    ensures
        opt_text(r) == text_at(opt_ref(v)),
{
    match v {
        Some(v) => match v.as_text() {
            Some(s) => Some(s.to_owned()),
            None => None,
        },
        None => None,
    }
}

/// The model and the provider that the configuration of a profile names; nothing where it
/// cannot be read.
pub fn read_profile_model_provider(config: Option<&Value>) -> (r: (Option<String>, Option<String>))
    ensures
        (opt_text(r.0), opt_text(r.1)) == profile_model(opt_ref(config)),
{
    match config {
        Some(cfg) => match cfg.member("model") {
            Some(Value::Text(s)) => (Some(s.clone()), None),
            Some(Value::Table(m)) => {
                let named = match table_get(m, "default") {
                    Some(v) => Some(v),
                    None => match table_get(m, "model") {
                        Some(v) => Some(v),
                        None => table_get(m, "name"),
                    },
                };
                (owned_text(named), owned_text(table_get(m, "provider")))
            },
            _ => (None, None),
        },
        None => (None, None),
    }
}

/// An entry of a directory: its name, where that is text, and the entries in it where it is a
/// directory itself.
pub struct DirEntry {
    pub name: Option<String>,
    pub children: Option<Vec<DirEntry>>,
}

/// A directory in which no skills are looked for.
pub open spec fn is_skipped(name: Option<Seq<char>>) -> bool {
    name == Some(".hub"@) || name == Some(".git"@)
}

/// How many skills the entries hold: files with the name `SKILL.md`, at any depth, but for
/// directories in which none are looked for.
pub open spec fn skills_among(v: Seq<DirEntry>) -> nat
    decreases v,
{
    if v.len() == 0 {
        0
    } else {
        skills_among(v.drop_last()) + skills_at(v.last())
    }
}

/// How many skills an entry holds.
pub open spec fn skills_at(e: DirEntry) -> nat
    decreases e,
{
    match e.children {
        Some(c) => if is_skipped(opt_text(e.name)) {
            0
        } else {
            skills_among(c@)
        },
        None => if opt_text(e.name) == Some("SKILL.md"@) {
            1
        } else {
            0
        },
    }
}

/// Whether no skills are looked for in a directory.
pub fn skips_directory(name: &Option<String>) -> (r: bool)
    ensures
        r == is_skipped(opt_text(*name)),
{
    match name {
        Some(n) => text_eq(n.as_str(), ".hub") || text_eq(n.as_str(), ".git"),
        None => false,
    }
}

/// The first entries hold no more skills than all of them.
proof fn lemma_skills_among_first(v: Seq<DirEntry>, n: int)
    requires
        0 <= n <= v.len(),
    ensures
        skills_among(v.take(n)) <= skills_among(v),
    decreases v.len(),
{
    if n < v.len() {
        lemma_skills_among_first(v.drop_last(), n);
        assert(v.drop_last().take(n) =~= v.take(n));
    } else {
        assert(v.take(n) =~= v);
    }
}

/// How many skills the entries hold.
fn count_among(v: &Vec<DirEntry>) -> (r: i64)
    requires
        skills_among(v@) <= i64::MAX,
    ensures
        r == skills_among(v@),
    decreases v,
{
    let mut count: i64 = 0;
    let mut i: usize = 0;
    assert(v@.take(0) =~= Seq::<DirEntry>::empty());
    while i < v.len()
        invariant
            i <= v@.len(),
            skills_among(v@) <= i64::MAX,
            count == skills_among(v@.take(i as int)),
        decreases v@.len() - i,
    {
        proof {
            lemma_skills_among_first(v@, i + 1);
            assert(v@.take(i + 1).drop_last() =~= v@.take(i as int));
            assert(v@.take(i + 1).last() == v@[i as int]);
            assert(skills_among(v@.take(i + 1)) == skills_among(v@.take(i as int)) + skills_at(
                v@[i as int],
            ));
        }
        let e = &v[i];
        match &e.children {
            Some(c) => {
                assert(!is_skipped(opt_text(e.name)) ==> skills_at(*e) == skills_among(c@));
                if !skips_directory(&e.name) {
                    let inner: i64 = count_among(c);
                    count = count + inner;
                }
            },
            None => {
                let is_skill: bool = match &e.name {
                    Some(n) => text_eq(n.as_str(), "SKILL.md"),
                    None => false,
                };
                if is_skill {
                    count = count + 1;
                }
            },
        }
        i = i + 1;
    }
    assert(v@.take(i as int) =~= v@);
    count
}

/// How many skills a directory holds; none where it is not there.
pub open spec fn skills_in(dir: Option<Vec<DirEntry>>) -> nat {
    match dir {
        Some(v) => skills_among(v@),
        None => 0,
    }
}

/// How many skills a directory holds.
pub fn count_profile_skills(dir: &Option<Vec<DirEntry>>) -> (r: i64)
    requires
        skills_in(*dir) <= i64::MAX,
    ensures
        r == skills_in(*dir),
{
    match dir {
        Some(v) => count_among(v),
        None => 0,
    }
}

/// What was found of a profile on the disk.
pub struct ProfileDir {
    pub name: String,
    pub path: String,
    pub config: Option<Value>,
    pub has_env: bool,
    pub skills: Option<Vec<DirEntry>>,
}

/// What is listed of a profile.
#[derive(Debug, PartialEq, Eq)]
pub struct ProfileListEntry {
    pub name: String,
    pub path: String,
    pub is_default: bool,
    pub model: Option<String>,
    pub provider: Option<String>,
    pub has_env: bool,
    pub skill_count: i64,
}

/// The list of the profiles.
#[derive(Debug, PartialEq, Eq)]
pub struct ProfilesListResponse {
    pub profiles: Vec<ProfileListEntry>,
}

/// What is listed of a profile, by its contents.
pub struct ProfileRow {
    pub name: Seq<char>,
    pub path: Seq<char>,
    pub is_default: bool,
    pub model: Option<Seq<char>>,
    pub provider: Option<Seq<char>>,
    pub has_env: bool,
    pub skill_count: int,
}

impl View for ProfileListEntry {
    type V = ProfileRow;

    open spec fn view(&self) -> ProfileRow {
        ProfileRow {
            name: self.name@,
            path: self.path@,
            is_default: self.is_default,
            model: opt_text(self.model),
            provider: opt_text(self.provider),
            has_env: self.has_env,
            skill_count: self.skill_count as int,
        }
    }
}

/// The contents of a list of profiles.
pub open spec fn rows(v: Seq<ProfileListEntry>) -> Seq<ProfileRow> {
    Seq::new(v.len(), |i: int| v[i]@)
}

/// What is listed of a profile that was found, under a name.
pub open spec fn profile_row(d: ProfileDir, name: Seq<char>, is_default: bool) -> ProfileRow {
    let (model, provider) = profile_model(opt_tree(d.config));
    ProfileRow {
        name,
        path: d.path@,
        is_default,
        model,
        provider,
        has_env: d.has_env,
        skill_count: skills_in(d.skills) as int,
    }
}

/// The directories with one more, behind all those whose names do not stand after its name.
pub open spec fn sorted_in(v: Seq<ProfileDir>, x: ProfileDir) -> Seq<ProfileDir>
    decreases v.len(),
{
    if v.len() == 0 || !text_less(x.name@, v.last().name@) {
        v.push(x)
    } else {
        sorted_in(v.drop_last(), x).push(v.last())
    }
}

/// The directories whose names can be those of profiles, in the order of their names.
pub open spec fn profiles_among(v: Seq<ProfileDir>) -> Seq<ProfileDir>
    decreases v.len(),
{
    if v.len() == 0 {
        Seq::empty()
    } else if is_profile_id(v.last().name@) {
        sorted_in(profiles_among(v.drop_last()), v.last())
    } else {
        profiles_among(v.drop_last())
    }
}

/// The list of the profiles: the default one first, where its directory is there, and then
/// those under `profiles`, in the order of their names.
pub open spec fn profile_rows(root: Option<ProfileDir>, dirs: Seq<ProfileDir>) -> Seq<ProfileRow> {
    let named = profiles_among(dirs);
    (match root {
        Some(d) => seq![profile_row(d, "default"@, true)],
        None => Seq::empty(),
    }) + Seq::new(named.len(), |i: int| profile_row(named[i], named[i].name@, false))
}

/// The skills of every directory can be counted.
pub open spec fn skills_countable(v: Seq<ProfileDir>) -> bool {
    forall|i: int| 0 <= i < v.len() ==> skills_in((#[trigger] v[i]).skills) <= i64::MAX
}

/// What is listed of a profile that was found, under a name.
fn list_entry(d: &ProfileDir, name: &str, is_default: bool) -> (r: ProfileListEntry)
    requires
        skills_in(d.skills) <= i64::MAX,
    ensures
        r@ == profile_row(*d, name@, is_default),
{
    let config = match &d.config {
        Some(v) => Some(v),
        None => None,
    };
    let (model, provider) = read_profile_model_provider(config);
    ProfileListEntry {
        name: name.to_owned(),
        path: d.path.clone(),
        is_default,
        model,
        provider,
        has_env: d.has_env,
        skill_count: count_profile_skills(&d.skills),
    }
}

/// The directories at some positions.
spec fn picked(v: Seq<ProfileDir>, order: Seq<usize>) -> Seq<ProfileDir> {
    Seq::new(order.len(), |i: int| v[order[i] as int])
}

/// Putting a directory in at its place.
proof fn lemma_sorted_in(v: Seq<ProfileDir>, x: ProfileDir, p: int)
    requires
        0 <= p <= v.len(),
        p > 0 ==> !text_less(x.name@, v[p - 1].name@),
        forall|i: int| p <= i < v.len() ==> text_less(x.name@, (#[trigger] v[i]).name@),
    ensures
        sorted_in(v, x) == v.insert(p, x),
    decreases v.len(),
{
    if p == v.len() {
        assert(v.insert(p, x) =~= v.push(x));
    } else {
        let front = v.drop_last();
        assert(text_less(x.name@, v[v.len() - 1].name@));
        lemma_sorted_in(front, x, p);
        assert(v.insert(p, x) =~= front.insert(p, x).push(v.last()));
    }
}

/// The positions of the directories whose names can be those of profiles, in the order of
/// their names.
fn profile_order(dirs: &Vec<ProfileDir>) -> (r: Vec<usize>)
    ensures
        forall|i: int| 0 <= i < r@.len() ==> (#[trigger] r@[i]) < dirs@.len(),
        picked(dirs@, r@) == profiles_among(dirs@),
{
    let mut order: Vec<usize> = Vec::new();
    let mut i: usize = 0;
    assert(dirs@.take(0) =~= Seq::<ProfileDir>::empty());
    assert(picked(dirs@, order@) =~= profiles_among(dirs@.take(0)));
    while i < dirs.len()
        invariant
            i <= dirs@.len(),
            forall|j: int| 0 <= j < order@.len() ==> (#[trigger] order@[j]) < i,
            picked(dirs@, order@) == profiles_among(dirs@.take(i as int)),
        decreases dirs@.len() - i,
    {
        proof {
            assert(dirs@.take(i + 1).drop_last() =~= dirs@.take(i as int));
            assert(dirs@.take(i + 1).last() == dirs@[i as int]);
        }
        if is_valid_profile_id(dirs[i].name.as_str()) {
            let ghost before = picked(dirs@, order@);
            let mut p: usize = order.len();
            while p > 0 && text_before(dirs[i].name.as_str(), dirs[order[p - 1]].name.as_str())
                invariant
                    p <= order@.len(),
                    i < dirs@.len(),
                    before == picked(dirs@, order@),
                    forall|j: int| 0 <= j < order@.len() ==> (#[trigger] order@[j]) < i,
                    forall|j: int|
                        p <= j < before.len() ==> text_less(
                            dirs@[i as int].name@,
                            (#[trigger] before[j]).name@,
                        ),
                decreases p,
            {
                p = p - 1;
                assert(before[p as int] == dirs@[order@[p as int] as int]);
            }
            proof {
                if p > 0 {
                    assert(before[p - 1] == dirs@[order@[p - 1] as int]);
                }
                lemma_sorted_in(before, dirs@[i as int], p as int);
            }
            order.insert(p, i);
            assert(picked(dirs@, order@) =~= before.insert(p as int, dirs@[i as int]));
        }
        i = i + 1;
    }
    assert(dirs@.take(i as int) =~= dirs@);
    order
}

/// The list of the profiles, from what was found of the root and under `profiles`.
pub fn get_profiles(root: Option<&ProfileDir>, dirs: &Vec<ProfileDir>) -> (r: ProfilesListResponse)
    requires
        root matches Some(d) ==> skills_in(d.skills) <= i64::MAX,
        skills_countable(dirs@),
    ensures
        rows(r.profiles@) == profile_rows(
            match root {
                Some(d) => Some(*d),
                None => None,
            },
            dirs@,
        ),
{
    let mut profiles: Vec<ProfileListEntry> = Vec::new();
    if let Some(d) = root {
        profiles.push(list_entry(d, "default", true));
    }
    let ghost head = rows(profiles@);
    assert(head =~= match root {
        Some(d) => seq![profile_row(*d, "default"@, true)],
        None => Seq::<ProfileRow>::empty(),
    });
    let order = profile_order(dirs);
    let ghost named = profiles_among(dirs@);
    let mut k: usize = 0;
    while k < order.len()
        invariant
            k <= order@.len(),
            skills_countable(dirs@),
            named == picked(dirs@, order@),
            forall|j: int| 0 <= j < order@.len() ==> (#[trigger] order@[j]) < dirs@.len(),
            rows(profiles@) == head + Seq::new(
                k as nat,
                |i: int| profile_row(named[i], named[i].name@, false),
            ),
        decreases order@.len() - k,
    {
        let ghost before = rows(profiles@);
        let i: usize = order[k];
        assert(named[k as int] == dirs@[i as int]);
        assert(skills_in(dirs@[i as int].skills) <= i64::MAX);
        profiles.push(list_entry(&dirs[i], dirs[i].name.as_str(), false));
        assert(rows(profiles@) =~= before.push(
            profile_row(named[k as int], named[k as int].name@, false),
        ));
        assert(rows(profiles@) =~= head + Seq::new(
            (k + 1) as nat,
            |i: int| profile_row(named[i], named[i].name@, false),
        ));
        k = k + 1;
    }
    ProfilesListResponse { profiles }
}

// ---------------------------------------------------------------------------
// Requests to change a profile
// ---------------------------------------------------------------------------

/// The request to create a profile, for the helper; by default with the settings of the
/// default profile and with skills.
pub open spec fn creation(payload: Tree) -> Result<Tree, Seq<char>> {
    let body = request_body(payload);
    match checked_name(body.text_or("name"@, ""@)) {
        Ok(n) => if n == "default"@ {
            Err("Kan geen profiel 'default' aanmaken."@)
        } else {
            Ok(
                Tree::Table(
                    fields()
                        .push(field("op"@, Tree::Text("create"@)))
                        .push(field("name"@, Tree::Text(n)))
                        .push(field(
                            "clone_from_default"@,
                            Tree::Bool(body.flag_or("clone_from_default"@, true)),
                        ))
                        .push(field("no_skills"@, Tree::Bool(body.flag_or("no_skills"@, false)))),
                ),
            )
        },
        Err(e) => Err(e),
    }
}

/// The request to create a profile, for the helper.
pub fn create_profile(payload: &Value) -> (r: Result<Value, String>)
    ensures
        tree_result(r) == creation(payload@),
{
    let body = body_of(payload);
    let name = body.text_or("name", "");
    match checked_profile_name(name.as_str()) {
        Ok(n) => if text_eq(n.as_str(), "default") {
            Err("Kan geen profiel 'default' aanmaken.".to_owned())
        } else {
            Ok(
                Fields::new()
                    .with("op", text("create"))
                    .with("name", Value::Text(n))
                    .with(
                        "clone_from_default",
                        Value::Bool(body.flag_or("clone_from_default", true)),
                    )
                    .with("no_skills", Value::Bool(body.flag_or("no_skills", false)))
                    .table(),
            )
        },
        Err(e) => Err(e),
    }
}

/// The request to rename a profile, for the helper. Both names are normalized before either is
/// judged.
pub open spec fn renaming(name: Seq<char>, new_name: Seq<char>) -> Result<Tree, Seq<char>> {
    match (normalized_name(name), normalized_name(new_name)) {
        (Err(e), _) => Err(e),
        (Ok(_), Err(e)) => Err(e),
        (Ok(a), Ok(b)) => match (name_verdict(a, debug_shown(a)), name_verdict(b, debug_shown(b))) {
            (Err(e), _) => Err(e),
            (Ok(_), Err(e)) => Err(e),
            (Ok(_), Ok(_)) => if a == "default"@ || b == "default"@ {
                Err("Het standaardprofiel kan niet hernoemd worden."@)
            } else {
                Ok(
                    Tree::Table(
                        fields()
                            .push(field("op"@, Tree::Text("rename"@)))
                            .push(field("old_name"@, Tree::Text(a)))
                            .push(field("new_name"@, Tree::Text(b))),
                    ),
                )
            },
        },
    }
}

/// The request to rename a profile, for the helper.
pub fn rename_profile(name: &str, new_name: &str) -> (r: Result<Value, String>)
    ensures
        tree_result(r) == renaming(name@, new_name@),
{
    let a = match normalize_profile_name(name) {
        Ok(a) => a,
        Err(e) => {
            return Err(e);
        },
    };
    let b = match normalize_profile_name(new_name) {
        Ok(b) => b,
        Err(e) => {
            return Err(e);
        },
    };
    match validate_profile_name_normalized(a.as_str()) {
        Ok(_) => {},
        Err(e) => {
            return Err(e);
        },
    }
    match validate_profile_name_normalized(b.as_str()) {
        Ok(_) => {},
        Err(e) => {
            return Err(e);
        },
    }
    if text_eq(a.as_str(), "default") || text_eq(b.as_str(), "default") {
        return Err("Het standaardprofiel kan niet hernoemd worden.".to_owned());
    }
    Ok(
        Fields::new()
            .with("op", text("rename"))
            .with("old_name", Value::Text(a))
            .with("new_name", Value::Text(b))
            .table(),
    )
}

/// What is said where the default profile is to be deleted.
pub const DEFAULT_STAYS: &'static str =
    "Het standaardprofiel (~/.hermes) kan niet worden verwijderd. \
    Gebruik `hermes uninstall`.";

/// The request to delete a profile, for the helper.
pub open spec fn deletion(name: Seq<char>) -> Result<Tree, Seq<char>> {
    match checked_name(name) {
        Ok(n) => if n == "default"@ {
            Err(DEFAULT_STAYS@)
        } else {
            Ok(
                Tree::Table(
                    fields()
                        .push(field("op"@, Tree::Text("delete"@)))
                        .push(field("name"@, Tree::Text(n))),
                ),
            )
        },
        Err(e) => Err(e),
    }
}

/// The request to delete a profile, for the helper.
pub fn delete_profile(name: &str) -> (r: Result<Value, String>)
    ensures
        tree_result(r) == deletion(name@),
{
    match checked_profile_name(name) {
        Ok(n) => if text_eq(n.as_str(), "default") {
            Err(DEFAULT_STAYS.to_owned())
        } else {
            Ok(Fields::new()
                .with("op", text("delete"))
                .with("name", Value::Text(n))
                .table())
        },
        Err(e) => Err(e),
    }
}

/// No request creates, renames or deletes the default profile, and none gives a profile a name
/// that is not accepted.
pub proof fn law_default_profile_is_safe(payload: Tree, name: Seq<char>, new_name: Seq<char>)
    ensures
        creation(payload) is Ok ==> checked_name(request_body(payload).text_or("name"@, ""@)) is Ok
            && checked_name(request_body(payload).text_or("name"@, ""@)) != Ok::<
            Seq<char>,
            Seq<char>,
        >("default"@),
        renaming(name, new_name) is Ok ==> checked_name(name) is Ok && checked_name(name) != Ok::<
            Seq<char>,
            Seq<char>,
        >("default"@) && checked_name(new_name) is Ok && checked_name(new_name) != Ok::<
            Seq<char>,
            Seq<char>,
        >("default"@),
        deletion(name) is Ok ==> checked_name(name) is Ok && checked_name(name) != Ok::<
            Seq<char>,
            Seq<char>,
        >("default"@),
{
}

// ---------------------------------------------------------------------------
// The set-up command and the soul of a profile
// ---------------------------------------------------------------------------

/// The command that sets a profile up.
#[derive(Debug, PartialEq, Eq)]
pub struct ProfileSetupCommandResponse {
    pub command: String,
}

/// The soul of a profile.
#[derive(Debug, PartialEq, Eq)]
pub struct ProfileSoulResponse {
    pub content: String,
    pub exists: bool,
}

/// The name of a profile that is there: the default one always is, another where its directory
/// is.
pub open spec fn present_name(name: Seq<char>, dir_exists: bool) -> Result<Seq<char>, Seq<char>> {
    match checked_name(name) {
        Ok(n) => if n != "default"@ && !dir_exists {
            Err("Profiel '"@ + n + "' bestaat niet."@)
        } else {
            Ok(n)
        },
        Err(e) => Err(e),
    }
}

/// The name of a profile that is there, from the name and whether its directory is there.
pub fn present_profile(name: &str, dir_exists: bool) -> (r: Result<String, String>)
    ensures
        text_result(r) == present_name(name@, dir_exists),
{
    match checked_profile_name(name) {
        Ok(n) => if !text_eq(n.as_str(), "default") && !dir_exists {
            let mut e = "Profiel '".to_owned();
            e.append(n.as_str());
            e.append("' bestaat niet.");
            Err(e)
        } else {
            Ok(n)
        },
        Err(e) => Err(e),
    }
}

/// The command that sets a profile up.
pub open spec fn setup_command(name: Seq<char>) -> Seq<char> {
    if name == "default"@ {
        "hermes setup"@
    } else {
        name + " setup"@
    }
}

/// The command that sets a profile up.
pub fn get_profile_setup_command(name: &str, dir_exists: bool) -> (r: Result<
    ProfileSetupCommandResponse,
    String,
>)
    ensures
        match r {
            Ok(c) => present_name(name@, dir_exists) is Ok && c.command@ == setup_command(
                present_name(name@, dir_exists)->Ok_0,
            ),
            Err(e) => present_name(name@, dir_exists) == Err::<Seq<char>, Seq<char>>(e@),
        },
{
    match present_profile(name, dir_exists) {
        Ok(n) => {
            let command = if text_eq(n.as_str(), "default") {
                "hermes setup".to_owned()
            } else {
                let mut c = n;
                c.append(" setup");
                c
            };
            Ok(ProfileSetupCommandResponse { command })
        },
        Err(e) => Err(e),
    }
}

/// The soul of a profile: what its file holds, where it is there; `soul` is the outcome of
/// reading it.
pub fn get_profile_soul(
    name: &str,
    dir_exists: bool,
    soul: Option<Result<String, String>>,
) -> (r: Result<ProfileSoulResponse, String>)
    ensures
        match present_name(name@, dir_exists) {
            Err(e) => r matches Err(x) && x@ == e,
            Ok(_) => match soul {
                Some(Ok(s)) => r matches Ok(p) && p.exists && p.content@ == s@,
                Some(Err(e)) => r matches Err(x) && x@ == e@,
                None => r matches Ok(p) && !p.exists && p.content@ == Seq::<char>::empty(),
            },
        },
{
    match present_profile(name, dir_exists) {
        Ok(_) => match soul {
            Some(Ok(content)) => Ok(ProfileSoulResponse { content, exists: true }),
            Some(Err(e)) => Err(e),
            None => Ok(ProfileSoulResponse { content: String::new(), exists: false }),
        },
        Err(e) => Err(e),
    }
}

/// Whether the soul of a profile may be written.
pub fn update_profile_soul(name: &str, dir_exists: bool) -> (r: Result<(), String>)
    ensures
        match present_name(name@, dir_exists) {
            Ok(_) => r is Ok,
            Err(e) => r matches Err(x) && x@ == e,
        },
{
    match present_profile(name, dir_exists) {
        Ok(_) => Ok(()),
        Err(e) => Err(e),
    }
}

/// No name stands after one that should follow it.
spec fn names_rise(v: Seq<ProfileDir>) -> bool {
    forall|i: int, j: int|
        0 <= i < j < v.len() ==> !text_less((#[trigger] v[j]).name@, (#[trigger] v[i]).name@)
}

/// Where a name does not stand before another, and that not before a third, the first does not
/// stand before the third.
proof fn lemma_not_before(a: Seq<char>, b: Seq<char>, c: Seq<char>)
    requires
        !text_less(b, a),
        !text_less(c, b),
    ensures
        !text_less(c, a),
{
    law_text_less_total(a, b);
    law_text_less_total(b, c);
    law_text_less_total(a, c);
    if text_less(c, a) {
        if a != b {
            law_text_less_trans(c, a, b);
        }
    }
}

/// Putting a directory in keeps the order of the names.
proof fn lemma_sorted_in_order(v: Seq<ProfileDir>, x: ProfileDir)
    requires
        names_rise(v),
    ensures
        names_rise(sorted_in(v, x)),
        sorted_in(v, x).to_multiset() == v.to_multiset().insert(x),
        forall|i: int|
            0 <= i < sorted_in(v, x).len() ==> (#[trigger] sorted_in(v, x)[i]) == x || v.contains(
                sorted_in(v, x)[i],
            ),
    decreases v.len(),
{
    broadcast use vstd::seq_lib::group_to_multiset_ensures;

    if v.len() == 0 || !text_less(x.name@, v.last().name@) {
        let r = v.push(x);
        assert forall|i: int, j: int| 0 <= i < j < r.len() implies !text_less(
            (#[trigger] r[j]).name@,
            (#[trigger] r[i]).name@,
        ) by {
            if j == v.len() {
                if i < v.len() - 1 {
                    assert(!text_less(v[v.len() - 1].name@, v[i].name@));
                    lemma_not_before(v[i].name@, v.last().name@, x.name@);
                }
            }
        }
        assert forall|i: int| 0 <= i < r.len() implies (#[trigger] r[i]) == x || v.contains(
            r[i],
        ) by {
            if i < v.len() {
                assert(r[i] == v[i]);
            }
        }
    } else {
        let front = v.drop_last();
        let y = v.last();
        assert(names_rise(front)) by {
            assert forall|i: int, j: int| 0 <= i < j < front.len() implies !text_less(
                (#[trigger] front[j]).name@,
                (#[trigger] front[i]).name@,
            ) by {
                assert(!text_less(v[j].name@, v[i].name@));
            }
        }
        lemma_sorted_in_order(front, x);
        let inner = sorted_in(front, x);
        let r = inner.push(y);
        assert forall|i: int| 0 <= i < r.len() implies (#[trigger] r[i]) == x || v.contains(
            r[i],
        ) by {
            if i < inner.len() {
                assert(inner[i] == x || front.contains(inner[i]));
                if inner[i] != x {
                    let k = choose|k: int| 0 <= k < front.len() && front[k] == inner[i];
                    assert(v[k] == r[i]);
                }
            } else {
                assert(v[v.len() - 1] == r[i]);
            }
        }
        assert forall|i: int, j: int| 0 <= i < j < r.len() implies !text_less(
            (#[trigger] r[j]).name@,
            (#[trigger] r[i]).name@,
        ) by {
            if j == inner.len() {
                assert(inner[i] == x || front.contains(inner[i]));
                if inner[i] == x {
                    law_text_less_total(x.name@, y.name@);
                } else {
                    let k = choose|k: int| 0 <= k < front.len() && front[k] == inner[i];
                    assert(!text_less(v[v.len() - 1].name@, v[k].name@));
                }
            } else {
                assert(!text_less(inner[j].name@, inner[i].name@));
            }
        }
        assert(front.push(y) =~= v);
        assert(r.to_multiset() =~= v.to_multiset().insert(x));
    }
}

/// The profiles that are listed are those directories whose names can be those of profiles,
/// each as often as it was found, in the order of their names.
pub proof fn law_listed_profiles(v: Seq<ProfileDir>)
    ensures
        forall|i: int, j: int|
            0 <= i < j < profiles_among(v).len() ==> !text_less(
                (#[trigger] profiles_among(v)[j]).name@,
                (#[trigger] profiles_among(v)[i]).name@,
            ),
        profiles_among(v).to_multiset() == v.filter(
            |d: ProfileDir| is_profile_id(d.name@),
        ).to_multiset(),
    decreases v.len(),
{
    broadcast use vstd::seq_lib::group_to_multiset_ensures;

    let p = |d: ProfileDir| is_profile_id(d.name@);
    reveal(Seq::filter);
    if v.len() > 0 {
        let front = v.drop_last();
        law_listed_profiles(front);
        if is_profile_id(v.last().name@) {
            lemma_sorted_in_order(profiles_among(front), v.last());
            assert(v.filter(p) == front.filter(p).push(v.last()));
        } else {
            assert(v.filter(p) == front.filter(p));
        }
    } else {
        assert(v.filter(p) =~= Seq::empty());
        assert(profiles_among(v) =~= Seq::empty());
    }
}

/// A character that the name of a profile can hold.
pub open spec fn is_name_char(c: char) -> bool {
    'a' <= c <= 'z' || '0' <= c <= '9' || c == '_' || c == '-'
}

/// A character of a name is a small letter, a digit, an underscore or a dash.
proof fn lemma_name_char(c: char)
    ensures
        is_name_char(c) <==> is_name_start(c) || c == '_' || c == '-',
        is_name_start(c) ==> c != '_' && c != '-',
{
}

/// What can be the name of a profile: one to sixty-four small letters, digits, underscores and
/// dashes, of which the first is neither an underscore nor a dash.
pub proof fn law_profile_id(s: Seq<char>)
    ensures
        is_profile_id(s) <==> 1 <= s.len() <= 64 && s[0] != '_' && s[0] != '-' && (forall|i: int|
            0 <= i < s.len() ==> is_name_char(#[trigger] s[i])),
{
    if is_profile_id(s) {
        assert forall|i: int| 0 <= i < s.len() implies is_name_char(#[trigger] s[i]) by {
            lemma_name_char(s[i]);
            if i > 0 {
                assert(is_name_start(s[i]) || s[i] == '_' || s[i] == '-');
            }
        }
        lemma_name_char(s[0]);
    }
    if 1 <= s.len() <= 64 && s[0] != '_' && s[0] != '-' && (forall|i: int|
        0 <= i < s.len() ==> is_name_char(#[trigger] s[i])) {
        assert(is_name_char(s[0]));
        lemma_name_char(s[0]);
        assert forall|i: int| 0 < i < s.len() implies is_name_start(#[trigger] s[i]) || s[i] == '_'
            || s[i] == '-' by {
            assert(is_name_char(s[i]));
            lemma_name_char(s[i]);
        }
    }
}

/// A name is accepted where it is `default`, or can be the name of a profile and is none of the
/// five that are reserved; the complaint tells which of the two is wrong, and shows the name.
pub proof fn law_name_verdict(name: Seq<char>, quoted: Seq<char>)
    ensures
        ({
            let reserved = name == "hermes"@ || name == "test"@ || name == "tmp"@ || name == "root"@
                || name == "sudo"@;
            &&& name_verdict(name, quoted) is Ok <==> name == "default"@ || is_profile_id(name)
                && !reserved
            &&& name != "default"@ && !is_profile_id(name) ==> name_verdict(name, quoted) == Err::<
                (),
                Seq<char>,
            >(
                "Ongeldige profielnaam "@ + quoted
                    + ". Moet voldoen aan [a-z0-9][a-z0-9_-]{0,63}"@,
            )
            &&& is_profile_id(name) && reserved ==> name_verdict(name, quoted) == Err::<
                (),
                Seq<char>,
            >("Profielnaam "@ + quoted + " is gereserveerd."@)
        }),
{
    let r = reserved_names();
    assert(r[0] == "hermes"@ && r[1] == "test"@ && r[2] == "tmp"@ && r[3] == "root"@ && r[4]
        == "sudo"@);
    if r.contains(name) {
        let i = choose|i: int| 0 <= i < r.len() && r[i] == name;
        assert(i == 0 || i == 1 || i == 2 || i == 3 || i == 4);
    }
    reveal_strlit("default");
    reveal_strlit("hermes");
    reveal_strlit("test");
    reveal_strlit("tmp");
    reveal_strlit("root");
    reveal_strlit("sudo");
    assert("default"@.len() == 7 && "hermes"@.len() == 6 && "test"@.len() == 4 && "tmp"@.len() == 3
        && "root"@.len() == 4 && "sudo"@.len() == 4);
}

/// Where what a name holds beside white space is ASCII, the profile is called by that in small
/// letters, and the name is accepted just where that is.
pub proof fn law_checked_name(name: Seq<char>)
    requires
        all_ascii(trim(name)),
        trim(name).len() > 0,
    ensures
        ({
            let n = in_small_letters(trim(name));
            &&& name_verdict(n, debug_shown(n)) is Ok ==> checked_name(name) == Ok::<
                Seq<char>,
                Seq<char>,
            >(n)
            &&& name_verdict(n, debug_shown(n)) matches Err(e) ==> checked_name(name) == Err::<
                Seq<char>,
                Seq<char>,
            >(e)
        }),
{
    law_normalized_name(name);
}

/// A blank name is refused.
pub proof fn law_blank_name(name: Seq<char>)
    requires
        trim(name) == Seq::<char>::empty(),
    ensures
        normalized_name(name) == Err::<Seq<char>, Seq<char>>("profielnaam mag niet leeg zijn"@),
        checked_name(name) == Err::<Seq<char>, Seq<char>>("profielnaam mag niet leeg zijn"@),
{
}

/// Where the configuration gives the model as a text, that is its name, and no provider is known;
/// where it gives a table, the name is what stands there under `default`, or else under `model`,
/// or else under `name`, and the provider what stands under `provider`.
pub proof fn law_profile_model(cfg: Tree, m: Seq<(Tree, Tree)>, name: Seq<char>)
    ensures
        profile_model(None) == (None::<Seq<char>>, None::<Seq<char>>),
        !(cfg.member("model"@) matches Some(t) && (t is Text || t is Table)) ==> profile_model(
            Some(cfg),
        ) == (None::<Seq<char>>, None::<Seq<char>>),
        cfg.member("model"@) == Some(Tree::Text(name)) ==> profile_model(Some(cfg)) == (
            Some(name),
            None::<Seq<char>>,
        ),
        cfg.member("model"@) == Some(Tree::Table(m)) ==> ({
            let found = profile_model(Some(cfg));
            &&& get(m, "default"@) matches Some(t) ==> found.0 == t.as_text()
            &&& get(m, "default"@) is None ==> (get(m, "model"@) matches Some(t) ==> found.0
                == t.as_text())
            &&& get(m, "default"@) is None && get(m, "model"@) is None ==> (get(m, "name"@) matches
                Some(t) ==> found.0 == t.as_text())
            &&& get(m, "default"@) is None && get(m, "model"@) is None && get(m, "name"@) is None
                ==> found.0 is None
            &&& get(m, "provider"@) matches Some(t) ==> found.1 == t.as_text()
            &&& get(m, "provider"@) is None ==> found.1 is None
        }),
{
}

/// A file counts as a skill just where its name is `SKILL.md`; a directory counts as what is in
/// it, unless its name is `.hub` or `.git`; and entries count as much as they do one by one.
pub proof fn law_skills_counted(e: DirEntry, a: Seq<DirEntry>, b: Seq<DirEntry>)
    ensures
        skills_in(None) == 0,
        skills_among(Seq::empty()) == 0,
        skills_among(seq![e]) == skills_at(e),
        skills_among(a + b) == skills_among(a) + skills_among(b),
        e.children is None && (e.name matches Some(n) && n@ == "SKILL.md"@) ==> skills_at(e) == 1,
        e.children is None && !(e.name matches Some(n) && n@ == "SKILL.md"@) ==> skills_at(e) == 0,
        e.children is Some && (e.name matches Some(n) && (n@ == ".hub"@ || n@ == ".git"@))
            ==> skills_at(e) == 0,
        e.children matches Some(c) ==> (!(e.name matches Some(n) && (n@ == ".hub"@ || n@
            == ".git"@)) ==> skills_at(e) == skills_among(c@)),
    decreases b.len(),
{
    reveal_with_fuel(skills_among, 2);
    assert(seq![e].drop_last() =~= Seq::<DirEntry>::empty());
    assert(seq![e].last() == e);
    if b.len() == 0 {
        assert(a + b =~= a);
    } else {
        assert((a + b).drop_last() =~= a + b.drop_last());
        assert((a + b).last() == b.last());
        law_skills_counted(e, a, b.drop_last());
    }
}

/// What is listed of a profile: its path, whether it has a file of variables, how many skills it
/// holds, and the model and the provider that its configuration names.
pub proof fn law_profile_row(d: ProfileDir, name: Seq<char>, is_default: bool)
    ensures
        ({
            let row = profile_row(d, name, is_default);
            &&& row.name == name
            &&& row.path == d.path@
            &&& row.is_default == is_default
            &&& row.has_env == d.has_env
            &&& row.skill_count == skills_in(d.skills)
            &&& d.config matches Some(c) ==> (row.model, row.provider) == profile_model(Some(c@))
            &&& d.config is None ==> row.model is None && row.provider is None
        }),
{
}

/// Where the root is there, the default profile is listed, and first; the others follow under
/// the names of their directories, and none of them is the default one.
pub proof fn law_profile_rows(root: ProfileDir, dirs: Seq<ProfileDir>, i: int)
    ensures
        ({
            let named = profiles_among(dirs);
            &&& profile_rows(Some(root), dirs).len() == named.len() + 1
            &&& profile_rows(Some(root), dirs)[0] == profile_row(root, "default"@, true)
            &&& 0 <= i < named.len() ==> profile_rows(Some(root), dirs)[i + 1] == profile_row(
                named[i],
                named[i].name@,
                false,
            )
            &&& profile_rows(None, dirs).len() == named.len()
            &&& 0 <= i < named.len() ==> profile_rows(None, dirs)[i] == profile_row(
                named[i],
                named[i].name@,
                false,
            )
        }),
{
}

/// The request to create a profile is made just where the name is accepted and not `default`. It
/// holds the name, and whether the settings of the default profile are taken over and skills
/// left out, as the body says; the first is done and the second not where it says nothing.
pub proof fn law_creation(payload: Tree, n: Seq<char>, b: bool)
    requires
        checked_name(request_body(payload).text_or("name"@, Seq::empty())) == Ok::<
            Seq<char>,
            Seq<char>,
        >(n),
    ensures
        n == "default"@ ==> creation(payload) == Err::<Tree, Seq<char>>(
            "Kan geen profiel 'default' aanmaken."@,
        ),
        n != "default"@ ==> ({
            let body = request_body(payload);
            &&& creation(payload) is Ok
            &&& creation(payload)->Ok_0 is Table
            &&& creation(payload)->Ok_0.member("op"@) == Some(Tree::Text("create"@))
            &&& creation(payload)->Ok_0.member("name"@) == Some(Tree::Text(n))
            &&& (body.member("clone_from_default"@) matches Some(v) && v.as_bool() == Some(b))
                ==> creation(payload)->Ok_0.member("clone_from_default"@) == Some(Tree::Bool(b))
            &&& !(body.member("clone_from_default"@) matches Some(v) && v.as_bool() is Some)
                ==> creation(payload)->Ok_0.member("clone_from_default"@) == Some(Tree::Bool(true))
            &&& (body.member("no_skills"@) matches Some(v) && v.as_bool() == Some(b)) ==> creation(
                payload,
            )->Ok_0.member("no_skills"@) == Some(Tree::Bool(b))
            &&& !(body.member("no_skills"@) matches Some(v) && v.as_bool() is Some) ==> creation(
                payload,
            )->Ok_0.member("no_skills"@) == Some(Tree::Bool(false))
        }),
{
    reveal_strlit("");
    assert(""@ =~= Seq::<char>::empty());
    if n != "default"@ {
        let e = creation(payload)->Ok_0->Table_0;
        reveal_strlit("op");
        reveal_strlit("name");
        reveal_strlit("clone_from_default");
        reveal_strlit("no_skills");
        assert("op"@.len() == 2);
        assert("name"@.len() == 4);
        assert("clone_from_default"@.len() == 18);
        assert("no_skills"@.len() == 9);
        lemma_key_index_is(e, "op"@, 0);
        lemma_key_index_is(e, "name"@, 1);
        lemma_key_index_is(e, "clone_from_default"@, 2);
        lemma_key_index_is(e, "no_skills"@, 3);
    }
}

/// The request to rename a profile is made just where both names are accepted and neither is
/// `default`; it holds the name that the profile has and the one that it gets.
pub proof fn law_renaming(name: Seq<char>, new_name: Seq<char>)
    ensures
        ({
            let a = checked_name(name);
            let b = checked_name(new_name);
            &&& renaming(name, new_name) is Ok <==> a is Ok && b is Ok && a->Ok_0 != "default"@
                && b->Ok_0 != "default"@
            &&& renaming(name, new_name) matches Ok(t) ==> {
                &&& t is Table
                &&& t.member("op"@) == Some(Tree::Text("rename"@))
                &&& t.member("old_name"@) == Some(Tree::Text(a->Ok_0))
                &&& t.member("new_name"@) == Some(Tree::Text(b->Ok_0))
            }
            &&& a is Ok && b is Ok && (a->Ok_0 == "default"@ || b->Ok_0 == "default"@) ==> renaming(
                name,
                new_name,
            ) == Err::<Tree, Seq<char>>("Het standaardprofiel kan niet hernoemd worden."@)
            &&& b is Ok ==> (a matches Err(e) ==> renaming(name, new_name) == Err::<
                Tree,
                Seq<char>,
            >(e))
            &&& a is Ok ==> (b matches Err(e) ==> renaming(name, new_name) == Err::<
                Tree,
                Seq<char>,
            >(e))
        }),
{
    if renaming(name, new_name) is Ok {
        let e = renaming(name, new_name)->Ok_0->Table_0;
        reveal_strlit("op");
        reveal_strlit("old_name");
        reveal_strlit("new_name");
        assert("op"@.len() == 2);
        assert("old_name"@.len() == 8);
        assert("new_name"@.len() == 8);
        assert("old_name"@[0] != "new_name"@[0]);
        lemma_key_index_is(e, "op"@, 0);
        lemma_key_index_is(e, "old_name"@, 1);
        lemma_key_index_is(e, "new_name"@, 2);
    }
}

/// The request to delete a profile is made just where the name is accepted and not `default`,
/// and it holds that name.
pub proof fn law_profile_deletion(name: Seq<char>)
    ensures
        ({
            let n = checked_name(name);
            &&& deletion(name) is Ok <==> n is Ok && n->Ok_0 != "default"@
            &&& deletion(name) matches Ok(t) ==> {
                &&& t is Table
                &&& t.member("op"@) == Some(Tree::Text("delete"@))
                &&& t.member("name"@) == Some(Tree::Text(n->Ok_0))
            }
            &&& n matches Err(e) ==> deletion(name) == Err::<Tree, Seq<char>>(e)
            &&& n is Ok && n->Ok_0 == "default"@ ==> deletion(name) == Err::<Tree, Seq<char>>(
                DEFAULT_STAYS@,
            )
        }),
{
    if deletion(name) is Ok {
        let e = deletion(name)->Ok_0->Table_0;
        reveal_strlit("op");
        reveal_strlit("name");
        assert("op"@.len() == 2);
        assert("name"@.len() == 4);
        lemma_key_index_is(e, "op"@, 0);
        lemma_key_index_is(e, "name"@, 1);
    }
}

/// A profile is there where its name is accepted and its directory is there; the default one
/// needs no directory. Its command is made of its name, and that of the default one of `hermes`.
pub proof fn law_present_name(name: Seq<char>, dir_exists: bool, n: Seq<char>)
    ensures
        checked_name(name) matches Err(e) ==> present_name(name, dir_exists) == Err::<
            Seq<char>,
            Seq<char>,
        >(e),
        checked_name(name) == Ok::<Seq<char>, Seq<char>>(n) ==> {
            &&& present_name(name, true) == Ok::<Seq<char>, Seq<char>>(n)
            &&& n == "default"@ ==> present_name(name, false) == Ok::<Seq<char>, Seq<char>>(n)
            &&& n != "default"@ ==> present_name(name, false) == Err::<Seq<char>, Seq<char>>(
                "Profiel '"@ + n + "' bestaat niet."@,
            )
        },
        n == "default"@ ==> setup_command(n) == "hermes"@ + " setup"@,
        n != "default"@ ==> setup_command(n) == n + " setup"@,
{
    reveal_strlit("hermes setup");
    reveal_strlit("hermes");
    reveal_strlit(" setup");
    assert("hermes setup"@ =~= "hermes"@ + " setup"@);
}

/// What is listed of a profile stands in the entry as it is.
pub proof fn law_list_entry(e: ProfileListEntry)
    ensures
        e@.name == e.name@,
        e@.path == e.path@,
        e@.is_default == e.is_default,
        e.model matches Some(s) ==> e@.model == Some(s@),
        e.model is None ==> e@.model is None,
        e.provider matches Some(s) ==> e@.provider == Some(s@),
        e.provider is None ==> e@.provider is None,
        e@.has_env == e.has_env,
        e@.skill_count == e.skill_count,
{
}

} // verus!
