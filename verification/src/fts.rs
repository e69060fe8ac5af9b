//! Making a search text safe for a full-text `MATCH`: quoted phrases are kept as they
//! are, the operators of the query language that stand free are taken out, and terms with
//! dots, dashes or underscores are quoted.
use vstd::prelude::*;
use vstd::string::*;

use crate::fts_proof::{
    lemma_interleaved, lemma_letters_kept, lemma_no_bare_term, lemma_no_joint,
    lemma_no_leading_star, lemma_no_stars, lemma_operator_first, lemma_operator_last,
    lemma_plain_query, lemma_run_of_stars, lemma_sanitized, lemma_settled, lemma_specials,
    lemma_star_kept, lemma_star_last, lemma_starless_terms, lemma_stars_concat, lemma_terms,
    lemma_terms_are_quoted, lemma_terms_first, lemma_terms_last, lemma_there_and_back,
};
use crate::text::{
    all_ascii, ascii_lower, contains, decimal, digit, find_from, find_text, index_of,
    is_white_space, law_trim, lemma_find_from, lemma_index_of, lemma_index_of_is,
    lemma_trim_is, numeral, occurs_at, replace, replaced, texts, trim, trim_end, trim_start,
    trimmed, trimmed_end,
};

verus! {

/// A phrase in double quotes.
pub const QUOTED: &'static str = "\"[^\"]*\"";

/// A character with a meaning of its own in a query.
pub const SPECIAL: &'static str = "[+{}()\\\"^]";

/// A run of asterisks.
pub const STARS: &'static str = "\\*+";

/// An asterisk at the start of a word.
pub const LEADING_STAR: &'static str = "(^|\\s)\\*";

/// An operator at the start of the query.
pub const LEADING_OPERATOR: &'static str = "(?i)^(AND|OR|NOT)\\b\\s*";

/// An operator at the end of the query.
pub const TRAILING_OPERATOR: &'static str = "(?i)\\s+(AND|OR|NOT)\\s*$";

/// A term whose parts are joined by dots, underscores or dashes.
pub const JOINED_TERM: &'static str = "\\b(\\w+(?:[._-]\\w+)+)\\b";

/// The first group of a match, in double quotes.
pub const QUOTE_FIRST_GROUP: &'static str = "\"$1\"";

// ---------------------------------------------------------------------------
// What is taken out and what is kept
// ---------------------------------------------------------------------------

/// The phrases in double quotes: from each quote to the next, from the left.
pub open spec fn phrases(s: Seq<char>) -> Seq<Seq<char>>
    decreases s.len(),
{
    let i = index_of(s, '"');
    let rest = s.skip(i + 1);
    let j = index_of(rest, '"');
    if 0 <= i < s.len() && 0 <= j < rest.len() {
        seq![s.subrange(i, i + j + 2)] + phrases(rest.skip(j + 1))
    } else {
        Seq::empty()
    }
}

/// The texts before, between and behind the phrases.
pub open spec fn gaps(s: Seq<char>) -> Seq<Seq<char>>
    decreases s.len(),
{
    let i = index_of(s, '"');
    let rest = s.skip(i + 1);
    let j = index_of(rest, '"');
    if 0 <= i < s.len() && 0 <= j < rest.len() {
        seq![s.take(i)] + gaps(rest.skip(j + 1))
    } else {
        seq![s]
    }
}

/// What stands for the phrase with the number `k` while the rest of the query is worked on.
pub open spec fn placeholder(k: nat) -> Seq<char> {
    seq!['\0', 'Q'] + decimal(k) + seq!['\0']
}

/// A text before the phrase with the number `k` cannot be taken for a part of the placeholder of
/// an earlier phrase.
pub open spec fn is_clear(gap: Seq<char>, k: nat) -> bool {
    forall|j: nat| j + 1 < k ==> gap != seq!['Q'] + #[trigger] decimal(j)
}

/// Nothing in the query can be taken for a placeholder.
pub open spec fn holds_no_mark(s: Seq<char>) -> bool {
    &&& !s.contains('\0')
    &&& forall|i: int| 0 <= i < phrases(s).len() ==> is_clear(#[trigger] gaps(s)[i], i as nat)
}

/// How many double quotes the text holds.
pub open spec fn quote_count(s: Seq<char>) -> nat
    decreases s.len(),
{
    if s.len() == 0 {
        0
    } else if s.last() == '"' {
        quote_count(s.drop_last()) + 1
    } else {
        quote_count(s.drop_last())
    }
}

/// The double quotes of the text come in pairs, and every other special character stands between
/// the two of a pair.
pub open spec fn is_well_quoted(s: Seq<char>) -> bool {
    &&& quote_count(s) % 2 == 0
    &&& forall|i: int|
        0 <= i < s.len() && is_special(#[trigger] s[i]) && s[i] != '"' ==> quote_count(s.take(i))
            % 2 == 1
}

/// No two asterisks stand side by side outside of the double quotes.
pub open spec fn has_single_stars(s: Seq<char>) -> bool {
    forall|i: int|
        0 <= i < s.len() - 1 && quote_count(s.take(i)) % 2 == 0 ==> !(#[trigger] s[i] == '*'
            && s[i + 1] == '*')
}

/// The query with a placeholder for every phrase, the first with the number `k`.
pub open spec fn masked(s: Seq<char>, k: nat) -> Seq<char>
    decreases s.len(),
{
    let i = index_of(s, '"');
    let rest = s.skip(i + 1);
    let j = index_of(rest, '"');
    if 0 <= i < s.len() && 0 <= j < rest.len() {
        s.take(i) + placeholder(k) + masked(rest.skip(j + 1), k + 1)
    } else {
        s
    }
}

/// The text with each of the phrases, one after the other from the left, exchanged for a
/// placeholder.
pub open spec fn cut_phrases(s: Seq<char>, ps: Seq<Seq<char>>, k: nat) -> Seq<char>
    decreases ps.len(),
{
    if ps.len() == 0 {
        s
    } else {
        match find_from(s, ps[0], 0) {
            Some(i) => s.take(i) + placeholder(k) + cut_phrases(
                s.skip(i + ps[0].len()),
                ps.drop_first(),
                k + 1,
            ),
            None => s,
        }
    }
}

/// The text with the placeholders exchanged for the phrases again, one number after the
/// other.
pub open spec fn restored(s: Seq<char>, ps: Seq<Seq<char>>, n: nat) -> Seq<char>
    decreases n,
{
    if n == 0 || n > ps.len() {
        s
    } else {
        replace(restored(s, ps, (n - 1) as nat), placeholder((n - 1) as nat), ps[n - 1])
    }
}

/// A character with a meaning of its own in a query.
pub open spec fn is_special(c: char) -> bool {
    c == '+' || c == '{' || c == '}' || c == '(' || c == ')' || c == '"' || c == '^'
}

/// The text with a space for every special character.
pub open spec fn without_special(s: Seq<char>) -> Seq<char> {
    s.map_values(
        |c: char|
            if is_special(c) {
                ' '
            } else {
                c
            },
    )
}

/// The text with one asterisk for every run of them.
pub open spec fn single_stars(s: Seq<char>) -> Seq<char>
    decreases s.len(),
{
    if s.len() < 2 {
        s
    } else if s.last() == '*' && s[s.len() - 2] == '*' {
        single_stars(s.drop_last())
    } else {
        single_stars(s.drop_last()).push(s.last())
    }
}

/// The text without the asterisks that follow white space.
pub open spec fn without_spaced_stars(s: Seq<char>) -> Seq<char>
    decreases s.len(),
{
    if s.len() < 2 {
        s
    } else if is_white_space(s[0]) && s[1] == '*' {
        seq![s[0]] + without_spaced_stars(s.skip(2))
    } else {
        seq![s[0]] + without_spaced_stars(s.skip(1))
    }
}

/// The text without the asterisks that stand at the start of a word.
pub open spec fn without_leading_stars(s: Seq<char>) -> Seq<char> {
    if s.len() > 0 && s[0] == '*' {
        without_spaced_stars(s.skip(1))
    } else {
        without_spaced_stars(s)
    }
}

/// The terms of the query: its phrases exchanged for placeholders, without special
/// characters, without asterisks at the start of words, and without white space around it.
pub open spec fn terms(s: Seq<char>) -> Seq<char> {
    trim(without_leading_stars(single_stars(without_special(masked(s, 0)))))
}

/// The word is an operator, in small or capital letters.
pub open spec fn is_operator(w: Seq<char>) -> bool {
    let l = w.map_values(|c: char| ascii_lower(c));
    l == seq!['a', 'n', 'd'] || l == seq!['o', 'r'] || l == seq!['n', 'o', 't']
}

/// The length of the operator that the text starts with; zero where it starts with none.
pub open spec fn leading_operator(s: Seq<char>) -> int {
    if s.len() >= 3 && is_operator(s.take(3)) {
        3
    } else if s.len() >= 2 && is_operator(s.take(2)) {
        2
    } else {
        0
    }
}

/// An ASCII letter, an ASCII digit or the underscore.
pub open spec fn is_ascii_word(c: char) -> bool {
    48 <= c as u32 <= 57 || 65 <= c as u32 <= 90 || 97 <= c as u32 <= 122 || c == '_'
}

/// Whether the operator that the text starts with is a word of its own can be told without
/// the table of word characters beyond ASCII.
pub open spec fn start_is_settled(s: Seq<char>) -> bool {
    let n = leading_operator(s);
    n == 0 || n == s.len() || (s[n] as u32) < 128
}

/// The text without the operator that it starts with, where a word of its own, and the white
/// space behind it.
pub open spec fn without_leading_operator(s: Seq<char>) -> Seq<char> {
    let n = leading_operator(s);
    if n == 0 || (n < s.len() && is_ascii_word(s[n])) {
        s
    } else {
        trim_start(s.skip(n))
    }
}

/// Where the last word of a text starts.
pub open spec fn last_word(s: Seq<char>) -> int
    decreases s.len(),
{
    if s.len() == 0 || is_white_space(s.last()) {
        s.len() as int
    } else {
        last_word(s.drop_last())
    }
}

/// The text without the operator that it ends with and the white space around it, where
/// there is white space before it.
pub open spec fn without_trailing_operator(s: Seq<char>) -> Seq<char> {
    let t = trim_end(s);
    let p = last_word(t);
    if 0 < p && is_operator(t.skip(p)) {
        trim_end(t.take(p))
    } else {
        s
    }
}

/// The text holds a character that joins the parts of a term.
pub open spec fn has_joint(s: Seq<char>) -> bool {
    s.contains('.') || s.contains('_') || s.contains('-')
}

/// A letter, a digit or a joint; beyond ASCII, any character.
pub open spec fn is_term_char(c: char) -> bool {
    is_ascii_word(c) || c == '.' || c == '-' || c as u32 >= 128
}

/// The text with double quotes around what stands from `a` to `b`.
pub open spec fn quoted_between(s: Seq<char>, a: int, b: int) -> Seq<char> {
    s.take(a) + (seq!['"'] + s.subrange(a, b) + seq!['"']) + s.skip(b)
}

/// The text with double quotes around each of the stretches, which are given from the left.
pub open spec fn quoted_at(s: Seq<char>, cuts: Seq<(int, int)>) -> Seq<char>
    decreases cuts.len(),
{
    if cuts.len() == 0 {
        s
    } else {
        quoted_at(quoted_between(s, cuts.last().0, cuts.last().1), cuts.drop_last())
    }
}

/// A dot or a dash: a joint that is no word character.
pub open spec fn is_dot_or_dash(c: char) -> bool {
    c == '.' || c == '-'
}

/// A character that is no word character: one of ASCII that is none, or white space.
#[verifier::opaque]
pub open spec fn is_gap_char(c: char) -> bool {
    !is_ascii_word(c) && ((c as u32) < 128 || is_white_space(c))
}

/// No term goes over the position `a`: what stands before it is no word character, and no joint
/// behind one.
pub open spec fn starts_term(s: Seq<char>, a: int) -> bool {
    a == 0 || is_gap_char(s[a - 1]) && (is_dot_or_dash(s[a - 1]) ==> a == 1 || is_gap_char(
        s[a - 2],
    ))
}

/// No term goes over the position `b`: what stands from there on is no word character, and no
/// joint before one.
pub open spec fn ends_term(s: Seq<char>, b: int) -> bool {
    b == s.len() || is_gap_char(s[b]) && (is_dot_or_dash(s[b]) ==> b + 1 == s.len() || is_gap_char(
        s[b + 1],
    ))
}

/// From `a` to `b` stands a whole term of two or more parts, each of ASCII word characters, with
/// a dot, a dash or an underscore between any two.
#[verifier::opaque]
pub open spec fn is_joined_term(s: Seq<char>, a: int, b: int) -> bool {
    &&& 0 <= a < b <= s.len()
    &&& is_ascii_word(s[a])
    &&& is_ascii_word(s[b - 1])
    &&& forall|j: int| a <= j < b ==> is_ascii_word(#[trigger] s[j]) || is_dot_or_dash(s[j])
    &&& forall|j: int|
        a <= j < b - 1 ==> !(is_dot_or_dash(#[trigger] s[j]) && is_dot_or_dash(s[j + 1]))
    &&& exists|j: int| a < j < b - 1 && (is_dot_or_dash(#[trigger] s[j]) || s[j] == '_')
    &&& starts_term(s, a)
    &&& ends_term(s, b)
}

/// The text holds `w` as a whole joined term.
pub open spec fn holds_term(s: Seq<char>, w: Seq<char>) -> bool {
    exists|a: int| #[trigger] is_joined_term(s, a, a + w.len()) && s.subrange(a, a + w.len()) == w
}

/// A term that starts with an operator and a dot or a dash behind it.
pub open spec fn starts_like_operator(w: Seq<char>) -> bool {
    exists|n: int| 0 < n < w.len() && is_operator(#[trigger] w.take(n)) && is_dot_or_dash(w[n])
}

/// The stretches stand one behind the other, and each has the looks of a joined term: letters,
/// digits and joints, with one joint at least, none of them at its ends. No word character of
/// ASCII stands beside one, nor with one dot or dash between.
pub open spec fn are_joined_terms(s: Seq<char>, cuts: Seq<(int, int)>) -> bool {
    &&& forall|i: int|
        0 <= i < cuts.len() ==> {
            let (a, b) = #[trigger] cuts[i];
            &&& 0 <= a < b <= s.len()
            &&& has_joint(s.subrange(a, b))
            &&& forall|j: int| a <= j < b ==> is_term_char(#[trigger] s[j])
            &&& !is_dot_or_dash(s[a]) && !is_dot_or_dash(s[b - 1])
            &&& a > 0 ==> !is_ascii_word(s[a - 1])
            &&& a > 1 ==> !(is_dot_or_dash(s[a - 1]) && is_ascii_word(s[a - 2]))
            &&& b < s.len() ==> !is_ascii_word(s[b])
            &&& b + 1 < s.len() ==> !(is_dot_or_dash(s[b]) && is_ascii_word(s[b + 1]))
        }
    &&& forall|i: int, j: int|
        0 <= i < j < cuts.len() ==> (#[trigger] cuts[i]).1 <= (#[trigger] cuts[j]).0
}

/// Every joined term of ASCII word characters is among the stretches; in a text of ASCII
/// characters there are no others.
pub open spec fn are_all_joined_terms(s: Seq<char>, cuts: Seq<(int, int)>) -> bool {
    &&& forall|a: int, b: int| #[trigger] is_joined_term(s, a, b) ==> cuts.contains((a, b))
    &&& all_ascii(s) ==> forall|i: int|
        0 <= i < cuts.len() ==> is_joined_term(s, (#[trigger] cuts[i]).0, cuts[i].1)
}

/// Every joined term of ASCII word characters stands between double quotes.
pub open spec fn has_no_bare_term(s: Seq<char>) -> bool {
    forall|a: int, b: int| #[trigger]
        is_joined_term(s, a, b) ==> quote_count(s.take(a)) % 2 == 1
}

/// A character that is kept: neither white space nor special, and no asterisk.
pub open spec fn is_letter(c: char) -> bool {
    &&& !is_white_space(c)
    &&& c != '+' && c != '{' && c != '}' && c != '(' && c != ')' && c != '"' && c != '^'
    &&& c != '*'
}

/// The characters of a text that are kept, in their order.
pub open spec fn letters(s: Seq<char>) -> Seq<char> {
    s.filter(|c: char| is_letter(c))
}

/// The text without its double quotes.
pub open spec fn without_quotes(s: Seq<char>) -> Seq<char> {
    s.filter(|c: char| c != '"')
}

/// The text without its asterisks.
pub open spec fn without_stars(s: Seq<char>) -> Seq<char> {
    s.filter(|c: char| c != '*')
}

/// The letters of `r` are those of `s`, but for an operator that `s` may start with, and one that
/// it may end with.
pub open spec fn keeps_letters(s: Seq<char>, r: Seq<char>) -> bool {
    exists|a: Seq<char>, b: Seq<char>|
        (a.len() == 0 || is_operator(a)) && (b.len() == 0 || is_operator(b)) && letters(s)
            == #[trigger] (a + letters(r) + b)
}

/// The text `r` is `s` with double quotes around stretches that have the looks of joined terms,
/// and around every joined term of ASCII word characters.
pub open spec fn quotes_joined_terms(s: Seq<char>, r: Seq<char>) -> bool {
    exists|cuts: Seq<(int, int)>|
        are_joined_terms(s, cuts) && are_all_joined_terms(s, cuts) && r == #[trigger] quoted_at(
            s,
            cuts,
        )
}

// ---------------------------------------------------------------------------
// Regular expressions
// ---------------------------------------------------------------------------

/// The patterns of this module; each of them is a regular expression that `Regex::new` takes.
pub open spec fn is_pattern(p: Seq<char>) -> bool {
    ||| p == SPECIAL@
    ||| p == STARS@
    ||| p == LEADING_STAR@
    ||| p == LEADING_OPERATOR@
    ||| p == TRAILING_OPERATOR@
    ||| p == JOINED_TERM@
}

/// What `Regex::replace_all` gives for a pattern, a text and a replacement.
pub uninterp spec fn regex_replaced_all(
    pattern: Seq<char>,
    s: Seq<char>,
    rep: Seq<char>,
) -> Seq<char>;

/// What `Regex::replace` gives for a pattern, a text and a replacement.
pub uninterp spec fn regex_replaced_first(
    pattern: Seq<char>,
    s: Seq<char>,
    rep: Seq<char>,
) -> Seq<char>;

/// `Regex::replace_all`: the text with every match of the pattern replaced, where `$1` in the
/// replacement stands for what the first group matched. The result is named; what it is on
/// the patterns for special characters and asterisks is said in full. Of the pattern for joined
/// terms, of which the first group is the whole match, it is said that the matches stand one
/// behind the other and that each holds nothing but word characters and joints, with one joint
/// at least and none at its ends, and goes as far as it can to both sides. Which terms of ASCII
/// word characters are matches is said in full; which others are is left unsaid.
#[verifier::external_body]
fn replace_matches(pattern: &str, s: &str, rep: &str) -> (r: String)
    requires
        is_pattern(pattern@),
    ensures
        r@ == regex_replaced_all(pattern@, s@, rep@),
        pattern@ == SPECIAL@ && rep@ == " "@ ==> r@ == without_special(s@),
        pattern@ == STARS@ && rep@ == "*"@ ==> r@ == single_stars(s@),
        pattern@ == LEADING_STAR@ && rep@ == "$1"@ ==> r@ == without_leading_stars(s@),
        pattern@ == JOINED_TERM@ && rep@ == QUOTE_FIRST_GROUP@ ==> quotes_joined_terms(s@, r@),
{
    regex::Regex::new(pattern).unwrap().replace_all(s, rep).into_owned()
}

/// `Regex::replace`: the text with the first match of the pattern replaced. The result is
/// named; for an empty replacement it is said in full of the pattern for an operator at the
/// end, and of that for an operator at the start where no word character beyond ASCII could
/// follow the operator. Where one could, it is said that the operator and the white space behind
/// it are gone or all is there.
#[verifier::external_body]
fn replace_first_match(pattern: &str, s: &str, rep: &str) -> (r: String)
    requires
        is_pattern(pattern@),
    ensures
        r@ == regex_replaced_first(pattern@, s@, rep@),
        pattern@ == TRAILING_OPERATOR@ && rep@ == ""@ ==> r@ == without_trailing_operator(s@),
        pattern@ == LEADING_OPERATOR@ && rep@ == ""@ && start_is_settled(s@) ==> r@
            == without_leading_operator(s@),
        pattern@ == LEADING_OPERATOR@ && rep@ == ""@ ==> r@ == s@ || r@ == trim_start(
            s@.skip(leading_operator(s@)),
        ),
{
    regex::Regex::new(pattern).unwrap().replace(s, rep).into_owned()
}

/// `Regex::find_iter` with the pattern for quoted phrases: what the pattern matches, from the
/// left and without overlap.
#[verifier::external_body]
fn find_phrases(s: &str) -> (r: Vec<String>)
    ensures
        texts(r@) == phrases(s@),
{
    regex::Regex::new(QUOTED).unwrap().find_iter(s).map(|m| m.as_str().to_string()).collect()
}

// ---------------------------------------------------------------------------
// The query
// ---------------------------------------------------------------------------

/// The placeholder for the phrase with the number `k`.
fn placeholder_for(k: usize) -> (r: String)
    ensures
        r@ == placeholder(k as nat),
{
    let mut r = String::new();
    r.push('\0');
    r.push('Q');
    r.append(numeral(k as u128).as_str());
    r.push('\0');
    assert(r@ =~= placeholder(k as nat));
    r
}

/// The text with each of the phrases, one after the other from the left, exchanged for a
/// placeholder.
pub fn mask_phrases(s: &str, ps: &Vec<String>) -> (r: String)
    ensures
        r@ == cut_phrases(s@, texts(ps@), 0),
{
    let ghost all = texts(ps@);
    let mut out = String::new();
    let mut rest = s.to_owned();
    let mut k: usize = 0;
    assert(all.skip(0) =~= all);
    assert(out@ + cut_phrases(rest@, all.skip(0), 0) =~= cut_phrases(s@, all, 0));
    while k < ps.len()
        invariant
            k <= ps@.len(),
            all == texts(ps@),
            out@ + cut_phrases(rest@, all.skip(k as int), k as nat) == cut_phrases(s@, all, 0),
        decreases ps@.len() - k,
    {
        let ghost before = out@;
        let ghost left = all.skip(k as int);
        assert(left[0] == ps@[k as int]@);
        assert(left.drop_first() =~= all.skip(k + 1));
        match find_text(rest.as_str(), ps[k].as_str()) {
            Some(i) => {
                let n: usize = rest.as_str().unicode_len();
                let m: usize = ps[k].as_str().unicode_len();
                proof {
                    lemma_find_from(rest@, left[0], 0);
                }
                out.append(rest.as_str().substring_char(0, i));
                out.append(placeholder_for(k).as_str());
                let ghost whole = rest@;
                rest = rest.as_str().substring_char(i + m, n).to_owned();
                assert(whole.subrange(0, i as int) =~= whole.take(i as int));
                assert(rest@ =~= whole.skip(i + m));
                assert(out@ + cut_phrases(rest@, all.skip(k + 1), (k + 1) as nat) =~= before + (
                whole.take(i as int) + placeholder(k as nat) + cut_phrases(
                    rest@,
                    all.skip(k + 1),
                    (k + 1) as nat,
                )));
            },
            None => {
                out.append(rest.as_str());
                return out;
            },
        }
        k = k + 1;
    }
    out.append(rest.as_str());
    out
}

/// Exchanging the phrases of a text for placeholders masks it.
proof fn lemma_masked(s: Seq<char>, k: nat)
    ensures
        cut_phrases(s, phrases(s), k) == masked(s, k),
    decreases s.len(),
{
    let i = index_of(s, '"');
    let rest = s.skip(i + 1);
    let j = index_of(rest, '"');
    lemma_index_of(s, '"');
    lemma_index_of(rest, '"');
    if 0 <= i < s.len() && 0 <= j < rest.len() {
        let ps = phrases(s);
        let p = s.subrange(i, i + j + 2);
        assert(ps[0] == p);
        assert(ps.drop_first() =~= phrases(rest.skip(j + 1)));
        lemma_find_from(s, p, 0);
        assert(occurs_at(s, p, i));
        let at = find_from(s, p, 0)->0;
        assert(at == i) by {
            assert(at <= i);
            assert(s.subrange(at, at + p.len())[0] == p[0]);
            assert(s[at] == '"');
        }
        assert(s.skip(i + p.len()) =~= rest.skip(j + 1));
        lemma_masked(rest.skip(j + 1), k + 1);
    }
}

/// The terms of the query, of which `ps` are the phrases.
pub fn query_terms(query: &str, ps: &Vec<String>) -> (r: String)
    ensures
        r@ == trim(
            without_leading_stars(
                single_stars(without_special(cut_phrases(query@, texts(ps@), 0))),
            ),
        ),
{
    let plain = mask_phrases(query, ps);
    let plain = replace_matches(SPECIAL, plain.as_str(), " ");
    let plain = replace_matches(STARS, plain.as_str(), "*");
    let plain = replace_matches(LEADING_STAR, plain.as_str(), "$1");
    trimmed(plain.as_str()).to_owned()
}

/// The text with its placeholders exchanged for the phrases, without white space around it.
pub fn restore_phrases(s: &str, ps: &Vec<String>) -> (r: String)
    ensures
        r@ == trim(restored(s@, texts(ps@), ps@.len())),
{
    let mut out = s.to_owned();
    let mut i: usize = 0;
    while i < ps.len()
        invariant
            i <= ps@.len(),
            out@ == restored(s@, texts(ps@), i as nat),
        decreases ps@.len() - i,
    {
        let mark = placeholder_for(i);
        assert(texts(ps@)[i as int] == ps@[i as int]@);
        out = replaced(out.as_str(), mark.as_str(), ps[i].as_str());
        i = i + 1;
    }
    trimmed(out.as_str()).to_owned()
}

/// The query without the operators at its start and its end, before joined terms are quoted.
pub open spec fn without_operators(s: Seq<char>) -> Seq<char> {
    without_trailing_operator(
        trim_end(regex_replaced_first(LEADING_OPERATOR@, terms(s), ""@)),
    )
}

/// The query that is searched for.
pub open spec fn fts_query(s: Seq<char>) -> Seq<char> {
    trim(
        restored(
            regex_replaced_all(JOINED_TERM@, without_operators(s), QUOTE_FIRST_GROUP@),
            phrases(s),
            phrases(s).len(),
        ),
    )
}

/// What the query comes to without the operators at its start and its end, where no word
/// character beyond ASCII matters.
pub open spec fn plain_terms(s: Seq<char>) -> Seq<char> {
    without_trailing_operator(trim_end(without_leading_operator(terms(s))))
}

/// The whole query is one phrase in double quotes.
pub open spec fn is_phrase(s: Seq<char>) -> bool {
    &&& s.len() >= 2
    &&& s[0] == '"'
    &&& s.last() == '"'
    &&& forall|i: int| 0 < i < s.len() - 1 ==> s[i] != '"'
}

/// The query holds nothing that has a meaning of its own: no special characters, no asterisks, no
/// joints, and no operator at its start and at its end.
pub open spec fn is_plain_query(s: Seq<char>) -> bool {
    let t = trim(s);
    let n = leading_operator(t);
    &&& forall|i: int|
        0 <= i < s.len() ==> !is_special(#[trigger] s[i]) && s[i] != '*' && s[i] != '.' && s[i]
            != '_' && s[i] != '-'
    &&& n == 0 || (n < t.len() && is_ascii_word(t[n]))
    &&& !is_operator(t.skip(last_word(t)))
}

/// What a query that is one phrase comes to on the way.
proof fn lemma_phrase(s: Seq<char>)
    requires
        is_phrase(s),
    ensures
        phrases(s) == seq![s],
        terms(s) == placeholder(0),
        start_is_settled(terms(s)),
        plain_terms(s) == placeholder(0),
        !has_joint(plain_terms(s)),
        trim(restored(placeholder(0), phrases(s), 1)) == s,
{
    let none = Seq::<char>::empty();
    let rest = s.skip(1);
    let j = s.len() - 2;
    lemma_index_of_is(s, '"', 0);
    assert forall|i: int| 0 <= i < j implies rest[i] != '"' by {
        assert(rest[i] == s[i + 1]);
    }
    assert(rest[j] == s.last());
    lemma_index_of_is(rest, '"', j);
    assert(rest.skip(j + 1) =~= none);
    assert(s.subrange(0, j + 2) =~= s);
    assert(index_of(none, '"') == 0);
    assert(phrases(none) =~= Seq::<Seq<char>>::empty());
    assert(phrases(s) =~= seq![s]);
    // The placeholder goes through every step as it is.
    let p = placeholder(0);
    assert(decimal(0) =~= seq!['0']) by {
        assert(digit(0) == '0');
    }
    assert(p =~= seq!['\0', 'Q', '0', '\0']);
    assert(masked(none, 1) == none);
    assert(masked(s, 0) =~= p);
    assert(without_special(p) =~= p);
    let p3 = p.drop_last();
    let p2 = p3.drop_last();
    let p1 = p2.drop_last();
    assert(single_stars(p1) == p1);
    assert(single_stars(p2) =~= p2);
    assert(single_stars(p3) =~= p3);
    assert(single_stars(p) =~= p);
    assert(without_spaced_stars(p.skip(1).skip(1).skip(1)) =~= p.skip(3));
    assert(without_spaced_stars(p.skip(1).skip(1)) =~= p.skip(2));
    assert(without_spaced_stars(p.skip(1)) =~= p.skip(1));
    assert(without_leading_stars(p) =~= p);
    lemma_trim_is(p, 0, 4);
    assert(p.subrange(0, 4) =~= p);
    let f = |c: char| ascii_lower(c);
    assert(p.take(3).map_values(f)[0] == '\0');
    assert(p.take(2).map_values(f)[0] == '\0');
    assert(leading_operator(p) == 0);
    assert(trim_end(p) == p);
    assert(last_word(p1.drop_last()) == 0);
    assert(last_word(p1) == 0);
    assert(last_word(p2) == 0);
    assert(last_word(p3) == 0);
    assert(last_word(p) == 0);
    assert(restored(p, phrases(s), 0) == p);
    assert(occurs_at(p, p, 0)) by {
        assert(p.subrange(0, p.len() as int) =~= p);
    }
    assert(p.skip(4) =~= none);
    assert(find_from(none, p, 0) is None);
    assert(replace(none, p, s) == none);
    assert(p.take(0) + s + none =~= s);
    lemma_trim_is(s, 0, s.len() as int);
    assert(s.subrange(0, s.len() as int) =~= s);
}

/// A query that a full-text `MATCH` takes. One that is a phrase in double quotes stays as it
/// is.
///
/// Beside the exact result the contract says what it is on the queries on which it needs no
/// table of word characters: those without a joined term, and with nothing but ASCII behind
/// an operator that they start with. Of every query without NUL it says that the quotes come in
/// pairs, and that no special character, no run of asterisks and no joined term is left outside
/// of them; and where nothing in it can be taken for a placeholder, that all its phrases are
/// kept, and so is all else but special characters, asterisks, white space and an operator at the
/// start or the end. Every joined term beside the phrases is there between double quotes, unless
/// it starts with an operator. A query of plain words is kept as it is; special characters in it
/// become spaces, an operator before or behind it goes, and an asterisk behind its last word
/// stays.
pub fn sanitize_fts5_query(query: &str) -> (r: String)
    ensures
        r@ == fts_query(query@),
        start_is_settled(terms(query@)) && !has_joint(plain_terms(query@)) ==> r@ == trim(
            restored(plain_terms(query@), phrases(query@), phrases(query@).len()),
        ),
        is_phrase(query@) ==> r@ == query@,
        trim(r@) == r@,
        !query@.contains('\0') ==> is_well_quoted(r@) && has_single_stars(r@) && has_no_bare_term(
            r@,
        ),
        is_plain_query(query@) ==> r@ == trim(query@),
        !query@.contains('"') && is_plain_query(without_special(query@)) ==> r@ == trim(
            without_special(query@),
        ),
        forall|w: Seq<char>, x: Seq<char>|
            is_operator(w) && is_plain_query(x) && query@ == #[trigger] (w + seq![' '] + x) ==> r@
                == trim(x),
        forall|x: Seq<char>, w: Seq<char>|
            is_plain_query(x) && is_operator(w) && query@ == #[trigger] (x + seq![' '] + w) ==> r@
                == trim(x),
        forall|x: Seq<char>|
            is_plain_query(x) && x.len() > 0 && !is_white_space(x.last()) && query@
                == #[trigger] x.push('*') ==> r@ == trim_start(x).push('*'),
        forall|m: int, w: Seq<char>| #[trigger]
            holds_term(gaps(query@)[m], w) && 0 <= m < gaps(query@).len() && !starts_like_operator(
                w,
            ) ==> contains(r@, seq!['"'] + w + seq!['"']),
        holds_no_mark(query@) ==> !r@.contains('\0') && forall|m: int|
            0 <= m < phrases(query@).len() ==> contains(r@, #[trigger] phrases(query@)[m]),
        holds_no_mark(query@) ==> keeps_letters(query@, r@),
        holds_no_mark(query@) && start_is_settled(terms(query@)) ==> trim(without_quotes(r@))
            == trim(
            without_quotes(
                restored(plain_terms(query@), phrases(query@), phrases(query@).len()),
            ),
        ),
{
    let ps = find_phrases(query);
    let plain = query_terms(query, &ps);
    proof {
        lemma_masked(query@, 0);
    }
    let plain = replace_first_match(LEADING_OPERATOR, plain.as_str(), "");
    let ghost lead = plain@;
    let plain = replace_first_match(TRAILING_OPERATOR, trimmed_end(plain.as_str()), "");
    let ghost bare = plain@;
    let plain = replace_matches(JOINED_TERM, plain.as_str(), QUOTE_FIRST_GROUP);
    let r = restore_phrases(plain.as_str(), &ps);
    proof {
        assert(texts(ps@).len() == ps@.len());
        law_trim(restored(plain@, texts(ps@), ps@.len()));
        let cuts = choose|cuts: Seq<(int, int)>|
            are_joined_terms(bare, cuts) && are_all_joined_terms(bare, cuts) && plain@
                == #[trigger] quoted_at(bare, cuts);
        if !has_joint(bare) {
            lemma_no_joint(bare, cuts);
        }
        if !query@.contains('\0') {
            lemma_sanitized(query@, lead, cuts);
            lemma_no_bare_term(query@, lead, cuts);
        }
        if holds_no_mark(query@) {
            lemma_letters_kept(query@, lead, cuts);
            if start_is_settled(terms(query@)) {
                lemma_settled(query@, cuts);
            }
        }
        assert forall|m: int, w: Seq<char>| #[trigger]
            holds_term(gaps(query@)[m], w) && 0 <= m < gaps(query@).len() && !starts_like_operator(
                w,
            ) implies contains(r@, seq!['"'] + w + seq!['"']) by {
            lemma_terms_are_quoted(query@, lead, cuts, m, w);
        }
        if is_plain_query(query@) {
            lemma_plain_query(query@);
            law_trim(query@);
            assert(restored(plain@, phrases(query@), 0) == plain@);
        }
        let ps = phrases(query@);
        assert(restored(plain@, ps, 0) == plain@);
        let u = without_special(query@);
        if !query@.contains('"') && is_plain_query(u) {
            lemma_specials(query@);
            lemma_plain_query(u);
            law_trim(u);
        }
        assert forall|w: Seq<char>, x: Seq<char>|
            is_operator(w) && is_plain_query(x) && query@ == #[trigger] (w + seq![' ']
                + x) implies r@ == trim(x) by {
            lemma_operator_first(w, x);
            law_trim(x);
        }
        assert forall|x: Seq<char>, w: Seq<char>|
            is_plain_query(x) && is_operator(w) && query@ == #[trigger] (x + seq![' ']
                + w) implies r@ == trim(x) by {
            lemma_operator_last(x, w);
            law_trim(x);
        }
        assert forall|x: Seq<char>|
            is_plain_query(x) && x.len() > 0 && !is_white_space(x.last()) && query@
                == #[trigger] x.push('*') implies r@ == trim_start(x).push('*') by {
            lemma_star_last(x);
        }
        if is_phrase(query@) {
            lemma_phrase(query@);
        }
    }
    r
}

// ---------------------------------------------------------------------------
// Laws
// ---------------------------------------------------------------------------

/// Texts with phrases between them, one after the other.
pub open spec fn interleaved(around: Seq<Seq<char>>, ps: Seq<Seq<char>>) -> Seq<char>
    decreases around.len(),
{
    if around.len() == 0 {
        Seq::empty()
    } else if ps.len() == 0 {
        around[0]
    } else {
        around[0] + ps[0] + interleaved(around.drop_first(), ps.drop_first())
    }
}

/// The phrases of a query and the texts around them make it up; each phrase is one, and two
/// quotes are left in none of the texts.
pub proof fn law_phrases(s: Seq<char>, m: int)
    ensures
        gaps(s).len() == phrases(s).len() + 1,
        interleaved(gaps(s), phrases(s)) == s,
        0 <= m < phrases(s).len() ==> is_phrase(phrases(s)[m]) && !gaps(s)[m].contains('"'),
        quote_count(gaps(s).last()) <= 1,
{
    lemma_interleaved(s);
}

/// Where nothing in a query can be taken for a placeholder, putting its phrases back where they
/// were taken out gives the query.
pub proof fn law_phrases_come_back(s: Seq<char>)
    requires
        holds_no_mark(s),
    ensures
        restored(cut_phrases(s, phrases(s), 0), phrases(s), phrases(s).len()) == s,
{
    lemma_masked(s, 0);
    lemma_there_and_back(s);
}

/// A space comes for each of the seven special characters, and all else stays.
pub proof fn law_special(s: Seq<char>, i: int)
    requires
        0 <= i < s.len(),
    ensures
        without_special(s).len() == s.len(),
        s[i] == '+' || s[i] == '{' || s[i] == '}' || s[i] == '(' || s[i] == ')' || s[i] == '"'
            || s[i] == '^' ==> without_special(s)[i] == ' ',
        !(s[i] == '+' || s[i] == '{' || s[i] == '}' || s[i] == '(' || s[i] == ')' || s[i] == '"'
            || s[i] == '^') ==> without_special(s)[i] == s[i],
{
}

/// A run of asterisks comes to one, a text without asterisks stays, and what stands on the two
/// sides of a seam that no run goes over is worked on by itself.
pub proof fn law_stars(a: Seq<char>, b: Seq<char>, n: nat)
    ensures
        n > 0 ==> single_stars(Seq::new(n, |i: int| '*')) == seq!['*'],
        !a.contains('*') ==> single_stars(a) == a,
        a.len() > 0 && b.len() > 0 && !(a.last() == '*' && b[0] == '*') ==> single_stars(a + b)
            == single_stars(a) + single_stars(b),
{
    if n > 0 {
        lemma_run_of_stars(n);
    }
    if !a.contains('*') {
        lemma_no_stars(a);
    }
    if a.len() > 0 && b.len() > 0 && !(a.last() == '*' && b[0] == '*') {
        lemma_stars_concat(a, b);
    }
}

/// Where no two asterisks stand side by side, none is left at the start of the text or behind
/// white space; a text without asterisks stays.
pub proof fn law_leading_stars(s: Seq<char>, i: int)
    ensures
        !s.contains('*') ==> without_leading_stars(s) == s,
        (forall|j: int| 0 <= j < s.len() - 1 ==> !(#[trigger] s[j] == '*' && s[j + 1] == '*'))
            && 0 <= i < without_leading_stars(s).len() && without_leading_stars(s)[i] == '*' ==> i
            > 0 && !is_white_space(without_leading_stars(s)[i - 1]),
{
    if !s.contains('*') {
        lemma_no_stars(s);
        if s.len() > 0 {
            assert(s.contains(s[0]));
        }
    }
    if (forall|j: int| 0 <= j < s.len() - 1 ==> !(#[trigger] s[j] == '*' && s[j + 1] == '*')) && 0
        <= i < without_leading_stars(s).len() && without_leading_stars(s)[i] == '*' {
        lemma_no_leading_star(s, i);
    }
}

/// The operators are `and`, `or` and `not`, in small or capital letters.
pub proof fn law_operator(w: Seq<char>)
    ensures
        is_operator(w) <==> {
            ||| w.len() == 2 && (w[0] == 'o' || w[0] == 'O') && (w[1] == 'r' || w[1] == 'R')
            ||| w.len() == 3 && (w[0] == 'a' || w[0] == 'A') && (w[1] == 'n' || w[1] == 'N') && (
            w[2] == 'd' || w[2] == 'D')
            ||| w.len() == 3 && (w[0] == 'n' || w[0] == 'N') && (w[1] == 'o' || w[1] == 'O') && (
            w[2] == 't' || w[2] == 'T')
        },
{
    let l = w.map_values(|c: char| ascii_lower(c));
    let x = seq!['a', 'n', 'd'];
    let y = seq!['o', 'r'];
    let z = seq!['n', 'o', 't'];
    assert(x.len() == 3 && y.len() == 2 && z.len() == 3);
    if w.len() == 2 {
        lemma_either_case(w[0]);
        lemma_either_case(w[1]);
        assert(l[0] == ascii_lower(w[0]) && l[1] == ascii_lower(w[1]));
        assert(y[0] == 'o' && y[1] == 'r');
        if l[0] == 'o' && l[1] == 'r' {
            assert(l =~= y);
        }
    }
    if w.len() == 3 {
        lemma_either_case(w[0]);
        lemma_either_case(w[1]);
        lemma_either_case(w[2]);
        assert(l[0] == ascii_lower(w[0]) && l[1] == ascii_lower(w[1]) && l[2] == ascii_lower(w[2]));
        assert(x[0] == 'a' && x[1] == 'n' && x[2] == 'd');
        assert(z[0] == 'n' && z[1] == 'o' && z[2] == 't');
        if l[0] == 'a' && l[1] == 'n' && l[2] == 'd' {
            assert(l =~= x);
        }
        if l[0] == 'n' && l[1] == 'o' && l[2] == 't' {
            assert(l =~= z);
        }
    }
}

/// The letters that have one of those of the operators for their small letter.
proof fn lemma_either_case(c: char)
    ensures
        ascii_lower(c) == 'a' <==> c == 'a' || c == 'A',
        ascii_lower(c) == 'n' <==> c == 'n' || c == 'N',
        ascii_lower(c) == 'd' <==> c == 'd' || c == 'D',
        ascii_lower(c) == 'o' <==> c == 'o' || c == 'O',
        ascii_lower(c) == 'r' <==> c == 'r' || c == 'R',
        ascii_lower(c) == 't' <==> c == 't' || c == 'T',
{
}

/// A letter is any character but white space, the special characters and the asterisk.
pub proof fn law_letter(c: char)
    ensures
        is_letter(c) <==> !is_white_space(c) && !is_special(c) && c != '*',
{
}

/// The terms of a query have no white space around them and hold no special characters; an
/// asterisk stands in them only behind something else than white space and asterisks. But for
/// asterisks they are the query with its phrases masked and spaces for its special characters,
/// without white space around it, and an asterisk behind a letter stays there.
pub proof fn law_terms(s: Seq<char>, i: int, l: Seq<char>, c: char, r: Seq<char>)
    ensures
        trim(terms(s)) == terms(s),
        letters(terms(s)) == letters(masked(s, 0)),
        without_stars(terms(s)) == trim(without_stars(without_special(masked(s, 0)))),
        0 <= i < terms(s).len() ==> !is_special(terms(s)[i]),
        0 <= i < terms(s).len() && terms(s)[i] == '*' ==> i > 0 && !is_white_space(terms(s)[i - 1])
            && terms(s)[i - 1] != '*',
        is_letter(c) && masked(s, 0) == l + seq![c, '*'] + r ==> contains(terms(s), seq![c, '*']),
{
    lemma_terms(s, i);
    lemma_starless_terms(s);
    if is_letter(c) && masked(s, 0) == l + seq![c, '*'] + r {
        lemma_star_kept(s, l, c, r);
    }
}

/// The operator before the terms goes, and so does the one behind them, each with the white space
/// beside it; terms that neither start nor end with one stay. It does not matter what else the
/// query holds.
pub proof fn law_plain_terms(s: Seq<char>, w: Seq<char>, x: Seq<char>)
    ensures
        is_operator(w) && terms(s) == w + seq![' '] + x && !is_operator(
            trim(x).skip(last_word(trim(x))),
        ) ==> plain_terms(s) == trim(x),
        is_operator(w) && terms(s) == x + seq![' '] + w && x.len() > 0 && (leading_operator(
            terms(s),
        ) == 0 || is_ascii_word(terms(s)[leading_operator(terms(s))])) ==> plain_terms(s)
            == trim_end(x),
        (leading_operator(terms(s)) == 0 || leading_operator(terms(s)) < terms(s).len()
            && is_ascii_word(terms(s)[leading_operator(terms(s))])) && !is_operator(
            terms(s).skip(last_word(terms(s))),
        ) ==> plain_terms(s) == terms(s),
{
    let t = terms(s);
    lemma_terms(s, 0);
    if is_operator(w) && t == w + seq![' '] + x && !is_operator(trim(x).skip(last_word(trim(x)))) {
        lemma_terms_first(t, w, x);
    }
    if is_operator(w) && t == x + seq![' '] + w && x.len() > 0 && (leading_operator(t) == 0
        || is_ascii_word(t[leading_operator(t)])) {
        lemma_terms_last(t, x, w);
    }
    law_trim(t);
    assert(trim_end(t) == t);
}

/// The patterns that are searched for, and what a joined term is replaced by, letter for letter.
pub proof fn law_patterns()
    ensures
        QUOTED@ == "\"[^\"]*\""@,
        SPECIAL@ == "[+{}()\\\"^]"@,
        STARS@ == "\\*+"@,
        LEADING_STAR@ == "(^|\\s)\\*"@,
        LEADING_OPERATOR@ == "(?i)^(AND|OR|NOT)\\b\\s*"@,
        TRAILING_OPERATOR@ == "(?i)\\s+(AND|OR|NOT)\\s*$"@,
        JOINED_TERM@ == "\\b(\\w+(?:[._-]\\w+)+)\\b"@,
        QUOTE_FIRST_GROUP@ == "\"$1\""@,
{
}

} // verus!
