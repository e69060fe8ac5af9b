//! Why the phrases of a query come through: what the steps of `fts` do to the placeholders that
//! stand for them.
use vstd::prelude::*;

use crate::fts::{
    are_all_joined_terms, are_joined_terms, ends_term, gaps, has_joint, has_no_bare_term,
    has_single_stars, holds_no_mark, holds_term, interleaved, is_ascii_word, is_clear,
    is_dot_or_dash, is_gap_char, is_joined_term, is_letter, is_operator, is_phrase, is_plain_query,
    is_special, is_term_char, is_well_quoted, keeps_letters, last_word, leading_operator, letters,
    masked, phrases, placeholder, plain_terms, quote_count, quoted_at, quoted_between, restored,
    single_stars, start_is_settled, starts_like_operator, starts_term, terms,
    without_leading_operator, without_leading_stars, without_quotes, without_spaced_stars,
    without_special, without_stars, without_trailing_operator,
};
use crate::text::{
    ascii_lower, contains, decimal, digit, find_from, index_of, is_white_space, law_trim,
    lemma_find_from, lemma_index_of, lemma_index_of_is, lemma_trim_bounds, lemma_trim_end_is,
    lemma_trim_is, lemma_trim_start_is, occurs_at, replace, trim, trim_end, trim_start,
};

verus! {

// ---------------------------------------------------------------------------
// Placeholders
// ---------------------------------------------------------------------------

/// The text is one without NUL, the placeholder with the number `k`, another text without NUL,
/// and so on up to the placeholder before the number `n` and a last text. No text between two
/// placeholders can be taken for a part of an earlier one.
spec fn is_woven(s: Seq<char>, k: nat, n: nat) -> bool
    decreases n - k,
{
    if k >= n {
        !s.contains('\0')
    } else {
        let i = index_of(s, '\0');
        let p = placeholder(k);
        &&& occurs_at(s, p, i)
        &&& is_clear(s.take(i), k)
        &&& is_woven(s.skip(i + p.len()), k + 1, n)
    }
}

/// The digits of a number are digits.
proof fn lemma_decimal_digits(n: nat)
    ensures
        decimal(n).len() > 0,
        forall|i: int| 0 <= i < decimal(n).len() ==> 48 <= #[trigger] decimal(n)[i] as u32 <= 57,
    decreases n,
{
    if n >= 10 {
        lemma_decimal_digits(n / 10);
    }
}

/// Different numbers have different digits.
proof fn lemma_decimal_differs(a: nat, b: nat)
    requires
        decimal(a) == decimal(b),
    ensures
        a == b,
    decreases a,
{
    lemma_decimal_digits(a / 10);
    lemma_decimal_digits(b / 10);
    if a < 10 && b < 10 {
        assert(decimal(a)[0] == digit(a) && decimal(b)[0] == digit(b));
    } else if a >= 10 && b >= 10 {
        assert(decimal(a).drop_last() =~= decimal(a / 10));
        assert(decimal(b).drop_last() =~= decimal(b / 10));
        assert(decimal(a).last() == digit(a % 10) && decimal(b).last() == digit(b % 10));
        lemma_decimal_differs(a / 10, b / 10);
    } else if a < 10 {
        assert(decimal(a).len() == 1);
        assert(decimal(b) == decimal(b / 10).push(digit(b % 10)));
        assert(decimal(b).len() > 1);
    } else {
        assert(decimal(b).len() == 1);
        assert(decimal(a) == decimal(a / 10).push(digit(a % 10)));
        assert(decimal(a).len() > 1);
    }
}

/// What a placeholder is made of.
proof fn lemma_placeholder(k: nat)
    ensures
        placeholder(k).len() == decimal(k).len() + 3,
        placeholder(k)[0] == '\0',
        placeholder(k)[1] == 'Q',
        placeholder(k).last() == '\0',
        forall|i: int|
            2 <= i < placeholder(k).len() - 1 ==> 48 <= #[trigger] placeholder(k)[i] as u32 <= 57
                && placeholder(k)[i] == decimal(k)[i - 2],
{
    lemma_decimal_digits(k);
    let p = placeholder(k);
    assert forall|i: int| 2 <= i < p.len() - 1 implies 48 <= #[trigger] p[i] as u32 <= 57 && p[i]
        == decimal(k)[i - 2] by {
        assert(p[i] == decimal(k)[i - 2]);
    }
}

/// The parts of a woven text.
proof fn lemma_unweave(s: Seq<char>, k: nat, n: nat) -> (r: (Seq<char>, Seq<char>))
    requires
        is_woven(s, k, n),
        k < n,
    ensures
        s == r.0 + placeholder(k) + r.1,
        r.0 == s.take(index_of(s, '\0')),
        !r.0.contains('\0'),
        is_clear(r.0, k),
        is_woven(r.1, k + 1, n),
{
    lemma_index_of(s, '\0');
    let i = index_of(s, '\0');
    let p = placeholder(k);
    let t = s.take(i);
    let b = s.skip(i + p.len());
    assert(s.subrange(i, i + p.len()) == p);
    assert(s =~= t + p + b);
    (t, b)
}

/// A woven text of its parts.
proof fn lemma_weave(t: Seq<char>, b: Seq<char>, k: nat, n: nat)
    requires
        k < n,
        !t.contains('\0'),
        is_clear(t, k),
        is_woven(b, k + 1, n),
    ensures
        is_woven(t + placeholder(k) + b, k, n),
        index_of(t + placeholder(k) + b, '\0') == t.len(),
{
    let p = placeholder(k);
    let s = t + p + b;
    lemma_placeholder(k);
    assert forall|i: int| 0 <= i < t.len() implies s[i] != '\0' by {
        assert(s[i] == t[i]);
    }
    let i = t.len() as int;
    assert(s[i] == p[0]);
    lemma_index_of_is(s, '\0', i);
    assert(s.take(i) =~= t);
    assert(s.subrange(i, i + p.len()) =~= p);
    assert(s.skip(i + p.len()) =~= b);
}

/// The placeholder of an earlier phrase does not stand in a woven text.
#[verifier::rlimit(80)]
proof fn lemma_absent(s: Seq<char>, k: nat, n: nat, j: nat, pos: int)
    requires
        is_woven(s, k, n),
        j < k,
    ensures
        !occurs_at(s, placeholder(j), pos),
    decreases n - k,
{
    let q = placeholder(j);
    lemma_placeholder(j);
    if occurs_at(s, q, pos) {
        assert(s.subrange(pos, pos + q.len()) == q);
        assert(s[pos] == q[0]);
        if k >= n {
            assert(s.contains('\0'));
        } else {
            let (t, b) = lemma_unweave(s, k, n);
            let p = placeholder(k);
            lemma_placeholder(k);
            let i = t.len() as int;
            let e = i + p.len();
            if pos < i {
                assert(t[pos] == '\0');
            } else if pos == i {
                // Both are placeholders, with different numbers.
                assert forall|m: int| 0 <= m < q.len() && m < p.len() implies q[m] == p[m] by {
                    assert(s[pos + m] == q[m]);
                }
                if q.len() < p.len() {
                    assert(p[q.len() - 1] == '\0');
                } else if p.len() < q.len() {
                    assert(q[p.len() - 1] == '\0');
                }
                assert(decimal(j) =~= decimal(k)) by {
                    assert forall|m: int| 0 <= m < decimal(j).len() implies decimal(j)[m]
                        == decimal(k)[m] by {
                        assert(q[m + 2] == p[m + 2]);
                    }
                }
                lemma_decimal_differs(j, k);
            } else if pos < e - 1 {
                assert(s[pos] == p[pos - i]);
                if pos - i >= 2 {
                    assert(48 <= p[pos - i] as u32);
                }
            } else if pos == e - 1 {
                // The text behind the placeholder would have to be a part of this one.
                let gap = seq!['Q'] + decimal(j);
                assert forall|m: int| 0 <= m <= gap.len() implies #[trigger] b[m] == q[m + 1] by {
                    assert(s[pos + m + 1] == q[m + 1]);
                }
                assert(b[gap.len() as int] == q[gap.len() as int + 1]);
                if k + 1 >= n {
                    assert(b.contains('\0'));
                } else {
                    assert forall|m: int| 0 <= m < gap.len() implies b[m] != '\0' by {
                        assert(b[m] == q[m + 1]);
                        if m > 0 {
                            assert(48 <= q[m + 1] as u32);
                        }
                    }
                    lemma_index_of_is(b, '\0', gap.len() as int);
                    assert(b.take(gap.len() as int) =~= gap) by {
                        assert forall|m: int| 0 <= m < gap.len() implies b[m] == gap[m] by {
                            assert(b[m] == q[m + 1]);
                        }
                    }
                    assert(is_clear(gap, (k + 1) as nat));
                }
            } else {
                assert(b.subrange(pos - e, pos - e + q.len()) =~= s.subrange(pos, pos + q.len()));
                lemma_absent(b, k + 1, n, j, pos - e);
            }
        }
    }
}

// ---------------------------------------------------------------------------
// The steps keep the placeholders
// ---------------------------------------------------------------------------

/// There is one text more around the phrases than there are phrases.
proof fn lemma_gaps_len(s: Seq<char>)
    ensures
        gaps(s).len() == phrases(s).len() + 1,
    decreases s.len(),
{
    let i = index_of(s, '"');
    let rest = s.skip(i + 1);
    let j = index_of(rest, '"');
    if 0 <= i < s.len() && 0 <= j < rest.len() {
        lemma_gaps_len(rest.skip(j + 1));
    }
}

/// There are placeholders for the phrases, one after the other.
proof fn lemma_masked_woven(s: Seq<char>, k: nat)
    requires
        !s.contains('\0'),
        forall|i: int|
            0 <= i < phrases(s).len() ==> is_clear(#[trigger] gaps(s)[i], (k + i) as nat),
    ensures
        is_woven(masked(s, k), k, k + phrases(s).len()),
    decreases s.len(),
{
    let i = index_of(s, '"');
    let rest = s.skip(i + 1);
    let j = index_of(rest, '"');
    if 0 <= i < s.len() && 0 <= j < rest.len() {
        let tail = rest.skip(j + 1);
        assert(phrases(s).len() == phrases(tail).len() + 1);
        lemma_gaps_len(tail);
        assert forall|m: int| 0 <= m < phrases(tail).len() implies is_clear(
            #[trigger] gaps(tail)[m],
            (k + 1 + m) as nat,
        ) by {
            assert(gaps(s)[m + 1] == gaps(tail)[m]);
        }
        assert(!tail.contains('\0')) by {
            if tail.contains('\0') {
                let m = choose|m: int| 0 <= m < tail.len() && tail[m] == '\0';
                assert(s[i + 1 + j + 1 + m] == '\0');
            }
        }
        lemma_masked_woven(tail, k + 1);
        assert(gaps(s)[0] == s.take(i));
        assert(!s.take(i).contains('\0')) by {
            if s.take(i).contains('\0') {
                let m = choose|m: int| 0 <= m < s.take(i).len() && s.take(i)[m] == '\0';
                assert(s[m] == '\0');
            }
        }
        lemma_weave(s.take(i), masked(tail, k + 1), k, k + phrases(s).len());
    }
}

/// The part of a placeholder that a text must not be holds neither special characters nor
/// asterisks nor white space.
proof fn lemma_mark(j: nat)
    ensures
        forall|i: int|
            0 <= i < decimal(j).len() + 1 ==> (48 <= #[trigger] (seq!['Q'] + decimal(j))[i] as u32
                <= 57 || (seq!['Q'] + decimal(j))[i] == 'Q'),
{
    lemma_decimal_digits(j);
    let m = seq!['Q'] + decimal(j);
    assert forall|i: int| 0 <= i < decimal(j).len() + 1 implies 48 <= #[trigger] m[i] as u32 <= 57
        || m[i] == 'Q' by {
        if i > 0 {
            assert(m[i] == decimal(j)[i - 1]);
        }
    }
}

/// A text with a quote is no part of a placeholder.
proof fn lemma_quote_is_clear(t: Seq<char>, i: int, k: nat)
    requires
        0 <= i < t.len(),
        t[i] == '"',
    ensures
        is_clear(t, k),
{
    assert forall|j: nat| j + 1 < k implies t != seq!['Q'] + #[trigger] decimal(j) by {
        let mark = seq!['Q'] + decimal(j);
        lemma_mark(j);
        if t == mark {
            assert(mark[i] == '"');
        }
    }
}

/// Special characters do not stand in placeholders.
proof fn lemma_special_woven(s: Seq<char>, k: nat, n: nat)
    requires
        is_woven(s, k, n),
    ensures
        is_woven(without_special(s), k, n),
    decreases n - k,
{
    let r = without_special(s);
    if k >= n {
        if r.contains('\0') {
            let m = choose|m: int| 0 <= m < r.len() && r[m] == '\0';
            assert(s[m] == '\0');
        }
    } else {
        let (t, b) = lemma_unweave(s, k, n);
        lemma_special_woven(b, k + 1, n);
        let p = placeholder(k);
        lemma_placeholder(k);
        let u = without_special(t);
        assert(without_special(p) =~= p) by {
            assert forall|i: int| 0 <= i < p.len() implies !is_special(#[trigger] p[i]) by {
                if 2 <= i < p.len() - 1 {
                    assert(48 <= p[i] as u32 <= 57);
                }
            }
        }
        assert(r =~= u + without_special(p) + without_special(b));
        if u.contains('\0') {
            let m = choose|m: int| 0 <= m < u.len() && u[m] == '\0';
            assert(t[m] == '\0');
        }
        assert forall|j: nat| j + 1 < k implies u != seq!['Q'] + #[trigger] decimal(j) by {
            let mark = seq!['Q'] + decimal(j);
            if u == mark {
                lemma_mark(j);
                assert forall|i: int| 0 <= i < t.len() implies t[i] == mark[i] by {
                    assert(u[i] == mark[i]);
                }
                assert(t =~= mark);
            }
        }
        lemma_weave(u, without_special(b), k, n);
    }
}

/// Runs of asterisks do not go over a seam where there is not one on both sides.
pub proof fn lemma_stars_concat(a: Seq<char>, b: Seq<char>)
    requires
        a.len() > 0 && b.len() > 0 ==> a.last() != '*' || b[0] != '*',
    ensures
        single_stars(a + b) == single_stars(a) + single_stars(b),
    decreases b.len(),
{
    let s = a + b;
    if b.len() == 0 {
        assert(s =~= a);
        assert(single_stars(a) + single_stars(b) =~= single_stars(a));
    } else if a.len() == 0 {
        assert(s =~= b);
        assert(single_stars(a) + single_stars(b) =~= single_stars(b));
    } else {
        let front = b.drop_last();
        assert(s.drop_last() =~= a + front);
        lemma_stars_concat(a, front);
        assert(s.last() == b.last());
        if b.len() == 1 {
            assert(s[s.len() - 2] == a.last());
            assert(single_stars(front) =~= Seq::<char>::empty());
            assert(single_stars(a + front) =~= single_stars(a));
        } else {
            assert(s[s.len() - 2] == b[b.len() - 2]);
        }
        assert(single_stars(s) =~= single_stars(a) + single_stars(b));
    }
}

/// Where no asterisk is left, there was none, and nothing comes in that was not there.
proof fn lemma_stars(s: Seq<char>)
    ensures
        !single_stars(s).contains('*') ==> single_stars(s) == s,
        forall|c: char| #[trigger] single_stars(s).contains(c) ==> s.contains(c),
        s.len() > 0 ==> single_stars(s).len() > 0 && single_stars(s).last() == s.last(),
    decreases s.len(),
{
    if s.len() >= 2 {
        let front = s.drop_last();
        lemma_stars(front);
        let f = single_stars(front);
        let r = single_stars(s);
        if s.last() == '*' && s[s.len() - 2] == '*' {
            assert(f[f.len() - 1] == '*');
            assert(r.contains('*'));
        } else {
            assert(r == f.push(s.last()));
            assert(!r.contains('*') ==> !f.contains('*')) by {
                if f.contains('*') {
                    let m = choose|m: int| 0 <= m < f.len() && f[m] == '*';
                    assert(r[m] == '*');
                }
            }
            assert(front.push(s.last()) =~= s);
        }
        assert forall|c: char| #[trigger] r.contains(c) implies s.contains(c) by {
            let m = choose|m: int| 0 <= m < r.len() && r[m] == c;
            if m < f.len() {
                assert(f[m] == c);
                assert(f.contains(c));
                let l = choose|l: int| 0 <= l < front.len() && front[l] == c;
                assert(s[l] == c);
            } else {
                assert(s[s.len() - 1] == c);
            }
        }
    }
}

/// No two asterisks stand side by side.
spec fn is_single(s: Seq<char>) -> bool {
    forall|i: int| 0 <= i < s.len() - 1 ==> !(#[trigger] s[i] == '*' && s[i + 1] == '*')
}

/// One asterisk is left of every run.
proof fn lemma_stars_single(s: Seq<char>)
    ensures
        is_single(single_stars(s)),
    decreases s.len(),
{
    if s.len() >= 2 {
        let front = s.drop_last();
        lemma_stars_single(front);
        lemma_stars(front);
        let f = single_stars(front);
        if !(s.last() == '*' && s[s.len() - 2] == '*') {
            let r = f.push(s.last());
            assert forall|i: int| 0 <= i < r.len() - 1 implies !(#[trigger] r[i] == '*' && r[i + 1]
                == '*') by {
                assert(r[i] == f[i]);
                if i < f.len() - 1 {
                    assert(r[i + 1] == f[i + 1]);
                }
            }
        }
    }
}

/// Taking asterisks out behind white space puts no two of them side by side.
proof fn lemma_spaced_single(s: Seq<char>)
    requires
        is_single(s),
    ensures
        is_single(without_spaced_stars(s)),
        s.len() > 0 ==> without_spaced_stars(s).len() > 0 && without_spaced_stars(s)[0] == s[0],
    decreases s.len(),
{
    if s.len() >= 2 {
        let from: int = if is_white_space(s[0]) && s[1] == '*' {
            2
        } else {
            1
        };
        let back = s.skip(from);
        assert(is_single(back)) by {
            assert forall|i: int| 0 <= i < back.len() - 1 implies !(#[trigger] back[i] == '*'
                && back[i + 1] == '*') by {
                assert(s[i + from] == back[i]);
            }
        }
        lemma_spaced_single(back);
        let f = without_spaced_stars(back);
        let r = without_spaced_stars(s);
        assert(r == seq![s[0]] + f);
        assert forall|i: int| 0 <= i < r.len() - 1 implies !(#[trigger] r[i] == '*' && r[i + 1]
            == '*') by {
            assert(r[i + 1] == f[i]);
            if i == 0 {
                assert(!(s[0] == '*' && s[1] == '*'));
            } else {
                assert(r[i] == f[i - 1]);
            }
        }
    }
}

/// A part of a text in which no two asterisks stand side by side.
proof fn lemma_part_single(s: Seq<char>, a: int, b: int)
    requires
        is_single(s),
        0 <= a <= b <= s.len(),
    ensures
        is_single(s.subrange(a, b)),
{
    let r = s.subrange(a, b);
    assert forall|i: int| 0 <= i < r.len() - 1 implies !(#[trigger] r[i] == '*' && r[i + 1]
        == '*') by {
        assert(s[a + i] == r[i]);
    }
}

/// A text without asterisks keeps all.
pub proof fn lemma_no_stars(s: Seq<char>)
    requires
        !s.contains('*'),
    ensures
        single_stars(s) == s,
        without_spaced_stars(s) == s,
    decreases s.len(),
{
    if s.len() >= 2 {
        let front = s.drop_last();
        assert(!front.contains('*')) by {
            if front.contains('*') {
                let m = choose|m: int| 0 <= m < front.len() && front[m] == '*';
                assert(s[m] == '*');
            }
        }
        lemma_no_stars(front);
        assert(s[s.len() - 1] != '*');
        assert(front.push(s.last()) =~= s);
        let back = s.skip(1);
        assert(!back.contains('*')) by {
            if back.contains('*') {
                let m = choose|m: int| 0 <= m < back.len() && back[m] == '*';
                assert(s[m + 1] == '*');
            }
        }
        lemma_no_stars(back);
        assert(s[1] != '*');
        assert(seq![s[0]] + back =~= s);
    }
}

/// A placeholder holds no asterisks.
proof fn lemma_placeholder_stars(k: nat)
    ensures
        !placeholder(k).contains('*'),
{
    let p = placeholder(k);
    lemma_placeholder(k);
    if p.contains('*') {
        let m = choose|m: int| 0 <= m < p.len() && p[m] == '*';
        if 2 <= m < p.len() - 1 {
            assert(48 <= p[m] as u32);
        }
    }
}

/// Runs of asterisks do not stand in placeholders.
proof fn lemma_stars_woven(s: Seq<char>, k: nat, n: nat)
    requires
        is_woven(s, k, n),
    ensures
        is_woven(single_stars(s), k, n),
    decreases n - k,
{
    if k >= n {
        lemma_stars(s);
    } else {
        let (t, b) = lemma_unweave(s, k, n);
        lemma_stars_woven(b, k + 1, n);
        let p = placeholder(k);
        let u = single_stars(t);
        lemma_placeholder(k);
        lemma_placeholder_stars(k);
        lemma_no_stars(p);
        lemma_stars_concat(t, p);
        assert((t + p).last() == '\0');
        lemma_stars_concat(t + p, b);
        lemma_stars(t);
        assert forall|j: nat| j + 1 < k implies u != seq!['Q'] + #[trigger] decimal(j) by {
            if u == seq!['Q'] + decimal(j) {
                lemma_mark(j);
                if u.contains('*') {
                    let m = choose|m: int| 0 <= m < u.len() && u[m] == '*';
                    assert(u[m] == (seq!['Q'] + decimal(j))[m]);
                }
            }
        }
        lemma_weave(u, single_stars(b), k, n);
    }
}

/// Asterisks behind white space do not go over a seam where there is not one there.
proof fn lemma_spaced_concat(a: Seq<char>, b: Seq<char>)
    requires
        a.len() > 0 && b.len() > 0 ==> !is_white_space(a.last()) || b[0] != '*',
    ensures
        without_spaced_stars(a + b) == without_spaced_stars(a) + without_spaced_stars(b),
    decreases a.len(),
{
    let s = a + b;
    if a.len() == 0 {
        assert(s =~= b);
        assert(without_spaced_stars(a) + without_spaced_stars(b) =~= without_spaced_stars(b));
    } else if b.len() == 0 {
        assert(s =~= a);
        assert(without_spaced_stars(a) + without_spaced_stars(b) =~= without_spaced_stars(a));
    } else if a.len() == 1 {
        assert(s.skip(1) =~= b);
        assert(s[0] == a.last() && s[1] == b[0]);
        assert(without_spaced_stars(s) =~= a + without_spaced_stars(b));
    } else if is_white_space(a[0]) && a[1] == '*' {
        assert(s.skip(2) =~= a.skip(2) + b);
        if a.len() > 2 {
            assert(a.skip(2).last() == a.last());
        }
        lemma_spaced_concat(a.skip(2), b);
        assert(without_spaced_stars(s) =~= without_spaced_stars(a) + without_spaced_stars(b));
    } else {
        assert(s.skip(1) =~= a.skip(1) + b);
        assert(a.skip(1).last() == a.last());
        lemma_spaced_concat(a.skip(1), b);
        assert(without_spaced_stars(s) =~= without_spaced_stars(a) + without_spaced_stars(b));
    }
}

/// Where no white space is left nothing was taken out, and nothing comes in that was not there.
proof fn lemma_spaced(s: Seq<char>)
    ensures
        (forall|i: int|
            0 <= i < without_spaced_stars(s).len() ==> !is_white_space(
                #[trigger] without_spaced_stars(s)[i],
            )) ==> without_spaced_stars(s) == s,
        forall|c: char| #[trigger] without_spaced_stars(s).contains(c) ==> s.contains(c),
    decreases s.len(),
{
    if s.len() >= 2 {
        let cut = is_white_space(s[0]) && s[1] == '*';
        let from: int = if cut {
            2
        } else {
            1
        };
        let back = s.skip(from);
        let f = without_spaced_stars(back);
        let r = without_spaced_stars(s);
        lemma_spaced(back);
        assert(r == seq![s[0]] + f);
        assert(r[0] == s[0]);
        if forall|i: int| 0 <= i < r.len() ==> !is_white_space(#[trigger] r[i]) {
            assert(!cut);
            assert forall|i: int| 0 <= i < f.len() implies !is_white_space(#[trigger] f[i]) by {
                assert(r[i + 1] == f[i]);
            }
            assert(r =~= s);
        }
        assert forall|c: char| #[trigger] r.contains(c) implies s.contains(c) by {
            let m = choose|m: int| 0 <= m < r.len() && r[m] == c;
            if m == 0 {
                assert(s[0] == c);
            } else {
                assert(f[m - 1] == c);
                assert(f.contains(c));
                let l = choose|l: int| 0 <= l < back.len() && back[l] == c;
                assert(s[l + from] == c);
            }
        }
    }
}

/// Asterisks behind white space do not stand in placeholders.
proof fn lemma_spaced_woven(s: Seq<char>, k: nat, n: nat)
    requires
        is_woven(s, k, n),
    ensures
        is_woven(without_spaced_stars(s), k, n),
    decreases n - k,
{
    if k >= n {
        lemma_spaced(s);
    } else {
        let (t, b) = lemma_unweave(s, k, n);
        lemma_spaced_woven(b, k + 1, n);
        let p = placeholder(k);
        let u = without_spaced_stars(t);
        lemma_placeholder(k);
        lemma_placeholder_stars(k);
        lemma_no_stars(p);
        lemma_spaced_concat(t, p);
        assert((t + p).last() == '\0');
        lemma_spaced_concat(t + p, b);
        lemma_spaced(t);
        assert forall|j: nat| j + 1 < k implies u != seq!['Q'] + #[trigger] decimal(j) by {
            let mark = seq!['Q'] + decimal(j);
            if u == mark {
                lemma_mark(j);
                assert forall|i: int| 0 <= i < u.len() implies !is_white_space(#[trigger] u[i]) by {
                    assert(u[i] == mark[i]);
                }
            }
        }
        lemma_weave(u, without_spaced_stars(b), k, n);
    }
}

/// What a woven text starts with before the first placeholder can go.
proof fn lemma_skip_woven(s: Seq<char>, m: int, n: nat)
    requires
        is_woven(s, 0, n),
        0 <= m <= s.len(),
        !s.take(m).contains('\0'),
    ensures
        is_woven(s.skip(m), 0, n),
{
    let r = s.skip(m);
    if n == 0 {
        if r.contains('\0') {
            let i = choose|i: int| 0 <= i < r.len() && r[i] == '\0';
            assert(s[i + m] == '\0');
        }
    } else {
        let (t, b) = lemma_unweave(s, 0, n);
        lemma_placeholder(0);
        let p = placeholder(0);
        assert(m <= t.len()) by {
            if m > t.len() {
                assert(s.take(m)[t.len() as int] == p[0]);
            }
        }
        let u = t.skip(m);
        if u.contains('\0') {
            let i = choose|i: int| 0 <= i < u.len() && u[i] == '\0';
            assert(t[i + m] == '\0');
        }
        assert(r =~= u + p + b);
        lemma_weave(u, b, 0, n);
    }
}

/// What a woven text ends with behind the last placeholder can go.
proof fn lemma_take_woven(s: Seq<char>, m: int, k: nat, n: nat)
    requires
        is_woven(s, k, n),
        0 <= m <= s.len(),
        !s.skip(m).contains('\0'),
    ensures
        is_woven(s.take(m), k, n),
    decreases n - k,
{
    let r = s.take(m);
    if k >= n {
        if r.contains('\0') {
            let i = choose|i: int| 0 <= i < r.len() && r[i] == '\0';
            assert(s[i] == '\0');
        }
    } else {
        let (t, b) = lemma_unweave(s, k, n);
        lemma_placeholder(k);
        let p = placeholder(k);
        let e = t.len() + p.len();
        assert(m >= e) by {
            if m < e {
                assert(s[e - 1] == p.last());
                assert(s.skip(m)[e - 1 - m] == '\0');
            }
        }
        assert(b.skip(m - e) =~= s.skip(m));
        lemma_take_woven(b, m - e, k + 1, n);
        assert(r =~= t + p + b.take(m - e));
        lemma_weave(t, b.take(m - e), k, n);
    }
}

/// White space at the start of a text can go.
proof fn lemma_trim_start_woven(s: Seq<char>, n: nat)
    ensures
        is_woven(s, 0, n) ==> is_woven(trim_start(s), 0, n),
        is_single(s) ==> is_single(trim_start(s)),
        forall|c: char| #[trigger] trim_start(s).contains(c) ==> s.contains(c),
    decreases s.len(),
{
    if s.len() > 0 && is_white_space(s[0]) {
        let r = s.drop_first();
        assert(s.skip(1) =~= r);
        if is_woven(s, 0, n) {
            assert(s.take(1) =~= seq![s[0]]);
            lemma_skip_woven(s, 1, n);
        }
        if is_single(s) {
            lemma_part_single(s, 1, s.len() as int);
            assert(s.subrange(1, s.len() as int) =~= r);
        }
        lemma_trim_start_woven(r, n);
        assert forall|c: char| #[trigger] trim_start(s).contains(c) implies s.contains(c) by {
            assert(r.contains(c));
            let i = choose|i: int| 0 <= i < r.len() && r[i] == c;
            assert(s[i + 1] == c);
        }
    }
}

/// White space at the end of a text can go.
proof fn lemma_trim_end_woven(s: Seq<char>, n: nat)
    ensures
        is_woven(s, 0, n) ==> is_woven(trim_end(s), 0, n),
        is_single(s) ==> is_single(trim_end(s)),
        forall|c: char| #[trigger] trim_end(s).contains(c) ==> s.contains(c),
    decreases s.len(),
{
    if s.len() > 0 && is_white_space(s.last()) {
        let r = s.drop_last();
        let m = s.len() - 1;
        assert(s.take(m) =~= r);
        if is_woven(s, 0, n) {
            assert(s.skip(m) =~= seq![s.last()]);
            lemma_take_woven(s, m, 0, n);
        }
        if is_single(s) {
            lemma_part_single(s, 0, m);
            assert(s.subrange(0, m) =~= r);
        }
        lemma_trim_end_woven(r, n);
        assert forall|c: char| #[trigger] trim_end(s).contains(c) implies s.contains(c) by {
            assert(r.contains(c));
            let i = choose|i: int| 0 <= i < r.len() && r[i] == c;
            assert(s[i] == c);
        }
    }
}

/// An operator holds no NUL.
proof fn lemma_operator(w: Seq<char>)
    requires
        is_operator(w),
    ensures
        !w.contains('\0'),
{
    let l = w.map_values(|c: char| ascii_lower(c));
    if w.contains('\0') {
        let i = choose|i: int| 0 <= i < w.len() && w[i] == '\0';
        assert(l[i] == '\0');
        assert(l.len() == w.len());
        assert(i == 0 || i == 1 || i == 2) by {
            assert(seq!['a', 'n', 'd'].len() == 3);
            assert(seq!['o', 'r'].len() == 2);
            assert(seq!['n', 'o', 't'].len() == 3);
        }
        assert(seq!['a', 'n', 'd'][i] != '\0');
        assert(i < 2 ==> seq!['o', 'r'][i] != '\0');
        assert(seq!['n', 'o', 't'][i] != '\0');
    }
}

/// The operator at the start of a text can go.
proof fn lemma_leading_woven(s: Seq<char>, n: nat)
    ensures
        is_woven(s, 0, n) ==> is_woven(trim_start(s.skip(leading_operator(s))), 0, n),
        is_single(s) ==> is_single(trim_start(s.skip(leading_operator(s)))),
        forall|c: char| #[trigger]
            trim_start(s.skip(leading_operator(s))).contains(c) ==> s.contains(c),
{
    let m = leading_operator(s);
    if is_woven(s, 0, n) {
        if m > 0 {
            lemma_operator(s.take(m));
        }
        lemma_skip_woven(s, m, n);
    }
    let r = s.skip(m);
    if is_single(s) {
        lemma_part_single(s, m, s.len() as int);
        assert(s.subrange(m, s.len() as int) =~= r);
    }
    lemma_trim_start_woven(r, n);
    assert forall|c: char| #[trigger] trim_start(r).contains(c) implies s.contains(c) by {
        assert(r.contains(c));
        let i = choose|i: int| 0 <= i < r.len() && r[i] == c;
        assert(s[i + m] == c);
    }
}

/// The last word of a text stands in it.
proof fn lemma_last_word(s: Seq<char>)
    ensures
        0 <= last_word(s) <= s.len(),
    decreases s.len(),
{
    if s.len() > 0 && !is_white_space(s.last()) {
        lemma_last_word(s.drop_last());
    }
}

/// The operator at the end of a text can go.
proof fn lemma_trailing_woven(s: Seq<char>, n: nat)
    ensures
        is_woven(s, 0, n) ==> is_woven(without_trailing_operator(s), 0, n),
        is_single(s) ==> is_single(without_trailing_operator(s)),
        forall|c: char| #[trigger] without_trailing_operator(s).contains(c) ==> s.contains(c),
{
    let t = trim_end(s);
    let p = last_word(t);
    lemma_trim_end_woven(s, n);
    lemma_last_word(t);
    if 0 < p && is_operator(t.skip(p)) {
        if is_woven(s, 0, n) {
            lemma_operator(t.skip(p));
            lemma_take_woven(t, p, 0, n);
        }
        let r = t.take(p);
        if is_single(s) {
            lemma_part_single(t, 0, p);
            assert(t.subrange(0, p) =~= r);
        }
        lemma_trim_end_woven(r, n);
        assert forall|c: char| #[trigger] trim_end(r).contains(c) implies s.contains(c) by {
            assert(r.contains(c));
            let i = choose|i: int| 0 <= i < r.len() && r[i] == c;
            assert(t[i] == c);
            assert(t.contains(c));
        }
    }
}

/// The terms of a query hold no special characters and no two asterisks side by side; where
/// nothing in it can be taken for a placeholder, they hold one for each of its phrases.
proof fn lemma_terms_woven(q: Seq<char>)
    ensures
        holds_no_mark(q) ==> is_woven(terms(q), 0, phrases(q).len()),
        is_single(terms(q)),
        forall|c: char| #[trigger] terms(q).contains(c) ==> !is_special(c),
{
    let n = phrases(q).len();
    let m = masked(q, 0);
    let u = without_special(m);
    let v = single_stars(u);
    let w = without_leading_stars(v);
    if holds_no_mark(q) {
        lemma_masked_woven(q, 0);
        lemma_special_woven(m, 0, n);
        lemma_stars_woven(u, 0, n);
        if v.len() > 0 && v[0] == '*' {
            assert(v.take(1) =~= seq!['*']);
            lemma_skip_woven(v, 1, n);
            lemma_spaced_woven(v.skip(1), 0, n);
        } else {
            lemma_spaced_woven(v, 0, n);
        }
    }
    assert forall|c: char| #[trigger] u.contains(c) implies !is_special(c) by {
        let i = choose|i: int| 0 <= i < u.len() && u[i] == c;
        assert(u[i] == if is_special(m[i]) { ' ' } else { m[i] });
    }
    lemma_stars(u);
    lemma_stars_single(u);
    if v.len() > 0 && v[0] == '*' {
        let x = v.skip(1);
        lemma_part_single(v, 1, v.len() as int);
        assert(v.subrange(1, v.len() as int) =~= x);
        lemma_spaced_single(x);
        lemma_spaced(x);
        assert forall|c: char| #[trigger] w.contains(c) implies v.contains(c) by {
            assert(x.contains(c));
            let i = choose|i: int| 0 <= i < x.len() && x[i] == c;
            assert(v[i + 1] == c);
        }
    } else {
        lemma_spaced_single(v);
        lemma_spaced(v);
    }
    lemma_trim_start_woven(w, n);
    lemma_trim_end_woven(trim_start(w), n);
    assert forall|c: char| #[trigger] terms(q).contains(c) implies !is_special(c) by {
        assert(trim_start(w).contains(c));
        assert(w.contains(c));
        assert(v.contains(c));
        assert(u.contains(c));
    }
}

// ---------------------------------------------------------------------------
// Double quotes
// ---------------------------------------------------------------------------

/// Two asterisks stand side by side from a position on.
spec fn is_pair(s: Seq<char>, i: int) -> bool {
    i + 1 < s.len() && s[i] == '*' && s[i + 1] == '*'
}

/// The placeholders stand outside of what is quoted, and the special characters and the runs of
/// asterisks within.
spec fn is_tidy(s: Seq<char>) -> bool {
    forall|i: int|
        0 <= i < s.len() ==> {
            &&& #[trigger] s[i] == '\0' ==> quote_count(s.take(i)) % 2 == 0
            &&& is_special(s[i]) && s[i] != '"' ==> quote_count(s.take(i)) % 2 == 1
            &&& is_pair(s, i) ==> quote_count(s.take(i)) % 2 == 1
        }
}

/// The quotes of two texts one after the other.
proof fn lemma_count_concat(a: Seq<char>, b: Seq<char>)
    ensures
        quote_count(a + b) == quote_count(a) + quote_count(b),
    decreases b.len(),
{
    if b.len() == 0 {
        assert(a + b =~= a);
    } else {
        assert((a + b).drop_last() =~= a + b.drop_last());
        lemma_count_concat(a, b.drop_last());
    }
}

/// A text without quotes has none.
proof fn lemma_count_none(s: Seq<char>)
    requires
        !s.contains('"'),
    ensures
        quote_count(s) == 0,
    decreases s.len(),
{
    if s.len() > 0 {
        let front = s.drop_last();
        assert(s[s.len() - 1] != '"');
        if front.contains('"') {
            let i = choose|i: int| 0 <= i < front.len() && front[i] == '"';
            assert(s[i] == '"');
        }
        lemma_count_none(front);
    }
}

/// A text without special characters and runs of asterisks is tidy.
proof fn lemma_plain_is_tidy(s: Seq<char>)
    requires
        forall|i: int| 0 <= i < s.len() ==> !is_special(#[trigger] s[i]),
        is_single(s),
    ensures
        is_tidy(s),
        quote_count(s) == 0,
{
    assert forall|i: int| 0 <= i <= s.len() implies quote_count(#[trigger] s.take(i)) == 0 by {
        let t = s.take(i);
        if t.contains('"') {
            let j = choose|j: int| 0 <= j < t.len() && t[j] == '"';
            assert(is_special(s[j]));
        }
        lemma_count_none(t);
    }
    assert(s.take(s.len() as int) =~= s);
}

/// Exchanging a part of a tidy text for one with as many quotes, or an even number more or less.
#[verifier::rlimit(80)]
proof fn lemma_exchange(a: Seq<char>, q: Seq<char>, b: Seq<char>, p: Seq<char>)
    requires
        is_tidy(a + q + b),
        quote_count(q) % 2 == quote_count(p) % 2,
        p.len() > 0,
        p[0] == '"',
        p.last() == '"',
        forall|i: int|
            0 <= i < p.len() ==> {
                &&& #[trigger] p[i] != '\0'
                &&& (is_special(p[i]) && p[i] != '"') || is_pair(p, i) ==> (quote_count(a)
                    + quote_count(p.take(i))) % 2 == 1
            },
    ensures
        is_tidy(a + p + b),
        quote_count(a + p + b) % 2 == quote_count(a + q + b) % 2,
{
    let x = a + q + b;
    let y = a + p + b;
    lemma_count_concat(a, p);
    lemma_count_concat(a, q);
    lemma_count_concat(a + p, b);
    lemma_count_concat(a + q, b);
    assert forall|i: int| 0 <= i < y.len() implies {
        &&& #[trigger] y[i] == '\0' ==> quote_count(y.take(i)) % 2 == 0
        &&& is_special(y[i]) && y[i] != '"' ==> quote_count(y.take(i)) % 2 == 1
        &&& is_pair(y, i) ==> quote_count(y.take(i)) % 2 == 1
    } by {
        let n = a.len() as int;
        let e = n + p.len();
        if i < n {
            assert(y.take(i) =~= x.take(i));
            assert(y[i] == x[i]);
            if i + 1 < n {
                assert(y[i + 1] == x[i + 1]);
            } else {
                assert(y[i + 1] == p[0]);
            }
        } else if i < e {
            assert(y.take(i) =~= a + p.take(i - n));
            assert(y[i] == p[i - n]);
            if i + 1 < e {
                assert(y[i + 1] == p[i + 1 - n]);
            } else {
                assert(y[i] == p.last());
            }
            lemma_count_concat(a, p.take(i - n));
        } else {
            let m = i - e;
            let l = n + q.len() + m;
            assert(y.take(i) =~= a + p + b.take(m));
            assert(x.take(l) =~= a + q + b.take(m));
            assert(y[i] == x[l]);
            if i + 1 < y.len() {
                assert(y[i + 1] == x[l + 1]);
            }
            lemma_count_concat(a + p, b.take(m));
            lemma_count_concat(a + q, b.take(m));
        }
    }
}

/// Quoting a joined term keeps the placeholders.
#[verifier::rlimit(80)]
proof fn lemma_quoted_woven(s: Seq<char>, a: int, b: int, k: nat, n: nat)
    requires
        is_woven(s, k, n),
        0 <= a < b <= s.len(),
        has_joint(s.subrange(a, b)),
        forall|j: int| a <= j < b ==> is_term_char(#[trigger] s[j]),
    ensures
        is_woven(quoted_between(s, a, b), k, n),
    decreases n - k,
{
    let r = quoted_between(s, a, b);
    if k >= n {
        if r.contains('\0') {
            let i = choose|i: int| 0 <= i < r.len() && r[i] == '\0';
            if i < a {
                assert(s[i] == '\0');
            } else if a < i < b + 1 {
                assert(s[i - 1] == '\0');
            } else if i > b + 1 {
                assert(s[i - 2] == '\0');
            }
        }
    } else {
        let (t, rest) = lemma_unweave(s, k, n);
        let p = placeholder(k);
        lemma_placeholder(k);
        let i = t.len() as int;
        let e = i + p.len();
        assert(s[i] == '\0' && s[e - 1] == '\0') by {
            assert(s[i] == p[0]);
            assert(s[e - 1] == p.last());
        }
        if b <= i {
            let u = quoted_between(t, a, b);
            assert(s.subrange(a, b) =~= t.subrange(a, b));
            assert(r =~= u + p + rest);
            assert(u[a] == '"');
            if u.contains('\0') {
                let m = choose|m: int| 0 <= m < u.len() && u[m] == '\0';
                if m < a {
                    assert(t[m] == '\0');
                } else if a < m < b + 1 {
                    assert(t[m - 1] == '\0');
                } else if m > b + 1 {
                    assert(t[m - 2] == '\0');
                }
            }
            lemma_quote_is_clear(u, a, k);
            lemma_weave(u, rest, k, n);
        } else if a >= e {
            assert(s.subrange(a, b) =~= rest.subrange(a - e, b - e));
            assert forall|j: int| a - e <= j < b - e implies is_term_char(#[trigger] rest[j]) by {
                assert(rest[j] == s[j + e]);
            }
            lemma_quoted_woven(rest, a - e, b - e, k + 1, n);
            assert(r =~= t + p + quoted_between(rest, a - e, b - e));
            lemma_weave(t, quoted_between(rest, a - e, b - e), k, n);
        } else {
            // The term would have to stand within the placeholder, which holds no joint.
            assert(!is_term_char('\0'));
            assert(i < a && b <= e - 1) by {
                if a <= i {
                    assert(is_term_char(s[i]));
                }
                if b > e - 1 {
                    assert(is_term_char(s[e - 1]));
                }
            }
            let w = s.subrange(a, b);
            assert forall|m: int| 0 <= m < w.len() implies !(w[m] == '.' || w[m] == '_' || w[m]
                == '-') by {
                assert(w[m] == p[a + m - i]);
                if a + m - i >= 2 {
                    assert(48 <= p[a + m - i] as u32 <= 57);
                }
            }
            if w.contains('.') {
                let m = choose|m: int| 0 <= m < w.len() && w[m] == '.';
                assert(w[m] != '.');
            }
            if w.contains('_') {
                let m = choose|m: int| 0 <= m < w.len() && w[m] == '_';
                assert(w[m] != '_');
            }
            if w.contains('-') {
                let m = choose|m: int| 0 <= m < w.len() && w[m] == '-';
                assert(w[m] != '-');
            }
        }
    }
}

/// Quoting the joined terms of a text keeps the placeholders, and it stays tidy.
#[verifier::rlimit(80)]
proof fn lemma_quoted_at(s: Seq<char>, cuts: Seq<(int, int)>, n: nat)
    requires
        is_tidy(s),
        are_joined_terms(s, cuts),
    ensures
        is_woven(s, 0, n) ==> is_woven(quoted_at(s, cuts), 0, n),
        is_tidy(quoted_at(s, cuts)),
        quote_count(quoted_at(s, cuts)) % 2 == quote_count(s) % 2,
    decreases cuts.len(),
{
    if cuts.len() > 0 {
        let last = cuts.len() - 1;
        let (a, b) = cuts[last];
        let w = s.subrange(a, b);
        let one = seq!['"'];
        let p = one + w + one;
        let r = quoted_between(s, a, b);
        if is_woven(s, 0, n) {
            lemma_quoted_woven(s, a, b, 0, n);
        }
        assert(s =~= s.take(a) + w + s.skip(b));
        assert(one.drop_last() =~= Seq::<char>::empty());
        lemma_count_concat(one, w);
        lemma_count_concat(one + w, one);
        assert forall|i: int| 0 <= i < p.len() implies {
            &&& #[trigger] p[i] != '\0'
            &&& (is_special(p[i]) && p[i] != '"') || is_pair(p, i) ==> (quote_count(s.take(a))
                + quote_count(p.take(i))) % 2 == 1
        } by {
            if 0 < i < p.len() - 1 {
                assert(p[i] == s[a + i - 1]);
                assert(is_term_char(s[a + i - 1]));
            }
        }
        lemma_exchange(s.take(a), w, s.skip(b), p);
        let front = cuts.drop_last();
        lemma_quoted_rest(s, cuts);
        lemma_quoted_at(r, front, n);
    }
}

/// Without a joint there is no joined term.
pub proof fn lemma_no_joint(s: Seq<char>, cuts: Seq<(int, int)>)
    requires
        are_joined_terms(s, cuts),
        !has_joint(s),
    ensures
        quoted_at(s, cuts) == s,
{
    if cuts.len() > 0 {
        let (a, b) = cuts[0];
        let w = s.subrange(a, b);
        let c: char = if w.contains('.') {
            '.'
        } else if w.contains('_') {
            '_'
        } else {
            '-'
        };
        assert(w.contains(c));
        let i = choose|i: int| 0 <= i < w.len() && w[i] == c;
        assert(s[a + i] == c);
        assert(s.contains(c));
    }
}

// ---------------------------------------------------------------------------
// The phrases
// ---------------------------------------------------------------------------

/// Each phrase is one, and holds nothing that the query does not hold.
proof fn lemma_phrases(s: Seq<char>, m: int)
    requires
        0 <= m < phrases(s).len(),
    ensures
        is_phrase(phrases(s)[m]),
        !s.contains('\0') ==> !phrases(s)[m].contains('\0'),
    decreases s.len(),
{
    let i = index_of(s, '"');
    let rest = s.skip(i + 1);
    let j = index_of(rest, '"');
    lemma_index_of(s, '"');
    lemma_index_of(rest, '"');
    let tail = rest.skip(j + 1);
    if m == 0 {
        let p = s.subrange(i, i + j + 2);
        assert(phrases(s)[0] == p);
        assert(p[0] == s[i]);
        assert(p.last() == rest[j]);
        assert forall|l: int| 0 < l < p.len() - 1 implies p[l] != '"' by {
            assert(p[l] == rest[l - 1]);
        }
        if p.contains('\0') {
            let l = choose|l: int| 0 <= l < p.len() && p[l] == '\0';
            assert(s[i + l] == '\0');
        }
    } else {
        assert(phrases(s)[m] == phrases(tail)[m - 1]);
        lemma_phrases(tail, m - 1);
        if tail.contains('\0') {
            let l = choose|l: int| 0 <= l < tail.len() && tail[l] == '\0';
            assert(s[i + 1 + j + 1 + l] == '\0');
        }
    }
}

/// A phrase holds two quotes, one of them before all that stands within.
proof fn lemma_phrase_count(p: Seq<char>)
    requires
        is_phrase(p),
    ensures
        quote_count(p) == 2,
        forall|i: int| 0 < i < p.len() ==> quote_count(#[trigger] p.take(i)) == 1,
{
    assert forall|i: int| 0 < i < p.len() implies quote_count(#[trigger] p.take(i)) == 1 by {
        let t = p.take(i);
        let one = t.take(1);
        let more = t.skip(1);
        assert(t =~= one + more);
        lemma_count_concat(one, more);
        assert(one.drop_last() =~= Seq::<char>::empty());
        assert(quote_count(Seq::<char>::empty()) == 0);
        assert(one.last() == '"');
        assert(quote_count(one) == 1);
        if more.contains('"') {
            let j = choose|j: int| 0 <= j < more.len() && more[j] == '"';
            assert(p[j + 1] == '"');
        }
        lemma_count_none(more);
    }
    assert(p.drop_last() =~= p.take(p.len() - 1));
}

/// Putting a phrase in for the placeholders with its number behind a text keeps all tidy.
proof fn lemma_replace_tidy(pre: Seq<char>, x: Seq<char>, p: Seq<char>, j: nat)
    requires
        is_tidy(pre + x),
        is_phrase(p),
        !p.contains('\0'),
    ensures
        is_tidy(pre + replace(x, placeholder(j), p)),
        quote_count(pre + replace(x, placeholder(j), p)) % 2 == quote_count(pre + x) % 2,
    decreases x.len(),
{
    let q = placeholder(j);
    lemma_placeholder(j);
    lemma_find_from(x, q, 0);
    if let Some(i) = find_from(x, q, 0) {
        let t = pre + x.take(i);
        let b = x.skip(i + q.len());
        assert(x.subrange(i, i + q.len()) == q);
        assert(pre + x =~= t + q + b);
        // The placeholder stood outside of what is quoted.
        assert(quote_count(t) % 2 == 0) by {
            assert((t + q + b)[t.len() as int] == q[0]);
            assert((t + q + b).take(t.len() as int) =~= t);
        }
        lemma_phrase_count(p);
        assert(!q.contains('"')) by {
            if q.contains('"') {
                let m = choose|m: int| 0 <= m < q.len() && q[m] == '"';
                if 2 <= m < q.len() - 1 {
                    assert(48 <= q[m] as u32);
                }
            }
        }
        lemma_count_none(q);
        assert forall|m: int| 0 <= m < p.len() implies {
            &&& #[trigger] p[m] != '\0'
            &&& (is_special(p[m]) && p[m] != '"') || is_pair(p, m) ==> (quote_count(t)
                + quote_count(p.take(m))) % 2 == 1
        } by {
            if m > 0 {
                assert(quote_count(p.take(m)) == 1);
            }
        }
        lemma_exchange(t, q, b, p);
        lemma_replace_tidy(t + p, b, p, j);
        assert(pre + replace(x, q, p) =~= t + p + replace(b, q, p));
    }
}

/// Putting the first phrases in for their placeholders keeps all tidy.
proof fn lemma_restored_tidy(x: Seq<char>, ps: Seq<Seq<char>>, j: nat)
    requires
        is_tidy(x),
        j <= ps.len(),
        forall|m: int|
            0 <= m < ps.len() ==> is_phrase(#[trigger] ps[m]) && !ps[m].contains('\0'),
    ensures
        is_tidy(restored(x, ps, j)),
        quote_count(restored(x, ps, j)) % 2 == quote_count(x) % 2,
    decreases j,
{
    if j > 0 {
        let k = (j - 1) as nat;
        lemma_restored_tidy(x, ps, k);
        let y = restored(x, ps, k);
        let none = Seq::<char>::empty();
        assert(none + y =~= y);
        lemma_replace_tidy(none, y, ps[k as int], k);
        let r = replace(y, placeholder(k), ps[k as int]);
        assert(none + r =~= r);
    }
}

/// Putting a phrase in for its placeholder.
#[verifier::rlimit(80)]
proof fn lemma_restore_one(x: Seq<char>, p: Seq<char>, j: nat, n: nat)
    requires
        is_woven(x, j, n),
        j < n,
        is_phrase(p),
        !p.contains('\0'),
    ensures
        ({
            let i = index_of(x, '\0');
            let r = replace(x, placeholder(j), p);
            &&& 0 <= i <= x.len()
            &&& r == x.take(i) + p + x.skip(i + placeholder(j).len())
            &&& is_woven(r, j + 1, n)
            &&& index_of(r, '\0') >= i + p.len()
        }),
{
    let q = placeholder(j);
    lemma_placeholder(j);
    let (t, b) = lemma_unweave(x, j, n);
    lemma_index_of(x, '\0');
    let i = index_of(x, '\0');
    let e = i + q.len();
    let r = t + p + b;
    // The first occurrence is where the first NUL is, and there is no other behind it.
    lemma_find_from(x, q, 0);
    assert(occurs_at(x, q, i));
    let at = find_from(x, q, 0)->0;
    assert(at == i) by {
        assert(x.subrange(at, at + q.len())[0] == q[0]);
        assert(x[at] == '\0');
    }
    assert(x.skip(e) =~= b);
    lemma_find_from(b, q, 0);
    if find_from(b, q, 0) is Some {
        lemma_absent(b, j + 1, n, j, find_from(b, q, 0)->0);
    }
    assert(replace(b, q, p) == b);
    assert(replace(x, q, p) =~= r);
    // What stands before the next placeholder now holds a quote.
    lemma_index_of(r, '\0');
    assert(index_of(r, '\0') >= i + p.len()) by {
        let f = index_of(r, '\0');
        if f < i {
            assert(t[f] == '\0');
        } else if f < i + p.len() {
            assert(p[f - i] == '\0');
        }
    }
    if j + 1 >= n {
        if r.contains('\0') {
            let m = choose|m: int| 0 <= m < r.len() && r[m] == '\0';
            if m < i {
                assert(t[m] == '\0');
            } else if m < i + p.len() {
                assert(p[m - i] == '\0');
            } else {
                assert(b[m - i - p.len()] == '\0');
            }
        }
    } else {
        let (t2, b2) = lemma_unweave(b, j + 1, n);
        let u = t + p + t2;
        if u.contains('\0') {
            let m = choose|m: int| 0 <= m < u.len() && u[m] == '\0';
            if m < i {
                assert(t[m] == '\0');
            } else if m < i + p.len() {
                assert(p[m - i] == '\0');
            } else {
                assert(t2[m - i - p.len()] == '\0');
            }
        }
        lemma_quote_is_clear(u, i, j + 1);
        assert(r =~= u + placeholder(j + 1) + b2);
        lemma_weave(u, b2, j + 1, n);
    }
}

/// The text stands before the first placeholder that is left.
spec fn stands_early(x: Seq<char>, p: Seq<char>) -> bool {
    exists|pos: int| #[trigger] occurs_at(x, p, pos) && pos + p.len() <= index_of(x, '\0')
}

/// Putting the first phrases in for their placeholders.
proof fn lemma_restored(x: Seq<char>, ps: Seq<Seq<char>>, j: nat)
    requires
        is_woven(x, 0, ps.len()),
        j <= ps.len(),
        forall|m: int|
            0 <= m < ps.len() ==> is_phrase(#[trigger] ps[m]) && !ps[m].contains('\0'),
    ensures
        is_woven(restored(x, ps, j), j, ps.len()),
        forall|m: int| 0 <= m < j ==> stands_early(restored(x, ps, j), #[trigger] ps[m]),
    decreases j,
{
    if j > 0 {
        let k = (j - 1) as nat;
        lemma_restored(x, ps, k);
        let y = restored(x, ps, k);
        let p = ps[k as int];
        let r = restored(x, ps, j);
        lemma_restore_one(y, p, k, ps.len());
        let i = index_of(y, '\0');
        assert forall|m: int| 0 <= m < j implies stands_early(r, #[trigger] ps[m]) by {
            if m < k {
                assert(stands_early(y, ps[m]));
                let pos = choose|pos: int| #[trigger]
                    occurs_at(y, ps[m], pos) && pos + ps[m].len() <= i;
                assert(r.subrange(pos, pos + ps[m].len()) =~= y.subrange(pos, pos + ps[m].len()));
                assert(occurs_at(r, ps[m], pos));
            } else {
                assert(r.subrange(i, i + p.len()) =~= p);
                assert(occurs_at(r, p, i));
            }
        }
    }
}

/// Trimming a text takes no quotes away.
#[verifier::rlimit(80)]
proof fn lemma_trim_quotes(x: Seq<char>)
    requires
        is_tidy(x),
        quote_count(x) % 2 == 0,
    ensures
        is_well_quoted(trim(x)),
        has_single_stars(trim(x)),
        forall|c: char| #[trigger] trim(x).contains(c) ==> x.contains(c),
{
    let (a, b) = lemma_trim_bounds(x);
    let t = trim(x);
    assert(!is_white_space('"'));
    let left = x.take(a);
    let right = x.skip(b);
    if left.contains('"') {
        let i = choose|i: int| 0 <= i < left.len() && left[i] == '"';
        assert(is_white_space(x[i]));
    }
    if right.contains('"') {
        let i = choose|i: int| 0 <= i < right.len() && right[i] == '"';
        assert(is_white_space(x[b + i]));
    }
    lemma_count_none(left);
    lemma_count_none(right);
    assert(x =~= left + t + right);
    lemma_count_concat(left + t, right);
    lemma_count_concat(left, t);
    assert forall|i: int|
        0 <= i < t.len() && is_special(#[trigger] t[i]) && t[i] != '"' implies quote_count(
        t.take(i),
    ) % 2 == 1 by {
        assert(x[a + i] == t[i]);
        assert(x.take(a + i) =~= left + t.take(i));
        lemma_count_concat(left, t.take(i));
    }
    assert forall|i: int| 0 <= i < t.len() - 1 && quote_count(t.take(i)) % 2 == 0 implies !(
    #[trigger] t[i] == '*' && t[i + 1] == '*') by {
        assert(x[a + i] == t[i]);
        assert(x[a + i + 1] == t[i + 1]);
        assert(x.take(a + i) =~= left + t.take(i));
        lemma_count_concat(left, t.take(i));
        assert(t[i] == '*' && t[i + 1] == '*' ==> is_pair(x, a + i));
    }
    assert forall|c: char| #[trigger] t.contains(c) implies x.contains(c) by {
        let i = choose|i: int| 0 <= i < t.len() && t[i] == c;
        assert(x[a + i] == c);
    }
}

/// Trimming a text takes no phrase away, and no quotes.
proof fn lemma_trim_phrases(x: Seq<char>)
    requires
        is_tidy(x),
        quote_count(x) % 2 == 0,
    ensures
        is_well_quoted(trim(x)),
        has_single_stars(trim(x)),
        forall|p: Seq<char>|
            is_phrase(p) && stands_early(x, p) ==> #[trigger] contains(trim(x), p),
        forall|c: char| #[trigger] trim(x).contains(c) ==> x.contains(c),
{
    lemma_trim_quotes(x);
    assert forall|p: Seq<char>|
        is_phrase(p) && stands_early(x, p) implies #[trigger] contains(trim(x), p) by {
        let pos = choose|pos: int| #[trigger]
            occurs_at(x, p, pos) && pos + p.len() <= index_of(x, '\0');
        assert(occurs_at(x, p, pos));
        lemma_trim_keeps(x, p);
    }
}

/// What comes of a query without NUL, where `lead` are its terms with or without the operator at
/// their start, and the terms at `cuts` are quoted: all that is special and all runs of asterisks
/// stand within quotes. Where nothing in the query can be taken for a placeholder, all its
/// phrases are there, and no placeholder is left.
pub proof fn lemma_sanitized(q: Seq<char>, lead: Seq<char>, cuts: Seq<(int, int)>)
    requires
        !q.contains('\0'),
        lead == terms(q) || lead == trim_start(terms(q).skip(leading_operator(terms(q)))),
        are_joined_terms(without_trailing_operator(trim_end(lead)), cuts),
    ensures
        ({
            let plain = without_trailing_operator(trim_end(lead));
            let r = trim(restored(quoted_at(plain, cuts), phrases(q), phrases(q).len()));
            &&& is_well_quoted(r)
            &&& has_single_stars(r)
            &&& holds_no_mark(q) ==> !r.contains('\0') && forall|m: int|
                0 <= m < phrases(q).len() ==> contains(r, #[trigger] phrases(q)[m])
        }),
{
    let ps = phrases(q);
    let n = ps.len();
    let t = terms(q);
    lemma_terms_woven(q);
    lemma_leading_woven(t, n);
    let e = trim_end(lead);
    lemma_trim_end_woven(lead, n);
    let plain = without_trailing_operator(e);
    lemma_trailing_woven(e, n);
    assert forall|i: int| 0 <= i < plain.len() implies !is_special(#[trigger] plain[i]) by {
        let c = plain[i];
        assert(plain.contains(c));
        assert(e.contains(c));
        assert(lead.contains(c));
        assert(t.contains(c));
    }
    lemma_plain_is_tidy(plain);
    let x = quoted_at(plain, cuts);
    lemma_quoted_at(plain, cuts, n);
    assert forall|m: int| 0 <= m < n implies is_phrase(#[trigger] ps[m]) && !ps[m].contains(
        '\0',
    ) by {
        lemma_phrases(q, m);
    }
    lemma_restored_tidy(x, ps, n);
    let y = restored(x, ps, n);
    lemma_trim_phrases(y);
    if holds_no_mark(q) {
        lemma_restored(x, ps, n);
        assert forall|m: int| 0 <= m < n implies contains(trim(y), #[trigger] ps[m]) by {
            assert(stands_early(y, ps[m]));
        }
    }
}

// ---------------------------------------------------------------------------
// Joined terms
// ---------------------------------------------------------------------------

/// Where a joined term stands, and what it starts and ends with.
proof fn lemma_term_ends(s: Seq<char>, a: int, b: int)
    requires
        is_joined_term(s, a, b),
    ensures
        0 <= a < b <= s.len(),
        is_ascii_word(s[a]),
        is_ascii_word(s[b - 1]),
        starts_term(s, a),
        ends_term(s, b),
{
    reveal(is_joined_term);
}

/// What a joined term is made of.
proof fn lemma_term_char(s: Seq<char>, a: int, b: int, j: int)
    requires
        is_joined_term(s, a, b),
        a <= j < b,
    ensures
        is_ascii_word(s[j]) || is_dot_or_dash(s[j]),
{
    reveal(is_joined_term);
}

/// Where a joint of a joined term stands.
proof fn lemma_term_joint(s: Seq<char>, a: int, b: int) -> (j: int)
    requires
        is_joined_term(s, a, b),
    ensures
        a < j < b - 1,
        is_dot_or_dash(s[j]) || s[j] == '_',
{
    reveal(is_joined_term);
    choose|j: int| a < j < b - 1 && (is_dot_or_dash(#[trigger] s[j]) || s[j] == '_')
}

/// What ends a word: a character of ASCII that is no word character, or white space.
proof fn lemma_gap_char(c: char)
    ensures
        is_gap_char(c) <==> !is_ascii_word(c) && ((c as u32) < 128 || is_white_space(c)),
{
    reveal(is_gap_char);
}

/// Where a joined term stands in other surroundings that end it, it is one there.
proof fn lemma_moved_term(s: Seq<char>, a: int, b: int, t: Seq<char>, c: int)
    requires
        is_joined_term(s, a, b),
        0 <= c,
        c + (b - a) <= t.len(),
        forall|j: int| a <= j < b ==> #[trigger] s[j] == t[j - a + c],
        starts_term(t, c),
        ends_term(t, c + (b - a)),
    ensures
        is_joined_term(t, c, c + (b - a)),
        t.subrange(c, c + (b - a)) == s.subrange(a, b),
{
    reveal(is_joined_term);
    let d = c + (b - a);
    assert(s[a] == t[c]);
    assert(s[b - 1] == t[d - 1]);
    assert forall|j: int| c <= j < d implies is_ascii_word(#[trigger] t[j]) || is_dot_or_dash(
        t[j],
    ) by {
        assert(s[j - c + a] == t[j]);
    }
    assert forall|j: int| c <= j < d - 1 implies !(is_dot_or_dash(#[trigger] t[j])
        && is_dot_or_dash(t[j + 1])) by {
        assert(s[j - c + a] == t[j]);
        assert(s[j + 1 - c + a] == t[j + 1]);
    }
    let k = choose|j: int| a < j < b - 1 && (is_dot_or_dash(#[trigger] s[j]) || s[j] == '_');
    assert(s[k] == t[k - a + c]);
    let u = t.subrange(c, d);
    let v = s.subrange(a, b);
    assert forall|j: int| 0 <= j < b - a implies #[trigger] u[j] == v[j] by {
        assert(s[a + j] == t[a + j - a + c]);
    }
    assert(u =~= v);
}

/// A term starts where it did when nothing that it could go on with stands before the text.
proof fn lemma_embedded_start(l: Seq<char>, g: Seq<char>, r: Seq<char>, a: int)
    requires
        0 <= a <= g.len(),
        starts_term(g, a),
        l.len() > 0 ==> is_gap_char(l.last()) && !is_dot_or_dash(l.last()),
    ensures
        starts_term(l + g + r, l.len() + a),
{
    let t = l + g + r;
    let c = l.len() + a;
    if a == 0 {
        if l.len() > 0 {
            assert(t[c - 1] == l.last());
        }
    } else {
        assert(t[c - 1] == g[a - 1]);
        if a == 1 {
            if l.len() > 0 {
                assert(t[c - 2] == l.last());
            }
        } else {
            assert(t[c - 2] == g[a - 2]);
        }
    }
}

/// A term ends where it did when nothing that it could go on with stands behind the text.
proof fn lemma_embedded_end(l: Seq<char>, g: Seq<char>, r: Seq<char>, b: int)
    requires
        0 <= b <= g.len(),
        ends_term(g, b),
        r.len() > 0 ==> is_gap_char(r[0]) && !is_dot_or_dash(r[0]),
    ensures
        ends_term(l + g + r, l.len() + b),
{
    let t = l + g + r;
    let d = l.len() + b;
    if b == g.len() {
        if r.len() > 0 {
            assert(t[d] == r[0]);
        }
    } else {
        assert(t[d] == g[b]);
        if b + 1 == g.len() {
            if r.len() > 0 {
                assert(t[d + 1] == r[0]);
            }
        } else {
            assert(t[d + 1] == g[b + 1]);
        }
    }
}

/// A term in a text is one where nothing that it could go on with stands around the text.
proof fn lemma_embedded_term(l: Seq<char>, g: Seq<char>, r: Seq<char>, w: Seq<char>)
    requires
        holds_term(g, w),
        l.len() > 0 ==> is_gap_char(l.last()) && !is_dot_or_dash(l.last()),
        r.len() > 0 ==> is_gap_char(r[0]) && !is_dot_or_dash(r[0]),
    ensures
        holds_term(l + g + r, w),
{
    let a = choose|a: int| #[trigger]
        is_joined_term(g, a, a + w.len()) && g.subrange(a, a + w.len()) == w;
    lemma_term_ends(g, a, a + w.len());
    let b = a + w.len();
    let t = l + g + r;
    let c = l.len() + a;
    assert forall|j: int| a <= j < b implies #[trigger] g[j] == t[j - a + c] by {}
    lemma_embedded_start(l, g, r, a);
    lemma_embedded_end(l, g, r, b);
    lemma_moved_term(g, a, b, t, c);
}

/// A part of a text that holds the whole term holds it.
proof fn lemma_part_term(s: Seq<char>, w: Seq<char>, a: int, m: int, n: int)
    requires
        is_joined_term(s, a, a + w.len()),
        s.subrange(a, a + w.len()) == w,
        0 <= m <= a,
        a + w.len() <= n <= s.len(),
    ensures
        holds_term(s.subrange(m, n), w),
{
    lemma_term_ends(s, a, a + w.len());
    let b = a + w.len();
    let t = s.subrange(m, n);
    let c = a - m;
    assert forall|j: int| a <= j < b implies #[trigger] s[j] == t[j - a + c] by {}
    assert(starts_term(t, c)) by {
        if c > 0 {
            assert(t[c - 1] == s[a - 1]);
            if c > 1 {
                assert(t[c - 2] == s[a - 2]);
            }
        }
    }
    assert(ends_term(t, c + w.len())) by {
        if b < n {
            assert(t[c + w.len()] == s[b]);
            if b + 1 < n {
                assert(t[c + w.len() + 1] == s[b + 1]);
            }
        }
    }
    lemma_moved_term(s, a, b, t, c);
    assert(is_joined_term(t, c, c + w.len()));
}

/// A joined term of the texts around the phrases is one of the masked query.
proof fn lemma_masked_term(q: Seq<char>, k: nat, m: int, w: Seq<char>)
    requires
        0 <= m < gaps(q).len(),
        holds_term(gaps(q)[m], w),
    ensures
        holds_term(masked(q, k), w),
    decreases q.len(),
{
    let i = index_of(q, '"');
    let rest = q.skip(i + 1);
    let j = index_of(rest, '"');
    let none = Seq::<char>::empty();
    if 0 <= i < q.len() && 0 <= j < rest.len() {
        let tail = rest.skip(j + 1);
        let p = placeholder(k);
        lemma_placeholder(k);
        let back = masked(tail, k + 1);
        lemma_gap_char('\0');
        assert(is_gap_char('\0') && !is_dot_or_dash('\0'));
        if m == 0 {
            assert(gaps(q)[0] == q.take(i));
            assert((p + back)[0] == p[0]);
            lemma_embedded_term(none, q.take(i), p + back, w);
            assert(none + q.take(i) + (p + back) =~= masked(q, k));
        } else {
            assert(gaps(q)[m] == gaps(tail)[m - 1]);
            lemma_masked_term(tail, k + 1, m - 1, w);
            let front = q.take(i) + p;
            assert(front.last() == p.last());
            lemma_embedded_term(front, back, none, w);
            assert(front + back + none =~= masked(q, k));
        }
    }
}

/// Taking special characters out keeps the joined terms.
proof fn lemma_special_term(s: Seq<char>, w: Seq<char>)
    requires
        holds_term(s, w),
    ensures
        holds_term(without_special(s), w),
{
    let a = choose|a: int| #[trigger]
        is_joined_term(s, a, a + w.len()) && s.subrange(a, a + w.len()) == w;
    lemma_term_ends(s, a, a + w.len());
    let b = a + w.len();
    let t = without_special(s);
    lemma_gap_char(' ');
    assert(is_gap_char(' ') && !is_dot_or_dash(' '));
    assert forall|j: int| a <= j < b implies #[trigger] s[j] == t[j - a + a] by {
        lemma_term_char(s, a, b, j);
    }
    assert forall|j: int| 0 <= j < s.len() && is_gap_char(#[trigger] s[j]) implies is_gap_char(t[j])
        && (is_dot_or_dash(t[j]) ==> is_dot_or_dash(s[j])) by {}
    assert(starts_term(t, a)) by {
        if a > 0 {
            assert(is_gap_char(s[a - 1]));
            if a > 1 && is_dot_or_dash(s[a - 1]) {
                assert(is_gap_char(s[a - 2]));
            }
        }
    }
    assert(ends_term(t, b)) by {
        if b < s.len() {
            assert(is_gap_char(s[b]));
            if b + 1 < s.len() && is_dot_or_dash(s[b]) {
                assert(is_gap_char(s[b + 1]));
            }
        }
    }
    lemma_moved_term(s, a, b, t, a);
}

/// A joined term holds no asterisks.
proof fn lemma_term_has_no_star(s: Seq<char>, a: int, b: int)
    requires
        is_joined_term(s, a, b),
    ensures
        !s.subrange(a, b).contains('*'),
{
    lemma_term_ends(s, a, b);
    let w = s.subrange(a, b);
    if w.contains('*') {
        let i = choose|i: int| 0 <= i < w.len() && w[i] == '*';
        lemma_term_char(s, a, b, a + i);
    }
}

/// What a text starts with stays when runs of asterisks are shortened.
proof fn lemma_stars_first(s: Seq<char>)
    requires
        s.len() > 0,
    ensures
        single_stars(s).len() > 0,
        single_stars(s)[0] == s[0],
    decreases s.len(),
{
    if s.len() >= 2 {
        lemma_stars_first(s.drop_last());
    }
}

/// What stands beside a term once it is put together again from changed surroundings.
proof fn lemma_rejoined_term(
    s: Seq<char>,
    a: int,
    w: Seq<char>,
    l2: Seq<char>,
    r2: Seq<char>,
)
    requires
        is_joined_term(s, a, a + w.len()),
        s.subrange(a, a + w.len()) == w,
        starts_term(l2, l2.len() as int),
        ends_term(r2, 0),
    ensures
        holds_term(l2 + w + r2, w),
{
    lemma_term_ends(s, a, a + w.len());
    let b = a + w.len();
    let t = l2 + w + r2;
    let c = l2.len() as int;
    assert forall|j: int| a <= j < b implies #[trigger] s[j] == t[j - a + c] by {
        assert(w[j - a] == s[j]);
    }
    assert(starts_term(t, c)) by {
        if c > 0 {
            assert(t[c - 1] == l2[c - 1]);
            if c > 1 {
                assert(t[c - 2] == l2[c - 2]);
            }
        }
    }
    let d = c + w.len();
    assert(ends_term(t, d)) by {
        if r2.len() > 0 {
            assert(t[d] == r2[0]);
            if r2.len() > 1 {
                assert(t[d + 1] == r2[1]);
            }
        }
    }
    lemma_moved_term(s, a, b, t, c);
}

/// Shortening runs of asterisks keeps the joined terms.
#[verifier::rlimit(80)]
proof fn lemma_stars_term(s: Seq<char>, w: Seq<char>)
    requires
        holds_term(s, w),
    ensures
        holds_term(single_stars(s), w),
{
    let a = choose|a: int| #[trigger]
        is_joined_term(s, a, a + w.len()) && s.subrange(a, a + w.len()) == w;
    lemma_term_ends(s, a, a + w.len());
    let b = a + w.len();
    let l = s.take(a);
    let r = s.skip(b);
    assert(s =~= l + w + r);
    lemma_term_has_no_star(s, a, b);
    assert(w[0] == s[a] && w.last() == s[b - 1]);
    lemma_no_stars(w);
    lemma_stars_concat(l, w);
    assert((l + w).last() == w.last());
    lemma_stars_concat(l + w, r);
    let l2 = single_stars(l);
    let r2 = single_stars(r);
    assert(starts_term(l2, l2.len() as int)) by {
        if l.len() > 0 {
            lemma_stars(l);
            assert(l.last() == s[a - 1]);
            assert(l2[l2.len() - 1] == l.last());
            if is_dot_or_dash(l.last()) && l.len() > 1 {
                let f = l.drop_last();
                assert(f.last() == s[a - 2]);
                lemma_stars(f);
                assert(l2 == single_stars(f).push(l.last()));
                assert(l2[l2.len() - 2] == single_stars(f).last());
            } else if l.len() == 1 {
                assert(l2 == l);
            }
        }
    }
    assert(ends_term(r2, 0)) by {
        if r.len() > 0 {
            assert(r[0] == s[b]);
            lemma_stars_first(r);
            if is_dot_or_dash(r[0]) {
                let one = r.take(1);
                let more = r.skip(1);
                assert(r =~= one + more);
                assert(one.last() == r[0]);
                lemma_stars_concat(one, more);
                assert(single_stars(one) == one);
                assert(r2 == one + single_stars(more));
                if more.len() > 0 {
                    assert(more[0] == s[b + 1]);
                    lemma_stars_first(more);
                    assert(r2[1] == single_stars(more)[0]);
                } else {
                    assert(single_stars(more) =~= more);
                }
            }
        }
    }
    lemma_rejoined_term(s, a, w, l2, r2);
}

/// What a text starts and ends with when asterisks behind white space are taken out.
proof fn lemma_spaced_ends(s: Seq<char>)
    requires
        s.len() > 0,
    ensures
        without_spaced_stars(s).len() > 0,
        without_spaced_stars(s)[0] == s[0],
        without_spaced_stars(s).last() == s.last() || (s.last() == '*' && is_white_space(
            without_spaced_stars(s).last(),
        )),
    decreases s.len(),
{
    if s.len() >= 2 {
        if is_white_space(s[0]) && s[1] == '*' {
            let back = s.skip(2);
            if back.len() > 0 {
                lemma_spaced_ends(back);
                assert(back.last() == s.last());
            } else {
                assert(without_spaced_stars(back) =~= back);
                assert(s.last() == s[1]);
            }
        } else {
            let back = s.skip(1);
            lemma_spaced_ends(back);
            assert(back.last() == s.last());
        }
    }
}

/// Taking asterisks out behind white space keeps the joined terms.
#[verifier::rlimit(80)]
proof fn lemma_spaced_term(s: Seq<char>, w: Seq<char>)
    requires
        holds_term(s, w),
    ensures
        holds_term(without_spaced_stars(s), w),
{
    let a = choose|a: int| #[trigger]
        is_joined_term(s, a, a + w.len()) && s.subrange(a, a + w.len()) == w;
    lemma_term_ends(s, a, a + w.len());
    let b = a + w.len();
    let l = s.take(a);
    let r = s.skip(b);
    assert(s =~= l + w + r);
    lemma_term_has_no_star(s, a, b);
    assert(w[0] == s[a] && w.last() == s[b - 1]);
    assert(w[0] != '*') by {
        assert(!is_ascii_word('*'));
    }
    assert(!is_white_space(w.last())) by {
        lemma_word_is_not_white(s[b - 1]);
    }
    lemma_no_stars(w);
    lemma_spaced_concat(l, w);
    assert((l + w).last() == w.last());
    lemma_spaced_concat(l + w, r);
    let l2 = without_spaced_stars(l);
    let r2 = without_spaced_stars(r);
    assert(starts_term(l2, l2.len() as int)) by {
        if l.len() > 0 {
            lemma_spaced_ends(l);
            lemma_white_is_gap(l2.last());
            assert(l.last() == s[a - 1]);
            if is_dot_or_dash(l2.last()) {
                lemma_white_is_gap(l.last());
                let one = seq![l.last()];
                let f = l.drop_last();
                assert(l =~= f + one);
                assert(one[0] != '*');
                lemma_spaced_concat(f, one);
                assert(without_spaced_stars(one) == one);
                assert(l2 == without_spaced_stars(f) + one);
                if f.len() > 0 {
                    assert(f.last() == s[a - 2]);
                    lemma_spaced_ends(f);
                    lemma_white_is_gap(without_spaced_stars(f).last());
                    assert(l2[l2.len() - 2] == without_spaced_stars(f).last());
                } else {
                    assert(without_spaced_stars(f) =~= f);
                }
            }
        } else {
            assert(l2 =~= l);
        }
    }
    assert(ends_term(r2, 0)) by {
        if r.len() > 0 {
            assert(r[0] == s[b]);
            lemma_spaced_ends(r);
            if is_dot_or_dash(r[0]) {
                lemma_white_is_gap(r[0]);
                let one = r.take(1);
                let more = r.skip(1);
                assert(r =~= one + more);
                assert(one.last() == r[0]);
                lemma_spaced_concat(one, more);
                assert(without_spaced_stars(one) == one);
                assert(r2 == one + without_spaced_stars(more));
                if more.len() > 0 {
                    assert(more[0] == s[b + 1]);
                    lemma_spaced_ends(more);
                    assert(r2[1] == without_spaced_stars(more)[0]);
                } else {
                    assert(without_spaced_stars(more) =~= more);
                }
            }
        } else {
            assert(r2 =~= r);
        }
    }
    lemma_rejoined_term(s, a, w, l2, r2);
}

/// A word character is no white space.
proof fn lemma_word_is_not_white(c: char)
    requires
        is_ascii_word(c),
    ensures
        !is_white_space(c),
{
}

/// White space ends a term.
proof fn lemma_white_is_gap(c: char)
    ensures
        is_white_space(c) ==> is_gap_char(c) && !is_dot_or_dash(c),
        is_dot_or_dash(c) ==> !is_white_space(c),
{
    lemma_gap_char(c);
}

/// Trimming keeps the joined terms.
proof fn lemma_trim_start_term(s: Seq<char>, w: Seq<char>)
    requires
        holds_term(s, w),
    ensures
        holds_term(trim_start(s), w),
    decreases s.len(),
{
    if s.len() > 0 && is_white_space(s[0]) {
        let a = choose|a: int| #[trigger]
            is_joined_term(s, a, a + w.len()) && s.subrange(a, a + w.len()) == w;
        lemma_term_ends(s, a, a + w.len());
        assert(a > 0) by {
            lemma_word_is_not_white(s[a]);
        }
        lemma_part_term(s, w, a, 1, s.len() as int);
        assert(s.subrange(1, s.len() as int) =~= s.drop_first());
        lemma_trim_start_term(s.drop_first(), w);
    }
}

/// Trimming keeps the joined terms.
proof fn lemma_trim_end_term(s: Seq<char>, w: Seq<char>)
    requires
        holds_term(s, w),
    ensures
        holds_term(trim_end(s), w),
    decreases s.len(),
{
    if s.len() > 0 && is_white_space(s.last()) {
        let a = choose|a: int| #[trigger]
            is_joined_term(s, a, a + w.len()) && s.subrange(a, a + w.len()) == w;
        lemma_term_ends(s, a, a + w.len());
        let n = s.len() - 1;
        assert(a + w.len() <= n) by {
            lemma_word_is_not_white(s[a + w.len() - 1]);
        }
        lemma_part_term(s, w, a, 0, n);
        assert(s.subrange(0, n) =~= s.drop_last());
        lemma_trim_end_term(s.drop_last(), w);
    }
}

/// Taking the operator at the end out keeps the joined terms.
proof fn lemma_trailing_term(s: Seq<char>, w: Seq<char>)
    requires
        holds_term(s, w),
    ensures
        holds_term(without_trailing_operator(s), w),
{
    let t = trim_end(s);
    let p = last_word(t);
    lemma_trim_end_term(s, w);
    lemma_last_word(t);
    if 0 < p && is_operator(t.skip(p)) {
        let a = choose|a: int| #[trigger]
            is_joined_term(t, a, a + w.len()) && t.subrange(a, a + w.len()) == w;
        lemma_term_ends(t, a, a + w.len());
        let b = a + w.len();
        let o = t.skip(p);
        lemma_operator_letters(o);
        lemma_before_last_word(t);
        let j = lemma_term_joint(t, a, b);
        assert(j < p) by {
            if j >= p {
                assert(o[j - p] == t[j]);
            }
        }
        assert(b <= p) by {
            if b > p {
                // The white space before the last word would stand in the term.
                lemma_word_is_not_white(t[b - 1]);
                lemma_term_char(t, a, b, p - 1);
                lemma_white_is_gap(t[p - 1]);
            }
        }
        lemma_part_term(t, w, a, 0, p);
        assert(t.subrange(0, p) =~= t.take(p));
        lemma_trim_end_term(t.take(p), w);
    }
}

/// An operator is made of letters.
proof fn lemma_operator_letters(w: Seq<char>)
    requires
        is_operator(w),
    ensures
        2 <= w.len() <= 3,
        forall|i: int|
            0 <= i < w.len() ==> !is_dot_or_dash(#[trigger] w[i]) && w[i] != '_' && is_ascii_word(
                w[i],
            ),
{
    let l = w.map_values(|c: char| ascii_lower(c));
    assert(l.len() == w.len());
    assert(seq!['a', 'n', 'd'].len() == 3 && seq!['o', 'r'].len() == 2 && seq!['n', 'o', 't'].len()
        == 3);
    assert forall|i: int| 0 <= i < w.len() implies !is_dot_or_dash(#[trigger] w[i]) && w[i] != '_'
        && is_ascii_word(w[i]) by {
        assert(l[i] == ascii_lower(w[i]));
        assert(i == 0 || i == 1 || i == 2);
        let a = seq!['a', 'n', 'd'][i];
        let o = seq!['o', 'r'][i];
        let n = seq!['n', 'o', 't'][i];
        assert(a == 'a' || a == 'n' || a == 'd');
        assert(i < 2 ==> o == 'o' || o == 'r');
        assert(n == 'n' || n == 'o' || n == 't');
        lemma_letter(w[i], l[i]);
    }
}

/// What has a small letter for its small letter is a letter.
proof fn lemma_letter(c: char, l: char)
    requires
        l == ascii_lower(c),
        97 <= l as u32 <= 122,
    ensures
        is_ascii_word(c),
        !is_dot_or_dash(c),
        c != '_',
{
}

/// Before the last word stands white space.
proof fn lemma_before_last_word(s: Seq<char>)
    ensures
        0 < last_word(s) ==> is_white_space(s[last_word(s) - 1]),
    decreases s.len(),
{
    if s.len() > 0 && !is_white_space(s.last()) {
        lemma_before_last_word(s.drop_last());
        lemma_last_word(s.drop_last());
    }
}

/// Taking the operator at the start out keeps the joined terms that do not start with one.
proof fn lemma_leading_term(s: Seq<char>, w: Seq<char>)
    requires
        holds_term(s, w),
        !starts_like_operator(w),
    ensures
        start_is_settled(s) ==> holds_term(without_leading_operator(s), w),
        !start_is_settled(s) ==> holds_term(trim_start(s.skip(leading_operator(s))), w),
{
    let a = choose|a: int| #[trigger]
        is_joined_term(s, a, a + w.len()) && s.subrange(a, a + w.len()) == w;
    lemma_term_ends(s, a, a + w.len());
    let b = a + w.len();
    let n = leading_operator(s);
    if n > 0 && !(start_is_settled(s) && n < s.len() && is_ascii_word(s[n])) {
        let o = s.take(n);
        lemma_operator_letters(o);
        assert(a >= n) by {
            if a < n {
                if a > 0 {
                    assert(is_ascii_word(o[a - 1]));
                    assert(o[a - 1] == s[a - 1]);
                    lemma_gap_char(s[a - 1]);
                }
                let j = lemma_term_joint(s, a, b);
                assert(j >= n) by {
                    if j < n {
                        assert(o[j] == s[j]);
                    }
                }
                assert(n < b);
                lemma_term_char(s, a, b, n);
                if is_dot_or_dash(s[n]) {
                    assert(w[n] == s[n]);
                    assert(w.take(n) =~= o);
                    assert(starts_like_operator(w));
                } else {
                    lemma_word_is_ascii(s[n]);
                }
            }
        }
        lemma_part_term(s, w, a, n, s.len() as int);
        assert(s.subrange(n, s.len() as int) =~= s.skip(n));
        lemma_trim_start_term(s.skip(n), w);
    }
}

/// A word character of ASCII is an ASCII character.
pub proof fn lemma_word_is_ascii(c: char)
    requires
        is_ascii_word(c),
    ensures
        (c as u32) < 128,
{
}

/// Quoting stretches that end before a position leaves what stands from there on.
proof fn lemma_quoted_tail(s: Seq<char>, cuts: Seq<(int, int)>, p: int) -> (r: Seq<char>)
    requires
        are_joined_terms(s, cuts),
        0 <= p <= s.len(),
        forall|i: int| 0 <= i < cuts.len() ==> (#[trigger] cuts[i]).1 <= p,
    ensures
        quoted_at(s, cuts) == r + s.skip(p),
    decreases cuts.len(),
{
    if cuts.len() == 0 {
        assert(s =~= s.take(p) + s.skip(p));
        s.take(p)
    } else {
        let last = cuts.len() - 1;
        let (a, b) = cuts[last];
        let x = quoted_between(s, a, b);
        let front = cuts.drop_last();
        lemma_quoted_rest(s, cuts);
        assert forall|i: int| 0 <= i < front.len() implies (#[trigger] front[i]).1 <= p + 2 by {
            assert(front[i] == cuts[i]);
        }
        let r = lemma_quoted_tail(x, front, p + 2);
        assert(x.skip(p + 2) =~= s.skip(p));
        r
    }
}

/// Once the last stretch is quoted, the others have the looks of joined terms still.
#[verifier::rlimit(80)]
proof fn lemma_quoted_rest(s: Seq<char>, cuts: Seq<(int, int)>)
    requires
        are_joined_terms(s, cuts),
        cuts.len() > 0,
    ensures
        are_joined_terms(quoted_between(s, cuts.last().0, cuts.last().1), cuts.drop_last()),
{
    let last = cuts.len() - 1;
    let (a, b) = cuts[last];
    let r = quoted_between(s, a, b);
    let front = cuts.drop_last();
    assert(r[a] == '"');
    assert(!is_ascii_word('"') && !is_dot_or_dash('"'));
    assert forall|i: int| 0 <= i < front.len() implies {
        let (c, d) = #[trigger] front[i];
        &&& 0 <= c < d <= r.len()
        &&& has_joint(r.subrange(c, d))
        &&& forall|j: int| c <= j < d ==> is_term_char(#[trigger] r[j])
        &&& !is_dot_or_dash(r[c]) && !is_dot_or_dash(r[d - 1])
        &&& c > 0 ==> !is_ascii_word(r[c - 1])
        &&& c > 1 ==> !(is_dot_or_dash(r[c - 1]) && is_ascii_word(r[c - 2]))
        &&& d < r.len() ==> !is_ascii_word(r[d])
        &&& d + 1 < r.len() ==> !(is_dot_or_dash(r[d]) && is_ascii_word(r[d + 1]))
    } by {
        let (c, d) = cuts[i];
        assert(front[i] == cuts[i]);
        assert(cuts[i].1 <= cuts[last].0);
        assert(r.subrange(c, d) =~= s.subrange(c, d));
        assert forall|j: int| c <= j < d implies is_term_char(#[trigger] r[j]) by {
            assert(r[j] == s[j]);
        }
        if d < a {
            assert(r[d] == s[d]);
            if d + 1 < a {
                assert(r[d + 1] == s[d + 1]);
            }
        }
    }
    assert forall|i: int, j: int| 0 <= i < j < front.len() implies (#[trigger] front[i]).1 <= (
    #[trigger] front[j]).0 by {
        assert(cuts[i].1 <= cuts[j].0);
    }
}

/// A stretch that is quoted stands between two double quotes.
#[verifier::rlimit(40)]
proof fn lemma_quoted_stretch(s: Seq<char>, cuts: Seq<(int, int)>, n: int)
    requires
        are_joined_terms(s, cuts),
        0 <= n < cuts.len(),
    ensures
        contains(
            quoted_at(s, cuts),
            seq!['"'] + s.subrange(cuts[n].0, cuts[n].1) + seq!['"'],
        ),
    decreases cuts.len(),
{
    let last = cuts.len() - 1;
    let (a, b) = cuts[last];
    let x = quoted_between(s, a, b);
    let front = cuts.drop_last();
    lemma_quoted_rest(s, cuts);
    if n == last {
        let u = seq!['"'] + s.subrange(a, b) + seq!['"'];
        assert forall|i: int| 0 <= i < front.len() implies (#[trigger] front[i]).1 <= a by {
            assert(front[i] == cuts[i]);
            assert(cuts[i].1 <= cuts[last].0);
        }
        let h = lemma_quoted_tail(x, front, a);
        let y = quoted_at(x, front);
        let at = h.len() as int;
        assert(x.skip(a) =~= u + s.skip(b));
        assert(y.subrange(at, at + u.len()) =~= u);
        assert(occurs_at(y, u, at));
    } else {
        let (c, d) = cuts[n];
        assert(front[n] == cuts[n]);
        assert(cuts[n].1 <= cuts[last].0);
        lemma_quoted_stretch(x, front, n);
        assert(x.subrange(c, d) =~= s.subrange(c, d));
    }
}

/// A text without NUL that starts with a quote stays when placeholders are exchanged.
proof fn lemma_replace_keeps(x: Seq<char>, j: nat, p: Seq<char>, u: Seq<char>)
    requires
        contains(x, u),
        u.len() > 0,
        u[0] == '"',
        !u.contains('\0'),
    ensures
        contains(replace(x, placeholder(j), p), u),
    decreases x.len(),
{
    let q = placeholder(j);
    lemma_placeholder(j);
    lemma_find_from(x, q, 0);
    if let Some(i) = find_from(x, q, 0) {
        let e = i + q.len();
        let pos = choose|pos: int| occurs_at(x, u, pos);
        let end = pos + u.len();
        let b = x.skip(e);
        let r = x.take(i) + p + replace(b, q, p);
        assert(x.subrange(i, e) == q);
        assert(x[i] == q[0] && x[e - 1] == q.last());
        let w = x.subrange(pos, end);
        assert(w == u);
        if end <= i {
            assert(r.subrange(pos, end) =~= w);
            assert(occurs_at(r, u, pos));
        } else if pos >= e {
            assert(b.subrange(pos - e, end - e) =~= w);
            assert(occurs_at(b, u, pos - e));
            lemma_replace_keeps(b, j, p, u);
            let c = choose|c: int| occurs_at(replace(b, q, p), u, c);
            let off = i + p.len();
            assert(r.subrange(off + c, off + c + u.len()) =~= replace(b, q, p).subrange(
                c,
                c + u.len(),
            ));
            assert(occurs_at(r, u, off + c));
        } else if pos <= i {
            assert(w[i - pos] == '\0');
            assert(u.contains('\0'));
        } else {
            assert(w[0] == x[pos]);
            assert(x[pos] == q[pos - i]);
            if pos - i >= 2 && pos - i < q.len() - 1 {
                assert(48 <= q[pos - i] as u32);
            }
        }
    }
}

/// A text without NUL that starts with a quote stays when the phrases are put in.
proof fn lemma_restored_keeps(x: Seq<char>, ps: Seq<Seq<char>>, n: nat, u: Seq<char>)
    requires
        contains(x, u),
        u.len() > 0,
        u[0] == '"',
        !u.contains('\0'),
    ensures
        contains(restored(x, ps, n), u),
    decreases n,
{
    if n > 0 && n <= ps.len() {
        lemma_restored_keeps(x, ps, (n - 1) as nat, u);
        lemma_replace_keeps(
            restored(x, ps, (n - 1) as nat),
            (n - 1) as nat,
            ps[n - 1],
            u,
        );
    }
}

/// Trimming keeps a text that starts and ends with a quote.
proof fn lemma_trim_keeps(x: Seq<char>, u: Seq<char>)
    requires
        contains(x, u),
        u.len() > 0,
        u[0] == '"',
        u.last() == '"',
    ensures
        contains(trim(x), u),
{
    let (a, b) = lemma_trim_bounds(x);
    let t = trim(x);
    let pos = choose|pos: int| occurs_at(x, u, pos);
    let e = pos + u.len();
    let w = x.subrange(pos, e);
    assert(w == u);
    assert(x[pos] == w[0]);
    assert(x[e - 1] == w[w.len() - 1]);
    assert(!is_white_space('"'));
    assert(a <= pos) by {
        if pos < a {
            assert(is_white_space(x[pos]));
        }
    }
    assert(e <= b) by {
        if b <= e - 1 {
            assert(is_white_space(x[e - 1]));
        }
    }
    assert(t.subrange(pos - a, e - a) =~= w);
    assert(occurs_at(t, u, pos - a));
}

/// Every joined term around the phrases of a query stands between double quotes in what comes of
/// it, unless it starts with an operator.
pub proof fn lemma_terms_are_quoted(
    q: Seq<char>,
    lead: Seq<char>,
    cuts: Seq<(int, int)>,
    m: int,
    w: Seq<char>,
)
    requires
        start_is_settled(terms(q)) ==> lead == without_leading_operator(terms(q)),
        lead == terms(q) || lead == trim_start(terms(q).skip(leading_operator(terms(q)))),
        are_joined_terms(without_trailing_operator(trim_end(lead)), cuts),
        are_all_joined_terms(without_trailing_operator(trim_end(lead)), cuts),
        0 <= m < gaps(q).len(),
        holds_term(gaps(q)[m], w),
        !starts_like_operator(w),
    ensures
        ({
            let plain = without_trailing_operator(trim_end(lead));
            let r = trim(restored(quoted_at(plain, cuts), phrases(q), phrases(q).len()));
            contains(r, seq!['"'] + w + seq!['"'])
        }),
{
    let v = single_stars(without_special(masked(q, 0)));
    lemma_masked_term(q, 0, m, w);
    lemma_special_term(masked(q, 0), w);
    lemma_stars_term(without_special(masked(q, 0)), w);
    if v.len() > 0 && v[0] == '*' {
        let a = choose|a: int| #[trigger]
            is_joined_term(v, a, a + w.len()) && v.subrange(a, a + w.len()) == w;
        lemma_term_ends(v, a, a + w.len());
        lemma_part_term(v, w, a, 1, v.len() as int);
        assert(v.subrange(1, v.len() as int) =~= v.skip(1));
        lemma_spaced_term(v.skip(1), w);
    } else {
        lemma_spaced_term(v, w);
    }
    let c = without_leading_stars(v);
    lemma_trim_start_term(c, w);
    lemma_trim_end_term(trim_start(c), w);
    lemma_leading_term(terms(q), w);
    lemma_trim_end_term(lead, w);
    let plain = without_trailing_operator(trim_end(lead));
    lemma_trailing_term(trim_end(lead), w);
    let a = choose|a: int| #[trigger]
        is_joined_term(plain, a, a + w.len()) && plain.subrange(a, a + w.len()) == w;
    lemma_term_ends(plain, a, a + w.len());
    assert(cuts.contains((a, a + w.len())));
    let n = choose|n: int| 0 <= n < cuts.len() && cuts[n] == (a, a + w.len());
    lemma_quoted_stretch(plain, cuts, n);
    let u = seq!['"'] + w + seq!['"'];
    assert(!u.contains('\0')) by {
        if u.contains('\0') {
            let i = choose|i: int| 0 <= i < u.len() && u[i] == '\0';
            assert(0 < i < u.len() - 1);
            assert(w[i - 1] == '\0');
            assert(plain[a + i - 1] == '\0');
            lemma_term_char(plain, a, a + w.len(), a + i - 1);
        }
    }
    let x = quoted_at(plain, cuts);
    lemma_restored_keeps(x, phrases(q), phrases(q).len(), u);
    lemma_trim_keeps(restored(x, phrases(q), phrases(q).len()), u);
}

/// Every joined term that stands outside of the quotes is among the stretches.
spec fn bare_terms_are(s: Seq<char>, cuts: Seq<(int, int)>) -> bool {
    forall|a: int, b: int| #[trigger]
        is_joined_term(s, a, b) && quote_count(s.take(a)) % 2 == 0 ==> cuts.contains((a, b))
}

/// A joined term before a stretch that is quoted was one before.
proof fn lemma_bare_before(s: Seq<char>, c: int, d: int, a: int, b: int)
    requires
        0 <= c < d <= s.len(),
        c > 0 ==> !is_ascii_word(s[c - 1]),
        c > 1 ==> !(is_dot_or_dash(s[c - 1]) && is_ascii_word(s[c - 2])),
        is_joined_term(quoted_between(s, c, d), a, b),
        b <= c,
    ensures
        is_joined_term(s, a, b),
        quoted_between(s, c, d).take(a) == s.take(a),
{
    let x = quoted_between(s, c, d);
    lemma_term_ends(x, a, b);
    assert forall|j: int| a <= j < b implies #[trigger] x[j] == s[j - a + a] by {}
    assert(starts_term(s, a)) by {
        if a > 0 {
            assert(x[a - 1] == s[a - 1]);
            if a > 1 {
                assert(x[a - 2] == s[a - 2]);
            }
        }
    }
    assert(x[b - 1] == s[b - 1]);
    assert(ends_term(s, b)) by {
        if b < c {
            assert(x[b] == s[b]);
            if b + 1 < c {
                assert(x[b + 1] == s[b + 1]);
            } else if is_dot_or_dash(s[b]) {
                // A word character before the joint before the stretch.
                assert(s[c - 1] == s[b] && s[c - 2] == s[b - 1]);
            }
        } else {
            assert(s[c - 1] == s[b - 1]);
        }
    }
    lemma_moved_term(x, a, b, s, a);
    assert(x.take(a) =~= s.take(a));
}

/// A joined term behind a stretch that is quoted was one before, with two quotes less before it.
proof fn lemma_bare_behind(s: Seq<char>, c: int, d: int, a: int, b: int)
    requires
        0 <= c < d <= s.len(),
        d < s.len() ==> !is_ascii_word(s[d]),
        d + 1 < s.len() ==> !(is_dot_or_dash(s[d]) && is_ascii_word(s[d + 1])),
        is_joined_term(quoted_between(s, c, d), a, b),
        a > d + 1,
    ensures
        is_joined_term(s, a - 2, b - 2),
        quote_count(quoted_between(s, c, d).take(a)) == quote_count(s.take(a - 2)) + 2,
{
    let x = quoted_between(s, c, d);
    lemma_term_ends(x, a, b);
    let e = a - 2;
    let f = b - 2;
    assert forall|j: int| a <= j < b implies #[trigger] x[j] == s[j - a + e] by {}
    assert(x[a] == s[e]);
    assert(starts_term(s, e)) by {
        if e == d {
            assert(is_ascii_word(s[d]));
        } else {
            assert(x[a - 1] == s[e - 1]);
            if e - 1 == d {
                assert(is_dot_or_dash(s[d]) ==> is_ascii_word(s[d + 1]));
            } else {
                assert(x[a - 2] == s[e - 2]);
            }
        }
    }
    assert(ends_term(s, f)) by {
        if f < s.len() {
            assert(x[b] == s[f]);
            if f + 1 < s.len() {
                assert(x[b + 1] == s[f + 1]);
            }
        }
    }
    lemma_moved_term(x, a, b, s, e);
    lemma_two_quotes(s, c, d, e);
}

/// Quoting a stretch puts two quotes before what stands behind it.
proof fn lemma_two_quotes(s: Seq<char>, c: int, d: int, e: int)
    requires
        0 <= c < d <= e <= s.len(),
    ensures
        quote_count(quoted_between(s, c, d).take(e + 2)) == quote_count(s.take(e)) + 2,
{
    let x = quoted_between(s, c, d);
    let one = seq!['"'];
    let p = one + s.subrange(c, d) + one;
    assert(x.take(e + 2) =~= s.take(c) + p + s.subrange(d, e));
    assert(s.take(e) =~= s.take(c) + s.subrange(c, d) + s.subrange(d, e));
    lemma_count_concat(s.take(c) + p, s.subrange(d, e));
    lemma_count_concat(s.take(c), p);
    lemma_count_concat(one + s.subrange(c, d), one);
    lemma_count_concat(one, s.subrange(c, d));
    lemma_count_concat(s.take(c) + s.subrange(c, d), s.subrange(d, e));
    lemma_count_concat(s.take(c), s.subrange(c, d));
    lemma_count_one();
}

/// Within a stretch that is quoted, one quote stands before.
proof fn lemma_bare_within(s: Seq<char>, c: int, d: int, a: int)
    requires
        0 <= c < d <= s.len(),
        c < a <= d + 1,
        !s.take(d).contains('"'),
    ensures
        quote_count(quoted_between(s, c, d).take(a)) == 1,
{
    let x = quoted_between(s, c, d);
    let one = seq!['"'];
    let w = s.subrange(c, a - 1);
    assert(x.take(a) =~= s.take(c) + one + w);
    lemma_count_concat(s.take(c) + one, w);
    lemma_count_concat(s.take(c), one);
    lemma_count_one();
    assert(!s.take(c).contains('"')) by {
        if s.take(c).contains('"') {
            let i = choose|i: int| 0 <= i < s.take(c).len() && s.take(c)[i] == '"';
            assert(s.take(d)[i] == '"');
        }
    }
    assert(!w.contains('"')) by {
        if w.contains('"') {
            let i = choose|i: int| 0 <= i < w.len() && w[i] == '"';
            assert(s.take(d)[c + i] == '"');
        }
    }
    lemma_count_none(s.take(c));
    lemma_count_none(w);
}

/// Where a joined term stands in a text with a quoted stretch: before it, behind it or in it.
proof fn lemma_beside_quotes(s: Seq<char>, c: int, d: int, a: int, b: int)
    requires
        0 <= c < d <= s.len(),
        is_joined_term(quoted_between(s, c, d), a, b),
    ensures
        b <= c || a > d + 1 || c < a <= d + 1,
{
    let x = quoted_between(s, c, d);
    lemma_term_ends(x, a, b);
    assert(x[c] == '"');
    if b > c && a <= c {
        lemma_term_char(x, a, b, c);
    }
}

/// Quoting the last stretch leaves no joined term outside of the quotes but the other stretches.
proof fn lemma_one_less_bare(s: Seq<char>, cuts: Seq<(int, int)>)
    requires
        are_joined_terms(s, cuts),
        bare_terms_are(s, cuts),
        cuts.len() > 0,
        !s.take(cuts.last().1).contains('"'),
    ensures
        bare_terms_are(
            quoted_between(s, cuts.last().0, cuts.last().1),
            cuts.drop_last(),
        ),
{
    let last = cuts.len() - 1;
    let (c, d) = cuts[last];
    let front = cuts.drop_last();
    let x = quoted_between(s, c, d);
    assert forall|a: int, b: int| #[trigger]
        is_joined_term(x, a, b) && quote_count(x.take(a)) % 2 == 0 implies front.contains(
        (a, b),
    ) by {
        lemma_term_ends(x, a, b);
        lemma_beside_quotes(s, c, d, a, b);
        if b <= c {
            lemma_bare_before(s, c, d, a, b);
            assert(cuts.contains((a, b)));
            let n = choose|n: int| 0 <= n < cuts.len() && cuts[n] == (a, b);
            if n == last {
                assert(a == c);
            }
            assert(front[n] == (a, b));
        } else if a > d + 1 {
            lemma_bare_behind(s, c, d, a, b);
            assert(cuts.contains((a - 2, b - 2)));
            let n = choose|n: int| 0 <= n < cuts.len() && cuts[n] == (a - 2, b - 2);
            if n < last {
                assert(cuts[n].1 <= cuts[last].0);
            }
        } else {
            lemma_bare_within(s, c, d, a);
        }
    }
}

/// A quote alone is one quote.
proof fn lemma_count_one()
    ensures
        quote_count(seq!['"']) == 1,
{
    let one = seq!['"'];
    assert(one.drop_last() =~= Seq::<char>::empty());
    assert(quote_count(Seq::<char>::empty()) == 0);
    assert(one.last() == '"');
}

/// Quoting all stretches leaves no joined term outside of the quotes.
proof fn lemma_none_bare(s: Seq<char>, cuts: Seq<(int, int)>)
    requires
        are_joined_terms(s, cuts),
        bare_terms_are(s, cuts),
        cuts.len() > 0 ==> !s.take(cuts.last().1).contains('"'),
    ensures
        has_no_bare_term(quoted_at(s, cuts)),
    decreases cuts.len(),
{
    if cuts.len() > 0 {
        let last = cuts.len() - 1;
        let (c, d) = cuts[last];
        let x = quoted_between(s, c, d);
        let front = cuts.drop_last();
        lemma_one_less_bare(s, cuts);
        lemma_quoted_rest(s, cuts);
        if front.len() > 0 {
            let b = front.last().1;
            assert(front.last() == cuts[last - 1]);
            assert(cuts[last - 1].1 <= cuts[last].0);
            if x.take(b).contains('"') {
                let i = choose|i: int| 0 <= i < x.take(b).len() && x.take(b)[i] == '"';
                assert(s.take(d)[i] == '"');
            }
        }
        lemma_none_bare(x, front);
    } else {
        assert forall|a: int, b: int| #[trigger] is_joined_term(s, a, b) implies quote_count(
            s.take(a),
        ) % 2 == 1 by {
            if quote_count(s.take(a)) % 2 == 0 {
                assert(cuts.contains((a, b)));
            }
        }
    }
}

/// Putting a phrase in for a placeholder outside of the quotes bares no joined term.
#[verifier::rlimit(80)]
proof fn lemma_exchange_bare(a: Seq<char>, q: Seq<char>, b: Seq<char>, p: Seq<char>)
    requires
        has_no_bare_term(a + q + b),
        quote_count(a) % 2 == 0,
        quote_count(q) == 0,
        is_phrase(p),
        q.len() > 0,
        q[0] == '\0',
        q.last() == '\0',
    ensures
        has_no_bare_term(a + p + b),
{
    let x = a + q + b;
    let y = a + p + b;
    let n = a.len() as int;
    let e = n + p.len();
    let f = n + q.len();
    lemma_phrase_count(p);
    lemma_gap_char('"');
    lemma_gap_char('\0');
    assert(is_gap_char('"') && !is_dot_or_dash('"') && !is_ascii_word('"'));
    assert(is_gap_char('\0') && !is_dot_or_dash('\0'));
    assert(y[n] == '"' && y[e - 1] == '"');
    assert(x[n] == '\0' && x[f - 1] == '\0');
    assert forall|c: int, d: int| #[trigger] is_joined_term(y, c, d) implies quote_count(y.take(c))
        % 2 == 1 by {
        lemma_term_ends(y, c, d);
        if c <= n && d > n {
            lemma_term_char(y, c, d, n);
        }
        if c <= e - 1 && d > e - 1 {
            lemma_term_char(y, c, d, e - 1);
        }
        if d <= n {
            assert forall|j: int| c <= j < d implies #[trigger] y[j] == x[j - c + c] by {}
            assert(starts_term(x, c)) by {
                if c > 0 {
                    assert(x[c - 1] == y[c - 1]);
                    if c > 1 {
                        assert(x[c - 2] == y[c - 2]);
                    }
                }
            }
            assert(ends_term(x, d)) by {
                if d < n {
                    assert(x[d] == y[d]);
                    if d + 1 < n {
                        assert(x[d + 1] == y[d + 1]);
                    }
                }
            }
            lemma_moved_term(y, c, d, x, c);
            assert(y.take(c) =~= x.take(c));
        } else if c >= e {
            let g = c - e + f;
            let h = d - e + f;
            assert forall|j: int| c <= j < d implies #[trigger] y[j] == x[j - c + g] by {}
            assert(starts_term(x, g)) by {
                if c > e {
                    assert(x[g - 1] == y[c - 1]);
                    if c > e + 1 {
                        assert(x[g - 2] == y[c - 2]);
                    }
                }
            }
            assert(ends_term(x, h)) by {
                if d < y.len() {
                    assert(x[h] == y[d]);
                    if d + 1 < y.len() {
                        assert(x[h + 1] == y[d + 1]);
                    }
                }
            }
            lemma_moved_term(y, c, d, x, g);
            assert(is_joined_term(x, g, h));
            let t = b.take(c - e);
            assert(y.take(c) =~= a + p + t);
            assert(x.take(g) =~= a + q + t);
            lemma_count_concat(a + p, t);
            lemma_count_concat(a, p);
            lemma_count_concat(a + q, t);
            lemma_count_concat(a, q);
        } else {
            let t = p.take(c - n);
            assert(y.take(c) =~= a + t);
            lemma_count_concat(a, t);
            assert(quote_count(t) == 1);
        }
    }
}

/// Putting a phrase in for the placeholders with its number behind a text bares no joined term.
proof fn lemma_replace_bare(pre: Seq<char>, x: Seq<char>, p: Seq<char>, j: nat)
    requires
        is_tidy(pre + x),
        has_no_bare_term(pre + x),
        is_phrase(p),
        !p.contains('\0'),
    ensures
        has_no_bare_term(pre + replace(x, placeholder(j), p)),
    decreases x.len(),
{
    let q = placeholder(j);
    lemma_placeholder(j);
    lemma_find_from(x, q, 0);
    if let Some(i) = find_from(x, q, 0) {
        let t = pre + x.take(i);
        let b = x.skip(i + q.len());
        assert(x.subrange(i, i + q.len()) == q);
        assert(pre + x =~= t + q + b);
        assert(quote_count(t) % 2 == 0) by {
            assert((t + q + b)[t.len() as int] == q[0]);
            assert((t + q + b).take(t.len() as int) =~= t);
        }
        lemma_placeholder_quotes(j);
        lemma_phrase_count(p);
        assert forall|m: int| 0 <= m < p.len() implies {
            &&& #[trigger] p[m] != '\0'
            &&& (is_special(p[m]) && p[m] != '"') || is_pair(p, m) ==> (quote_count(t)
                + quote_count(p.take(m))) % 2 == 1
        } by {
            if m > 0 {
                assert(quote_count(p.take(m)) == 1);
            }
        }
        lemma_exchange(t, q, b, p);
        lemma_exchange_bare(t, q, b, p);
        lemma_replace_bare(t + p, b, p, j);
        assert(pre + replace(x, q, p) =~= t + p + replace(b, q, p));
    }
}

/// A placeholder holds no quotes.
proof fn lemma_placeholder_quotes(j: nat)
    ensures
        quote_count(placeholder(j)) == 0,
{
    let q = placeholder(j);
    lemma_placeholder(j);
    if q.contains('"') {
        let m = choose|m: int| 0 <= m < q.len() && q[m] == '"';
        if 2 <= m < q.len() - 1 {
            assert(48 <= q[m] as u32);
        }
    }
    lemma_count_none(q);
}

/// Putting the phrases in bares no joined term.
proof fn lemma_restored_bare(x: Seq<char>, ps: Seq<Seq<char>>, j: nat)
    requires
        is_tidy(x),
        has_no_bare_term(x),
        j <= ps.len(),
        forall|m: int|
            0 <= m < ps.len() ==> is_phrase(#[trigger] ps[m]) && !ps[m].contains('\0'),
    ensures
        has_no_bare_term(restored(x, ps, j)),
    decreases j,
{
    if j > 0 {
        let k = (j - 1) as nat;
        lemma_restored_bare(x, ps, k);
        lemma_restored_tidy(x, ps, k);
        let y = restored(x, ps, k);
        let none = Seq::<char>::empty();
        assert(none + y =~= y);
        lemma_replace_bare(none, y, ps[k as int], k);
        let r = replace(y, placeholder(k), ps[k as int]);
        assert(none + r =~= r);
    }
}

/// Trimming bares no joined term.
proof fn lemma_trim_bare(x: Seq<char>)
    requires
        has_no_bare_term(x),
    ensures
        has_no_bare_term(trim(x)),
{
    let (m, n) = lemma_trim_bounds(x);
    let t = trim(x);
    let left = x.take(m);
    if left.contains('"') {
        let i = choose|i: int| 0 <= i < left.len() && left[i] == '"';
        assert(is_white_space(x[i]));
        assert(!is_white_space('"'));
    }
    lemma_count_none(left);
    assert forall|a: int, b: int| #[trigger] is_joined_term(t, a, b) implies quote_count(t.take(a))
        % 2 == 1 by {
        lemma_term_ends(t, a, b);
        let c = a + m;
        let d = b + m;
        assert forall|j: int| a <= j < b implies #[trigger] t[j] == x[j - a + c] by {}
        if m > 0 {
            assert(is_white_space(x[m - 1]));
            lemma_white_is_gap(x[m - 1]);
        }
        if n < x.len() {
            assert(is_white_space(x[n]));
            lemma_white_is_gap(x[n]);
        }
        assert(starts_term(x, c)) by {
            if a > 0 {
                assert(x[c - 1] == t[a - 1]);
                if a > 1 {
                    assert(x[c - 2] == t[a - 2]);
                }
            }
        }
        assert(ends_term(x, d)) by {
            if b < t.len() {
                assert(x[d] == t[b]);
                if b + 1 < t.len() {
                    assert(x[d + 1] == t[b + 1]);
                }
            }
        }
        lemma_moved_term(t, a, b, x, c);
        assert(is_joined_term(x, c, d));
        assert(x.take(c) =~= left + t.take(a));
        lemma_count_concat(left, t.take(a));
    }
}

/// No joined term of what comes of a query without NUL stands outside of the quotes.
pub proof fn lemma_no_bare_term(q: Seq<char>, lead: Seq<char>, cuts: Seq<(int, int)>)
    requires
        !q.contains('\0'),
        lead == terms(q) || lead == trim_start(terms(q).skip(leading_operator(terms(q)))),
        are_joined_terms(without_trailing_operator(trim_end(lead)), cuts),
        are_all_joined_terms(without_trailing_operator(trim_end(lead)), cuts),
    ensures
        ({
            let plain = without_trailing_operator(trim_end(lead));
            let r = trim(restored(quoted_at(plain, cuts), phrases(q), phrases(q).len()));
            has_no_bare_term(r)
        }),
{
    let ps = phrases(q);
    let n = ps.len();
    let t = terms(q);
    lemma_terms_woven(q);
    lemma_leading_woven(t, n);
    let e = trim_end(lead);
    lemma_trim_end_woven(lead, n);
    let plain = without_trailing_operator(e);
    lemma_trailing_woven(e, n);
    assert forall|i: int| 0 <= i < plain.len() implies !is_special(#[trigger] plain[i]) by {
        let c = plain[i];
        assert(plain.contains(c));
        assert(e.contains(c));
        assert(lead.contains(c));
        assert(t.contains(c));
    }
    lemma_plain_is_tidy(plain);
    let x = quoted_at(plain, cuts);
    lemma_quoted_at(plain, cuts, n);
    if cuts.len() > 0 {
        let b = cuts.last().1;
        assert(cuts[cuts.len() - 1].1 == b);
        if plain.take(b).contains('"') {
            let i = choose|i: int| 0 <= i < plain.take(b).len() && plain.take(b)[i] == '"';
            assert(is_special(plain[i]));
        }
    }
    lemma_none_bare(plain, cuts);
    assert forall|m: int| 0 <= m < n implies is_phrase(#[trigger] ps[m]) && !ps[m].contains(
        '\0',
    ) by {
        lemma_phrases(q, m);
    }
    lemma_restored_bare(x, ps, n);
    lemma_trim_bare(restored(x, ps, n));
}

// ---------------------------------------------------------------------------
// Letters
// ---------------------------------------------------------------------------

/// A text with one character more has its letters, and the character where that is one.
proof fn lemma_letters_push(s: Seq<char>, c: char)
    ensures
        letters(s.push(c)) == if is_letter(c) {
            letters(s).push(c)
        } else {
            letters(s)
        },
{
    reveal(Seq::filter);
    assert(s.push(c).drop_last() =~= s);
}

/// The letters of two texts one after the other.
proof fn lemma_letters_concat(a: Seq<char>, b: Seq<char>)
    ensures
        letters(a + b) == letters(a) + letters(b),
    decreases b.len(),
{
    if b.len() == 0 {
        reveal(Seq::filter);
        assert(a + b =~= a);
        assert(letters(b) =~= Seq::<char>::empty());
    } else {
        let f = b.drop_last();
        lemma_letters_concat(a, f);
        assert(a + b =~= (a + f).push(b.last()));
        assert(b =~= f.push(b.last()));
        lemma_letters_push(a + f, b.last());
        lemma_letters_push(f, b.last());
        assert(letters(a + b) =~= letters(a) + letters(b));
    }
}

/// A text of nothing but letters, and one without any.
proof fn lemma_letters_all(s: Seq<char>)
    ensures
        (forall|i: int| 0 <= i < s.len() ==> is_letter(#[trigger] s[i])) ==> letters(s) == s,
        (forall|i: int| 0 <= i < s.len() ==> !is_letter(#[trigger] s[i])) ==> letters(s)
            == Seq::<char>::empty(),
    decreases s.len(),
{
    if s.len() == 0 {
        reveal(Seq::filter);
        assert(letters(s) =~= s);
    } else {
        let f = s.drop_last();
        lemma_letters_all(f);
        assert(s =~= f.push(s.last()));
        lemma_letters_push(f, s.last());
        if forall|i: int| 0 <= i < s.len() ==> is_letter(#[trigger] s[i]) {
            assert forall|i: int| 0 <= i < f.len() implies is_letter(#[trigger] f[i]) by {
                assert(f[i] == s[i]);
            }
            assert(is_letter(s[s.len() - 1]));
        }
        if forall|i: int| 0 <= i < s.len() ==> !is_letter(#[trigger] s[i]) {
            assert forall|i: int| 0 <= i < f.len() implies !is_letter(#[trigger] f[i]) by {
                assert(f[i] == s[i]);
            }
            assert(!is_letter(s[s.len() - 1]));
        }
    }
}

/// The letters of a text stand in it.
proof fn lemma_letters_contains(s: Seq<char>, c: char)
    ensures
        letters(s).contains(c) ==> s.contains(c),
    decreases s.len(),
{
    if s.len() == 0 {
        reveal(Seq::filter);
    } else {
        let f = s.drop_last();
        lemma_letters_contains(f, c);
        assert(s =~= f.push(s.last()));
        lemma_letters_push(f, s.last());
        if letters(s).contains(c) {
            let i = choose|i: int| 0 <= i < letters(s).len() && letters(s)[i] == c;
            if i < letters(f).len() {
                assert(letters(f)[i] == c);
                let n = choose|n: int| 0 <= n < f.len() && f[n] == c;
                assert(s[n] == c);
            } else {
                assert(s[s.len() - 1] == c);
            }
        }
    }
}

/// A special character is no letter, and neither is the space that comes for it.
proof fn lemma_no_letter(c: char)
    ensures
        is_special(c) ==> !is_letter(c),
        is_white_space(c) ==> !is_letter(c),
        c == '*' ==> !is_letter(c),
        !is_letter(' '),
        is_ascii_word(c) || c == '\0' ==> is_letter(c),
{
}

/// Taking special characters out keeps the letters.
proof fn lemma_letters_special(s: Seq<char>)
    ensures
        letters(without_special(s)) == letters(s),
    decreases s.len(),
{
    if s.len() == 0 {
        assert(without_special(s) =~= s);
    } else {
        let f = s.drop_last();
        lemma_letters_special(f);
        let c: char = if is_special(s.last()) {
            ' '
        } else {
            s.last()
        };
        assert(without_special(s) =~= without_special(f).push(c));
        assert(s =~= f.push(s.last()));
        lemma_letters_push(without_special(f), c);
        lemma_letters_push(f, s.last());
        lemma_no_letter(s.last());
    }
}

/// Shortening runs of asterisks keeps the letters.
proof fn lemma_letters_stars(s: Seq<char>)
    ensures
        letters(single_stars(s)) == letters(s),
    decreases s.len(),
{
    if s.len() >= 2 {
        let f = s.drop_last();
        lemma_letters_stars(f);
        assert(s =~= f.push(s.last()));
        lemma_letters_push(f, s.last());
        lemma_letters_push(single_stars(f), s.last());
        lemma_no_letter(s.last());
    }
}

/// Taking asterisks out behind white space keeps the letters.
proof fn lemma_letters_spaced(s: Seq<char>)
    ensures
        letters(without_spaced_stars(s)) == letters(s),
    decreases s.len(),
{
    if s.len() >= 2 {
        let h = seq![s[0]];
        if is_white_space(s[0]) && s[1] == '*' {
            lemma_letters_spaced(s.skip(2));
            let g = seq!['*'];
            assert(s =~= h + (g + s.skip(2)));
            lemma_letters_concat(h, g + s.skip(2));
            lemma_letters_concat(g, s.skip(2));
            lemma_no_letter('*');
            lemma_letters_all(g);
            assert(letters(g) + letters(s.skip(2)) =~= letters(s.skip(2)));
            lemma_letters_concat(h, without_spaced_stars(s.skip(2)));
        } else {
            lemma_letters_spaced(s.skip(1));
            assert(s =~= h + s.skip(1));
            lemma_letters_concat(h, s.skip(1));
            lemma_letters_concat(h, without_spaced_stars(s.skip(1)));
        }
    }
}

/// Taking asterisks out at the start of words keeps the letters.
proof fn lemma_letters_leading_stars(s: Seq<char>)
    ensures
        letters(without_leading_stars(s)) == letters(s),
{
    if s.len() > 0 && s[0] == '*' {
        let g = seq!['*'];
        assert(s =~= g + s.skip(1));
        lemma_letters_concat(g, s.skip(1));
        lemma_no_letter('*');
        lemma_letters_all(g);
        assert(letters(g) + letters(s.skip(1)) =~= letters(s.skip(1)));
        lemma_letters_spaced(s.skip(1));
    } else {
        lemma_letters_spaced(s);
    }
}

/// Trimming keeps the letters.
proof fn lemma_letters_trim_start(s: Seq<char>)
    ensures
        letters(trim_start(s)) == letters(s),
    decreases s.len(),
{
    if s.len() > 0 && is_white_space(s[0]) {
        let g = seq![s[0]];
        assert(s =~= g + s.drop_first());
        lemma_letters_concat(g, s.drop_first());
        lemma_no_letter(s[0]);
        lemma_letters_all(g);
        assert(letters(g) + letters(s.drop_first()) =~= letters(s.drop_first()));
        lemma_letters_trim_start(s.drop_first());
    }
}

/// Trimming keeps the letters.
proof fn lemma_letters_trim_end(s: Seq<char>)
    ensures
        letters(trim_end(s)) == letters(s),
    decreases s.len(),
{
    if s.len() > 0 && is_white_space(s.last()) {
        assert(s =~= s.drop_last().push(s.last()));
        lemma_letters_push(s.drop_last(), s.last());
        lemma_no_letter(s.last());
        lemma_letters_trim_end(s.drop_last());
    }
}

/// Trimming keeps the letters.
proof fn lemma_letters_trim(s: Seq<char>)
    ensures
        letters(trim(s)) == letters(s),
{
    lemma_letters_trim_start(s);
    lemma_letters_trim_end(trim_start(s));
}

/// An operator is made of letters.
proof fn lemma_letters_operator(w: Seq<char>)
    requires
        is_operator(w),
    ensures
        letters(w) == w,
{
    lemma_operator_letters(w);
    assert forall|i: int| 0 <= i < w.len() implies is_letter(#[trigger] w[i]) by {
        lemma_no_letter(w[i]);
    }
    lemma_letters_all(w);
}

/// Quoting a stretch keeps the letters.
proof fn lemma_letters_quoted(s: Seq<char>, a: int, b: int)
    requires
        0 <= a <= b <= s.len(),
    ensures
        letters(quoted_between(s, a, b)) == letters(s),
{
    let g = seq!['"'];
    let m = s.subrange(a, b);
    lemma_no_letter('"');
    lemma_letters_all(g);
    lemma_letters_concat(s.take(a) + (g + m + g), s.skip(b));
    lemma_letters_concat(s.take(a), g + m + g);
    lemma_letters_concat(g + m, g);
    lemma_letters_concat(g, m);
    assert(s =~= s.take(a) + m + s.skip(b));
    lemma_letters_concat(s.take(a) + m, s.skip(b));
    lemma_letters_concat(s.take(a), m);
    assert(letters(quoted_between(s, a, b)) =~= letters(s));
}

/// Quoting joined terms keeps the letters.
proof fn lemma_letters_quoted_at(s: Seq<char>, cuts: Seq<(int, int)>)
    requires
        are_joined_terms(s, cuts),
    ensures
        letters(quoted_at(s, cuts)) == letters(s),
    decreases cuts.len(),
{
    if cuts.len() > 0 {
        let (a, b) = cuts.last();
        assert(cuts[cuts.len() - 1] == (a, b));
        lemma_letters_quoted(s, a, b);
        lemma_quoted_rest(s, cuts);
        lemma_letters_quoted_at(quoted_between(s, a, b), cuts.drop_last());
    }
}

/// The letters of a text, with those of the phrases from the number `k` on put in for their
/// placeholders.
spec fn filled(t: Seq<char>, ps: Seq<Seq<char>>, k: nat) -> Seq<char>
    decreases ps.len() - k,
{
    let i = index_of(t, '\0');
    let m = placeholder(k).len();
    if k >= ps.len() || i + m > t.len() {
        t
    } else {
        t.take(i) + letters(ps[k as int]) + filled(t.skip(i + m), ps, k + 1)
    }
}

/// Where NUL stands behind a text without it.
proof fn lemma_index_behind(u: Seq<char>, t: Seq<char>)
    requires
        !u.contains('\0'),
    ensures
        index_of(u + t, '\0') == u.len() + index_of(t, '\0'),
{
    lemma_index_of(t, '\0');
    let n = index_of(t, '\0');
    assert forall|i: int| 0 <= i < u.len() + n implies (u + t)[i] != '\0' by {
        if i < u.len() {
            assert(u.contains(u[i]));
        } else {
            assert((u + t)[i] == t[i - u.len()]);
        }
    }
    lemma_index_of_is(u + t, '\0', u.len() + n);
}

/// What stands before the first placeholder stays.
proof fn lemma_filled_behind(u: Seq<char>, t: Seq<char>, ps: Seq<Seq<char>>, k: nat)
    requires
        !u.contains('\0'),
    ensures
        filled(u + t, ps, k) == u + filled(t, ps, k),
{
    lemma_index_behind(u, t);
    lemma_index_of(t, '\0');
    let i = index_of(t, '\0');
    let m = placeholder(k).len();
    if k < ps.len() && i + m <= t.len() {
        assert((u + t).take(u.len() + i) =~= u + t.take(i));
        assert((u + t).skip(u.len() + i + m) =~= t.skip(i + m));
        assert(filled(u + t, ps, k) =~= u + filled(t, ps, k));
    }
}

/// Putting one phrase in.
proof fn lemma_filled_one(u: Seq<char>, t: Seq<char>, ps: Seq<Seq<char>>, k: nat)
    requires
        !u.contains('\0'),
        k < ps.len(),
    ensures
        filled(u + placeholder(k) + t, ps, k) == u + letters(ps[k as int]) + filled(t, ps, k + 1),
{
    let p = placeholder(k);
    lemma_placeholder(k);
    assert(u + p + t =~= u + (p + t));
    assert((p + t)[0] == '\0');
    lemma_index_of_is(p + t, '\0', 0);
    assert((p + t).take(0) =~= Seq::<char>::empty());
    assert((p + t).skip(p.len() as int) =~= t);
    assert(filled(p + t, ps, k) =~= letters(ps[k as int]) + filled(t, ps, k + 1));
    lemma_filled_behind(u, p + t, ps, k);
    assert(filled(u + p + t, ps, k) =~= u + letters(ps[k as int]) + filled(t, ps, k + 1));
}

/// A placeholder is made of letters.
proof fn lemma_letters_placeholder(k: nat)
    ensures
        letters(placeholder(k)) == placeholder(k),
{
    let p = placeholder(k);
    lemma_placeholder(k);
    assert forall|i: int| 0 <= i < p.len() implies is_letter(#[trigger] p[i]) by {
        lemma_no_letter(p[i]);
        if 2 <= i < p.len() - 1 {
            assert(48 <= p[i] as u32 <= 57);
        }
    }
    lemma_letters_all(p);
}

/// The letters of a woven text, of its parts.
proof fn lemma_letters_woven(a: Seq<char>, k: nat, b: Seq<char>)
    ensures
        letters(a + placeholder(k) + b) == letters(a) + placeholder(k) + letters(b),
{
    lemma_letters_concat(a + placeholder(k), b);
    lemma_letters_concat(a, placeholder(k));
    lemma_letters_placeholder(k);
}

/// What stands behind the last placeholder stays.
proof fn lemma_filled_before(x: Seq<char>, v: Seq<char>, ps: Seq<Seq<char>>, k: nat)
    requires
        is_woven(x, k, ps.len()),
        k <= ps.len(),
        !v.contains('\0'),
    ensures
        filled(letters(x) + v, ps, k) == filled(letters(x), ps, k) + v,
    decreases ps.len() - k,
{
    if k < ps.len() {
        let (a, b) = lemma_unweave(x, k, ps.len());
        lemma_letters_woven(a, k, b);
        lemma_letters_contains(a, '\0');
        lemma_filled_one(letters(a), letters(b), ps, k);
        lemma_filled_one(letters(a), letters(b) + v, ps, k);
        assert(letters(x) + v =~= letters(a) + placeholder(k) + (letters(b) + v));
        lemma_filled_before(b, v, ps, k + 1);
        assert(filled(letters(x) + v, ps, k) =~= filled(letters(x), ps, k) + v);
    }
}

/// Putting the phrases in for the placeholders of the masked query gives the letters of the
/// query.
proof fn lemma_masked_filled(q: Seq<char>, ps: Seq<Seq<char>>, k: nat)
    requires
        !q.contains('\0'),
        k <= ps.len(),
        phrases(q) == ps.skip(k as int),
    ensures
        filled(letters(masked(q, k)), ps, k) == letters(q),
    decreases q.len(),
{
    let i = index_of(q, '"');
    let rest = q.skip(i + 1);
    let j = index_of(rest, '"');
    lemma_index_of(q, '"');
    lemma_index_of(rest, '"');
    if 0 <= i < q.len() && 0 <= j < rest.len() {
        let a = q.take(i);
        let p = q.subrange(i, i + j + 2);
        let tail = rest.skip(j + 1);
        assert(q =~= a + p + tail);
        assert(phrases(q)[0] == p);
        assert(phrases(q).len() > 0);
        assert(ps[k as int] == p) by {
            assert(ps.skip(k as int)[0] == ps[k as int]);
        }
        assert(phrases(tail) =~= ps.skip(k as int + 1)) by {
            assert(phrases(q).drop_first() =~= phrases(tail));
            assert(ps.skip(k as int).drop_first() =~= ps.skip(k as int + 1));
        }
        assert(!tail.contains('\0')) by {
            if tail.contains('\0') {
                let n = choose|n: int| 0 <= n < tail.len() && tail[n] == '\0';
                assert(q[i + j + 2 + n] == '\0');
            }
        }
        assert(!a.contains('\0')) by {
            if a.contains('\0') {
                let n = choose|n: int| 0 <= n < a.len() && a[n] == '\0';
                assert(q[n] == '\0');
            }
        }
        lemma_masked_filled(tail, ps, k + 1);
        lemma_letters_woven(a, k, masked(tail, k + 1));
        lemma_letters_contains(a, '\0');
        lemma_filled_one(letters(a), letters(masked(tail, k + 1)), ps, k);
        lemma_letters_concat(a + p, tail);
        lemma_letters_concat(a, p);
    } else {
        assert(phrases(q).len() == 0);
        assert(ps.skip(k as int).len() == ps.len() - k);
    }
}

/// Putting the first phrases in for their placeholders, one after the other.
proof fn lemma_restored_filled(x: Seq<char>, ps: Seq<Seq<char>>, j: nat)
    requires
        is_woven(x, 0, ps.len()),
        j <= ps.len(),
        forall|m: int|
            0 <= m < ps.len() ==> is_phrase(#[trigger] ps[m]) && !ps[m].contains('\0'),
    ensures
        filled(letters(restored(x, ps, j)), ps, j) == filled(letters(x), ps, 0),
    decreases j,
{
    if j > 0 {
        let k = (j - 1) as nat;
        let y = restored(x, ps, k);
        let p = ps[k as int];
        lemma_restored_filled(x, ps, k);
        lemma_restored(x, ps, k);
        lemma_restore_one(y, p, k, ps.len());
        let (a, b) = lemma_unweave(y, k, ps.len());
        let r = restored(x, ps, j);
        lemma_index_of(y, '\0');
        assert(y.skip((a.len() + placeholder(k).len()) as int) =~= b);
        assert(r == a + p + b);
        lemma_letters_woven(a, k, b);
        lemma_letters_contains(a, '\0');
        lemma_letters_contains(p, '\0');
        lemma_filled_one(letters(a), letters(b), ps, k);
        lemma_letters_concat(a + p, b);
        lemma_letters_concat(a, p);
        let u = letters(a) + letters(p);
        assert(!u.contains('\0')) by {
            if u.contains('\0') {
                let n = choose|n: int| 0 <= n < u.len() && u[n] == '\0';
                if n < letters(a).len() {
                    assert(letters(a)[n] == '\0');
                } else {
                    assert(letters(p)[n - letters(a).len()] == '\0');
                }
            }
        }
        lemma_filled_behind(u, letters(b), ps, j);
    }
}

/// The operator at the start of a text, or nothing, and the letters of the rest.
proof fn lemma_letters_leading(s: Seq<char>) -> (a: Seq<char>)
    ensures
        a.len() == 0 || is_operator(a),
        letters(s) == a + letters(trim_start(s.skip(leading_operator(s)))),
{
    let n = leading_operator(s);
    let a = s.take(n);
    assert(s =~= a + s.skip(n));
    lemma_letters_concat(a, s.skip(n));
    lemma_letters_trim_start(s.skip(n));
    if n > 0 {
        lemma_letters_operator(a);
    } else {
        lemma_letters_all(a);
    }
    a
}

/// The letters of a text, and the operator at its end, or nothing.
proof fn lemma_letters_trailing(s: Seq<char>) -> (b: Seq<char>)
    ensures
        b.len() == 0 || is_operator(b),
        letters(s) == letters(without_trailing_operator(s)) + b,
{
    let t = trim_end(s);
    let p = last_word(t);
    lemma_letters_trim_end(s);
    lemma_last_word(t);
    if 0 < p && is_operator(t.skip(p)) {
        let b = t.skip(p);
        assert(t =~= t.take(p) + b);
        lemma_letters_concat(t.take(p), b);
        lemma_letters_trim_end(t.take(p));
        lemma_letters_operator(b);
        b
    } else {
        let b = Seq::<char>::empty();
        assert(letters(s) =~= letters(s) + b);
        b
    }
}

/// What comes of a query in which nothing can be taken for a placeholder has its letters, but for
/// an operator at the start and one at the end.
pub proof fn lemma_letters_kept(q: Seq<char>, lead: Seq<char>, cuts: Seq<(int, int)>)
    requires
        holds_no_mark(q),
        lead == terms(q) || lead == trim_start(terms(q).skip(leading_operator(terms(q)))),
        are_joined_terms(without_trailing_operator(trim_end(lead)), cuts),
    ensures
        ({
            let plain = without_trailing_operator(trim_end(lead));
            let r = trim(restored(quoted_at(plain, cuts), phrases(q), phrases(q).len()));
            keeps_letters(q, r)
        }),
{
    let ps = phrases(q);
    let n = ps.len();
    let t = terms(q);
    lemma_terms_woven(q);
    lemma_leading_woven(t, n);
    let e = trim_end(lead);
    lemma_trim_end_woven(lead, n);
    let plain = without_trailing_operator(e);
    lemma_trailing_woven(e, n);
    assert forall|i: int| 0 <= i < plain.len() implies !is_special(#[trigger] plain[i]) by {
        let c = plain[i];
        assert(plain.contains(c));
        assert(e.contains(c));
        assert(lead.contains(c));
        assert(t.contains(c));
    }
    lemma_plain_is_tidy(plain);
    let x = quoted_at(plain, cuts);
    lemma_quoted_at(plain, cuts, n);
    assert forall|m: int| 0 <= m < n implies is_phrase(#[trigger] ps[m]) && !ps[m].contains(
        '\0',
    ) by {
        lemma_phrases(q, m);
    }
    let y = restored(x, ps, n);
    let r = trim(y);
    // The letters of the terms, with the operators at both ends.
    let m0 = masked(q, 0);
    let m1 = without_special(m0);
    let m2 = single_stars(m1);
    lemma_letters_special(m0);
    lemma_letters_stars(m1);
    lemma_letters_leading_stars(m2);
    lemma_letters_trim(without_leading_stars(m2));
    assert(letters(t) == letters(m0));
    let none = Seq::<char>::empty();
    let a0 = lemma_letters_leading(t);
    let a = if lead == t {
        none
    } else {
        a0
    };
    assert(letters(t) =~= a + letters(lead));
    lemma_letters_trim_end(lead);
    let b = lemma_letters_trailing(e);
    lemma_letters_quoted_at(plain, cuts);
    assert(letters(m0) =~= a + (letters(x) + b));
    // The phrases come in for their placeholders.
    assert(ps.skip(0) =~= ps);
    lemma_masked_filled(q, ps, 0);
    assert(!a.contains('\0')) by {
        if a.len() > 0 {
            lemma_operator(a);
        }
    }
    assert(!b.contains('\0')) by {
        if b.len() > 0 {
            lemma_operator(b);
        }
    }
    lemma_filled_behind(a, letters(x) + b, ps, 0);
    lemma_filled_before(x, b, ps, 0);
    lemma_restored_filled(x, ps, n);
    assert(filled(letters(y), ps, n) == letters(y));
    lemma_letters_trim(y);
    assert(letters(q) =~= a + letters(r) + b);
}

// ---------------------------------------------------------------------------
// Plain queries with an operator or an asterisk
// ---------------------------------------------------------------------------

/// The text holds no special characters, no asterisks and no joints.
spec fn is_free(s: Seq<char>) -> bool {
    forall|i: int|
        0 <= i < s.len() ==> !is_special(#[trigger] s[i]) && s[i] != '*' && s[i] != '.' && s[i]
            != '_' && s[i] != '-'
}

/// A query without anything special has no phrases, and keeps all but the white space around it.
proof fn lemma_free(q: Seq<char>)
    requires
        is_free(q),
    ensures
        phrases(q).len() == 0,
        terms(q) == trim(q),
{
    lemma_index_of(q, '"');
    assert(index_of(q, '"') == q.len()) by {
        if index_of(q, '"') < q.len() {
            assert(is_special(q[index_of(q, '"')]));
        }
    }
    assert(masked(q, 0) == q);
    assert(without_special(q) =~= q);
    assert(!q.contains('*'));
    lemma_no_stars(q);
    assert(without_leading_stars(q) == q);
}

/// A part of a text without joints has none.
proof fn lemma_free_part(q: Seq<char>, t: Seq<char>)
    requires
        is_free(q),
        forall|c: char| #[trigger] t.contains(c) ==> q.contains(c) || c == '*',
    ensures
        !has_joint(t),
{
    let c: char = if t.contains('.') {
        '.'
    } else if t.contains('_') {
        '_'
    } else {
        '-'
    };
    if t.contains(c) {
        let i = choose|i: int| 0 <= i < q.len() && q[i] == c;
        assert(q[i] == c);
    }
}

/// What a trimmed text holds stands in the text.
proof fn lemma_trim_part(s: Seq<char>)
    ensures
        forall|c: char| #[trigger] trim(s).contains(c) ==> s.contains(c),
{
    let (a, b) = lemma_trim_bounds(s);
    assert forall|c: char| #[trigger] trim(s).contains(c) implies s.contains(c) by {
        let i = choose|i: int| 0 <= i < trim(s).len() && trim(s)[i] == c;
        assert(s[a + i] == c);
    }
}

/// A query of plain words goes through every step as it is, but for the white space around it.
pub proof fn lemma_plain_query(s: Seq<char>)
    requires
        is_plain_query(s),
    ensures
        phrases(s).len() == 0,
        start_is_settled(terms(s)),
        plain_terms(s) == trim(s),
        !has_joint(plain_terms(s)),
{
    let t = trim(s);
    assert(is_free(s));
    lemma_free(s);
    let n = leading_operator(t);
    if n > 0 {
        lemma_word_is_ascii(t[n]);
    }
    assert(without_leading_operator(t) == t);
    law_trim(s);
    lemma_trim_end_is(t, t.len() as int);
    assert(t.take(t.len() as int) =~= t);
    assert(without_trailing_operator(t) == t);
    lemma_trim_part(s);
    lemma_free_part(s, t);
}

/// Where the last word of a text starts.
proof fn lemma_last_word_is(s: Seq<char>, p: int)
    requires
        0 <= p <= s.len(),
        p > 0 ==> is_white_space(s[p - 1]),
        forall|i: int| p <= i < s.len() ==> !is_white_space(#[trigger] s[i]),
    ensures
        last_word(s) == p,
    decreases s.len(),
{
    if s.len() > p {
        assert(!is_white_space(s[s.len() - 1]));
        lemma_last_word_is(s.drop_last(), p);
    }
}

/// An operator holds no white space, and is a word of its own length.
proof fn lemma_operator_start(w: Seq<char>)
    requires
        is_operator(w),
    ensures
        2 <= w.len() <= 3,
        forall|i: int| 0 <= i < w.len() ==> !is_white_space(#[trigger] w[i]) && w[i] != '*',
        leading_operator(w) == w.len(),
        is_free(w),
{
    lemma_operator_letters(w);
    assert forall|i: int| 0 <= i < w.len() implies !is_white_space(#[trigger] w[i]) && w[i] != '*'
        && !is_special(w[i]) && w[i] != '.' && w[i] != '-' by {
        lemma_word_is_not_white(w[i]);
    }
    assert(w.take(w.len() as int) =~= w);
}

/// The operator that a longer text starts with is the one that its first part starts with, where
/// what follows that part is no letter.
proof fn lemma_same_start(s: Seq<char>, t: Seq<char>)
    requires
        s.len() > 0,
        s.len() < t.len(),
        t.take(s.len() as int) == s,
        !is_ascii_word(t[s.len() as int]),
    ensures
        leading_operator(t) == leading_operator(s),
{
    assert forall|n: int| 2 <= n <= 3 && t.len() >= n implies (is_operator(t.take(n)) <==> s.len()
        >= n && is_operator(#[trigger] s.take(n))) by {
        if s.len() >= n {
            assert(t.take(n) =~= s.take(n)) by {
                assert forall|i: int| 0 <= i < n implies t[i] == s[i] by {
                    assert(t.take(s.len() as int)[i] == s[i]);
                }
            }
        } else if is_operator(t.take(n)) {
            lemma_operator_letters(t.take(n));
            assert(t.take(n)[s.len() as int] == t[s.len() as int]);
        }
    }
    let s2 = s.take(2);
    let s3 = s.take(3);
}

/// An operator before a plain query goes, with the space behind it.
pub proof fn lemma_operator_first(w: Seq<char>, x: Seq<char>)
    requires
        is_operator(w),
        is_plain_query(x),
    ensures
        ({
            let q = w + seq![' '] + x;
            &&& phrases(q).len() == 0
            &&& start_is_settled(terms(q))
            &&& plain_terms(q) == trim(x)
            &&& !has_joint(plain_terms(q))
        }),
{
    let q = w + seq![' '] + x;
    let n = w.len() as int;
    lemma_operator_start(w);
    assert forall|i: int| 0 <= i < q.len() implies !is_special(#[trigger] q[i]) && q[i] != '*'
        && q[i] != '.' && q[i] != '_' && q[i] != '-' by {
        if i < n {
            assert(q[i] == w[i]);
        } else if i > n {
            assert(q[i] == x[i - n - 1]);
        }
    }
    lemma_free(q);
    let (a, b) = lemma_trim_bounds(x);
    let t = trim(q);
    assert(q[0] == w[0]);
    assert(q[n - 1] == w[n - 1]);
    assert(q[n] == ' ');
    assert(is_free(x));
    lemma_trim_part(x);
    lemma_free_part(x, trim(x));
    if a == b {
        assert forall|i: int| n <= i < q.len() implies is_white_space(#[trigger] q[i]) by {
            if i > n {
                assert(q[i] == x[i - n - 1]);
                assert(is_white_space(x[i - n - 1]));
            }
        }
        lemma_trim_is(q, 0, n);
        assert(t =~= w);
        assert(t.skip(n) =~= Seq::<char>::empty());
        assert(trim(x) =~= Seq::<char>::empty());
        assert(trim_start(t.skip(n)) =~= Seq::<char>::empty());
        assert(without_leading_operator(t) == trim(x));
        assert(trim_end(trim(x)) == trim(x));
        assert(last_word(trim(x)) == 0);
        assert(plain_terms(q) == trim(x));
    } else {
        let e = n + 1 + b;
        assert(q[e - 1] == x[b - 1]);
        assert forall|i: int| e <= i < q.len() implies is_white_space(#[trigger] q[i]) by {
            assert(q[i] == x[i - n - 1]);
        }
        lemma_trim_is(q, 0, e);
        assert(t =~= q.take(e));
        assert(t.take(n) =~= w);
        assert(t[n] == ' ');
        lemma_same_start(w, t);
        assert(leading_operator(t) == n);
        assert(!is_ascii_word(' '));
        let z = t.skip(n);
        assert forall|i: int| 0 <= i < a + 1 implies is_white_space(#[trigger] z[i]) by {
            if i > 0 {
                assert(z[i] == x[i - 1]);
            }
        }
        assert(z[a + 1] == x[a]);
        lemma_trim_start_is(z, a + 1);
        assert(z.skip(a + 1) =~= x.subrange(a, b));
        assert(without_leading_operator(t) == trim(x));
        lemma_trim_end_is(trim(x), trim(x).len() as int);
        assert(trim(x).take(trim(x).len() as int) =~= trim(x));
        assert(trim_end(trim(x)) == trim(x));
        assert(plain_terms(q) == trim(x));
    }
}

/// An operator behind a plain query goes, with the space before it.
#[verifier::rlimit(40)]
pub proof fn lemma_operator_last(x: Seq<char>, w: Seq<char>)
    requires
        is_operator(w),
        is_plain_query(x),
    ensures
        ({
            let q = x + seq![' '] + w;
            &&& phrases(q).len() == 0
            &&& start_is_settled(terms(q))
            &&& plain_terms(q) == trim(x)
            &&& !has_joint(plain_terms(q))
        }),
{
    let q = x + seq![' '] + w;
    let l = x.len() as int;
    lemma_operator_start(w);
    assert forall|i: int| 0 <= i < q.len() implies !is_special(#[trigger] q[i]) && q[i] != '*'
        && q[i] != '.' && q[i] != '_' && q[i] != '-' by {
        if i < l {
            assert(q[i] == x[i]);
        } else if i > l {
            assert(q[i] == w[i - l - 1]);
        }
    }
    lemma_free(q);
    let (a, b) = lemma_trim_bounds(x);
    let t = trim(q);
    let e = q.len() as int;
    assert(q[e - 1] == w[w.len() - 1]);
    assert(q[l] == ' ');
    assert(is_free(x));
    lemma_trim_part(x);
    lemma_free_part(x, trim(x));
    if a == b {
        assert forall|i: int| 0 <= i < l + 1 implies is_white_space(#[trigger] q[i]) by {
            if i < l {
                assert(q[i] == x[i]);
                assert(is_white_space(x[i]));
            }
        }
        assert(q[l + 1] == w[0]);
        lemma_trim_is(q, l + 1, e);
        assert(t =~= w);
        let n = w.len() as int;
        assert(t.skip(n) =~= Seq::<char>::empty());
        assert(trim(x) =~= Seq::<char>::empty());
        assert(trim_start(t.skip(n)) =~= Seq::<char>::empty());
        assert(without_leading_operator(t) == trim(x));
        assert(trim_end(trim(x)) == trim(x));
        assert(last_word(trim(x)) == 0);
        assert(plain_terms(q) == trim(x));
    } else {
        assert forall|i: int| 0 <= i < a implies is_white_space(#[trigger] q[i]) by {
            assert(q[i] == x[i]);
        }
        assert(q[a] == x[a]);
        lemma_trim_is(q, a, e);
        assert(t =~= q.skip(a));
        let tx = trim(x);
        assert(t.take(b - a) =~= tx);
        assert(is_white_space(t[b - a])) by {
            if b < l {
                assert(t[b - a] == x[b]);
            }
        }
        assert(!is_ascii_word(t[b - a])) by {
            if is_ascii_word(t[b - a]) {
                lemma_word_is_not_white(t[b - a]);
            }
        }
        lemma_same_start(tx, t);
        let n = leading_operator(t);
        if n > 0 {
            assert(n < tx.len() && is_ascii_word(tx[n]));
            assert(t[n] == tx[n]);
            lemma_word_is_ascii(t[n]);
        }
        assert(start_is_settled(t));
        assert(without_leading_operator(t) == t);
        lemma_trim_end_is(t, t.len() as int);
        assert(t.take(t.len() as int) =~= t);
        let p = l + 1 - a;
        assert forall|i: int| p <= i < t.len() implies !is_white_space(#[trigger] t[i]) by {
            assert(t[i] == w[i - p]);
        }
        lemma_last_word_is(t, p);
        assert(t.skip(p) =~= w);
        let h = t.take(p);
        assert forall|i: int| b - a <= i < h.len() implies is_white_space(#[trigger] h[i]) by {
            if a + i < l {
                assert(h[i] == x[a + i]);
            }
        }
        assert(h[b - a - 1] == x[b - 1]);
        lemma_trim_end_is(h, b - a);
        assert(h.take(b - a) =~= tx);
        assert(plain_terms(q) == tx);
    }
}

/// An asterisk behind the last word of a plain query stays.
pub proof fn lemma_star_last(x: Seq<char>)
    requires
        is_plain_query(x),
        x.len() > 0,
        !is_white_space(x.last()),
    ensures
        ({
            let q = x.push('*');
            &&& phrases(q).len() == 0
            &&& start_is_settled(terms(q))
            &&& plain_terms(q) == trim_start(x).push('*')
            &&& trim(plain_terms(q)) == plain_terms(q)
            &&& !has_joint(plain_terms(q))
        }),
{
    let q = x.push('*');
    let star = seq!['*'];
    let l = x.len() as int;
    assert(is_free(x));
    assert(!x.contains('*'));
    lemma_index_of(q, '"');
    assert(index_of(q, '"') == q.len()) by {
        let i = index_of(q, '"');
        if i < q.len() {
            if i < l {
                assert(q[i] == x[i]);
                assert(is_special(x[i]));
            }
        }
    }
    assert(masked(q, 0) == q);
    assert(without_special(q) =~= q) by {
        assert forall|i: int| 0 <= i < q.len() implies !is_special(#[trigger] q[i]) by {
            if i < l {
                assert(q[i] == x[i]);
            }
        }
    }
    assert(q =~= x + star);
    lemma_no_stars(x);
    assert(x[l - 1] != '*');
    lemma_stars_concat(x, star);
    assert(single_stars(star) == star);
    lemma_spaced_concat(x, star);
    assert(without_spaced_stars(star) == star);
    assert(q[0] == x[0]);
    assert(without_leading_stars(single_stars(q)) == q);
    let (a, b) = lemma_trim_bounds(x);
    assert(b == l) by {
        if b < l {
            assert(is_white_space(x[l - 1]));
        }
    }
    assert(a < b) by {
        if a == b {
            assert(is_white_space(x[l - 1]));
        }
    }
    assert forall|i: int| 0 <= i < a implies is_white_space(#[trigger] q[i]) by {
        assert(q[i] == x[i]);
    }
    assert(q[a] == x[a]);
    assert(!is_white_space('*'));
    lemma_trim_is(q, a, l + 1);
    let t = trim(q);
    let tx = trim(x);
    lemma_trim_start_is(x, a);
    assert(x.skip(a) =~= tx);
    assert(t =~= tx.push('*'));
    assert(t.take(b - a) =~= tx);
    assert(t[b - a] == '*');
    lemma_same_start(tx, t);
    let n = leading_operator(t);
    if n > 0 {
        assert(n < tx.len() && is_ascii_word(tx[n]));
        assert(t[n] == tx[n]);
        lemma_word_is_ascii(t[n]);
    }
    assert(without_leading_operator(t) == t);
    lemma_trim_end_is(t, t.len() as int);
    assert(t.take(t.len() as int) =~= t);
    let p = last_word(t);
    lemma_last_word(t);
    assert(!is_operator(t.skip(p))) by {
        let w = t.skip(p);
        if is_operator(w) {
            lemma_operator_start(w);
            assert(w[w.len() - 1] == '*');
        }
    }
    assert(without_trailing_operator(t) == t);
    assert(plain_terms(q) == t);
    lemma_trim_is(t, 0, t.len() as int);
    assert(t.subrange(0, t.len() as int) =~= t);
    assert forall|c: char| #[trigger] t.contains(c) implies x.contains(c) || c == '*' by {
        let i = choose|i: int| 0 <= i < t.len() && t[i] == c;
        if i < b - a {
            assert(x[a + i] == c);
        }
    }
    lemma_free_part(x, t);
}

/// A query with special characters but no quotes comes to what it is with spaces for them.
pub proof fn lemma_specials(q: Seq<char>)
    requires
        !q.contains('"'),
        is_plain_query(without_special(q)),
    ensures
        phrases(q).len() == 0,
        terms(q) == terms(without_special(q)),
{
    let u = without_special(q);
    assert(is_free(u));
    lemma_index_of(q, '"');
    assert(index_of(q, '"') == q.len()) by {
        let i = index_of(q, '"');
        if i < q.len() {
            assert(q[i] == '"');
        }
    }
    assert(masked(q, 0) == q);
    lemma_free(u);
    assert(!u.contains('*'));
    lemma_no_stars(u);
    assert(without_leading_stars(u) == u);
}

// ---------------------------------------------------------------------------
// There and back
// ---------------------------------------------------------------------------

/// The text with the phrases from the number `k` on put in for their placeholders.
spec fn refilled(t: Seq<char>, ps: Seq<Seq<char>>, k: nat) -> Seq<char>
    decreases ps.len() - k,
{
    let i = index_of(t, '\0');
    let m = placeholder(k).len();
    if k >= ps.len() || i + m > t.len() {
        t
    } else {
        t.take(i) + ps[k as int] + refilled(t.skip(i + m), ps, k + 1)
    }
}

/// What stands before the first placeholder stays.
proof fn lemma_refilled_behind(u: Seq<char>, t: Seq<char>, ps: Seq<Seq<char>>, k: nat)
    requires
        !u.contains('\0'),
    ensures
        refilled(u + t, ps, k) == u + refilled(t, ps, k),
{
    lemma_index_behind(u, t);
    lemma_index_of(t, '\0');
    let i = index_of(t, '\0');
    let m = placeholder(k).len();
    if k < ps.len() && i + m <= t.len() {
        assert((u + t).take(u.len() + i) =~= u + t.take(i));
        assert((u + t).skip(u.len() + i + m) =~= t.skip(i + m));
        assert(refilled(u + t, ps, k) =~= u + refilled(t, ps, k));
    }
}

/// Putting one phrase in.
proof fn lemma_refilled_one(u: Seq<char>, t: Seq<char>, ps: Seq<Seq<char>>, k: nat)
    requires
        !u.contains('\0'),
        k < ps.len(),
    ensures
        refilled(u + placeholder(k) + t, ps, k) == u + ps[k as int] + refilled(t, ps, k + 1),
{
    let p = placeholder(k);
    lemma_placeholder(k);
    assert(u + p + t =~= u + (p + t));
    assert((p + t)[0] == '\0');
    lemma_index_of_is(p + t, '\0', 0);
    assert((p + t).take(0) =~= Seq::<char>::empty());
    assert((p + t).skip(p.len() as int) =~= t);
    assert(refilled(p + t, ps, k) =~= ps[k as int] + refilled(t, ps, k + 1));
    lemma_refilled_behind(u, p + t, ps, k);
    assert(refilled(u + p + t, ps, k) =~= u + ps[k as int] + refilled(t, ps, k + 1));
}

/// Putting the phrases in for the placeholders of the masked query gives the query.
proof fn lemma_masked_refilled(q: Seq<char>, ps: Seq<Seq<char>>, k: nat)
    requires
        !q.contains('\0'),
        k <= ps.len(),
        phrases(q) == ps.skip(k as int),
    ensures
        refilled(masked(q, k), ps, k) == q,
    decreases q.len(),
{
    let i = index_of(q, '"');
    let rest = q.skip(i + 1);
    let j = index_of(rest, '"');
    lemma_index_of(q, '"');
    lemma_index_of(rest, '"');
    if 0 <= i < q.len() && 0 <= j < rest.len() {
        let a = q.take(i);
        let p = q.subrange(i, i + j + 2);
        let tail = rest.skip(j + 1);
        assert(q =~= a + p + tail);
        assert(phrases(q)[0] == p);
        assert(phrases(q).len() > 0);
        assert(ps[k as int] == p) by {
            assert(ps.skip(k as int)[0] == ps[k as int]);
        }
        assert(phrases(tail) =~= ps.skip(k as int + 1)) by {
            assert(phrases(q).drop_first() =~= phrases(tail));
            assert(ps.skip(k as int).drop_first() =~= ps.skip(k as int + 1));
        }
        assert(!tail.contains('\0')) by {
            if tail.contains('\0') {
                let n = choose|n: int| 0 <= n < tail.len() && tail[n] == '\0';
                assert(q[i + j + 2 + n] == '\0');
            }
        }
        assert(!a.contains('\0')) by {
            if a.contains('\0') {
                let n = choose|n: int| 0 <= n < a.len() && a[n] == '\0';
                assert(q[n] == '\0');
            }
        }
        lemma_masked_refilled(tail, ps, k + 1);
        lemma_refilled_one(a, masked(tail, k + 1), ps, k);
    } else {
        assert(phrases(q).len() == 0);
        assert(ps.skip(k as int).len() == ps.len() - k);
    }
}

/// Putting the first phrases in for their placeholders, one after the other.
proof fn lemma_restored_refilled(x: Seq<char>, ps: Seq<Seq<char>>, j: nat)
    requires
        is_woven(x, 0, ps.len()),
        j <= ps.len(),
        forall|m: int|
            0 <= m < ps.len() ==> is_phrase(#[trigger] ps[m]) && !ps[m].contains('\0'),
    ensures
        refilled(restored(x, ps, j), ps, j) == refilled(x, ps, 0),
    decreases j,
{
    if j > 0 {
        let k = (j - 1) as nat;
        let y = restored(x, ps, k);
        let p = ps[k as int];
        lemma_restored_refilled(x, ps, k);
        lemma_restored(x, ps, k);
        lemma_restore_one(y, p, k, ps.len());
        let (a, b) = lemma_unweave(y, k, ps.len());
        let r = restored(x, ps, j);
        lemma_index_of(y, '\0');
        assert(y.skip((a.len() + placeholder(k).len()) as int) =~= b);
        assert(r == a + p + b);
        lemma_refilled_one(a, b, ps, k);
        let u = a + p;
        assert(!u.contains('\0')) by {
            if u.contains('\0') {
                let n = choose|n: int| 0 <= n < u.len() && u[n] == '\0';
                if n < a.len() {
                    assert(a[n] == '\0');
                } else {
                    assert(p[n - a.len()] == '\0');
                }
            }
        }
        lemma_refilled_behind(u, b, ps, j);
    }
}

/// Masking a query and putting the phrases back gives the query.
pub proof fn lemma_there_and_back(q: Seq<char>)
    requires
        holds_no_mark(q),
    ensures
        restored(masked(q, 0), phrases(q), phrases(q).len()) == q,
{
    let ps = phrases(q);
    let n = ps.len();
    assert forall|m: int| 0 <= m < n implies is_phrase(#[trigger] ps[m]) && !ps[m].contains(
        '\0',
    ) by {
        lemma_phrases(q, m);
    }
    lemma_masked_woven(q, 0);
    assert(ps.skip(0) =~= ps);
    lemma_masked_refilled(q, ps, 0);
    lemma_restored_refilled(masked(q, 0), ps, n);
}

/// The texts around the phrases and the phrases make up the query. Every phrase is one, no text
/// before a phrase holds a quote, and the last text holds at most one.
pub proof fn lemma_interleaved(q: Seq<char>)
    ensures
        gaps(q).len() == phrases(q).len() + 1,
        interleaved(gaps(q), phrases(q)) == q,
        forall|m: int|
            0 <= m < phrases(q).len() ==> is_phrase(#[trigger] phrases(q)[m])
                && !gaps(q)[m].contains('"'),
        quote_count(gaps(q).last()) <= 1,
    decreases q.len(),
{
    let i = index_of(q, '"');
    let rest = q.skip(i + 1);
    let j = index_of(rest, '"');
    lemma_index_of(q, '"');
    lemma_index_of(rest, '"');
    lemma_gaps_len(q);
    if 0 <= i < q.len() && 0 <= j < rest.len() {
        let a = q.take(i);
        let p = q.subrange(i, i + j + 2);
        let tail = rest.skip(j + 1);
        lemma_interleaved(tail);
        assert(gaps(q)[0] == a && phrases(q)[0] == p);
        assert(gaps(q).drop_first() =~= gaps(tail));
        assert(phrases(q).drop_first() =~= phrases(tail));
        assert(q =~= a + p + tail);
        assert(interleaved(gaps(q), phrases(q)) =~= q);
        assert forall|m: int| 0 <= m < phrases(q).len() implies is_phrase(
            #[trigger] phrases(q)[m],
        ) && !gaps(q)[m].contains('"') by {
            if m == 0 {
                lemma_phrases(q, 0);
                if a.contains('"') {
                    let n = choose|n: int| 0 <= n < a.len() && a[n] == '"';
                    assert(q[n] == '"');
                }
            } else {
                assert(phrases(q)[m] == phrases(tail)[m - 1]);
                assert(gaps(q)[m] == gaps(tail)[m - 1]);
            }
        }
        assert(gaps(q).last() == gaps(tail).last());
    } else {
        assert(gaps(q) =~= seq![q]);
        assert(phrases(q).len() == 0);
        if i < q.len() {
            let h = q.take(i);
            let c = seq!['"'];
            assert(q =~= h + c + rest);
            lemma_count_concat(h + c, rest);
            lemma_count_concat(h, c);
            lemma_count_one();
            assert(!h.contains('"')) by {
                if h.contains('"') {
                    let n = choose|n: int| 0 <= n < h.len() && h[n] == '"';
                    assert(q[n] == '"');
                }
            }
            assert(!rest.contains('"')) by {
                if rest.contains('"') {
                    let n = choose|n: int| 0 <= n < rest.len() && rest[n] == '"';
                    assert(j <= n);
                }
            }
            lemma_count_none(h);
            lemma_count_none(rest);
        } else {
            assert(!q.contains('"'));
            lemma_count_none(q);
        }
    }
}

/// Nothing but asterisks comes to one of them.
pub proof fn lemma_run_of_stars(n: nat)
    requires
        n > 0,
    ensures
        single_stars(Seq::new(n, |i: int| '*')) == seq!['*'],
    decreases n,
{
    let s = Seq::new(n, |i: int| '*');
    if n == 1 {
        assert(s =~= seq!['*']);
    } else {
        let f = Seq::new((n - 1) as nat, |i: int| '*');
        assert(s.drop_last() =~= f);
        lemma_run_of_stars((n - 1) as nat);
    }
}

/// Where no two asterisks stand side by side, none is left at the start of a word.
pub proof fn lemma_no_leading_star(s: Seq<char>, i: int)
    requires
        forall|j: int| 0 <= j < s.len() - 1 ==> !(#[trigger] s[j] == '*' && s[j + 1] == '*'),
        0 <= i < without_leading_stars(s).len(),
        without_leading_stars(s)[i] == '*',
    ensures
        i > 0,
        !is_white_space(without_leading_stars(s)[i - 1]),
{
    if s.len() > 0 && s[0] == '*' {
        let t = s.skip(1);
        assert forall|j: int| 0 <= j < t.len() - 1 implies !(#[trigger] t[j] == '*' && t[j + 1]
            == '*') by {
            assert(t[j] == s[j + 1]);
        }
        if t.len() > 0 {
            assert(t[0] == s[1]);
            assert(s[0] == '*');
        }
        lemma_no_spaced_star(t, i);
    } else {
        lemma_no_spaced_star(s, i);
    }
}

/// No asterisk is left behind white space.
proof fn lemma_no_spaced_star(s: Seq<char>, i: int)
    requires
        is_single(s),
        s.len() > 0 ==> s[0] != '*',
        0 <= i < without_spaced_stars(s).len(),
        without_spaced_stars(s)[i] == '*',
    ensures
        i > 0,
        !is_white_space(without_spaced_stars(s)[i - 1]),
    decreases s.len(),
{
    let r = without_spaced_stars(s);
    if s.len() >= 2 {
        if is_white_space(s[0]) && s[1] == '*' {
            let t = s.skip(2);
            assert(r =~= seq![s[0]] + without_spaced_stars(t));
            assert(is_single(t)) by {
                assert forall|j: int| 0 <= j < t.len() - 1 implies !(#[trigger] t[j] == '*' && t[j
                    + 1] == '*') by {
                    assert(t[j] == s[j + 2]);
                }
            }
            if t.len() > 0 {
                assert(t[0] == s[2]);
                assert(s[1] == '*');
            }
            lemma_no_spaced_star(t, i - 1);
        } else {
            let t = s.skip(1);
            assert(r =~= seq![s[0]] + without_spaced_stars(t));
            if s[1] == '*' {
                // The asterisk stays behind what is no white space.
                lemma_spaced_kept(t);
                if i == 1 {
                } else {
                    let u = t.skip(1);
                    assert(t[0] == '*');
                    assert(without_spaced_stars(t) =~= if t.len() < 2 {
                        t
                    } else {
                        seq!['*'] + without_spaced_stars(u)
                    });
                    assert(is_single(u)) by {
                        assert forall|j: int| 0 <= j < u.len() - 1 implies !(#[trigger] u[j] == '*'
                            && u[j + 1] == '*') by {
                            assert(u[j] == s[j + 2]);
                        }
                    }
                    if u.len() > 0 {
                        assert(u[0] == s[2]);
                        assert(s[1] == '*');
                    }
                    if t.len() >= 2 {
                        lemma_no_spaced_star(u, i - 2);
                    }
                }
            } else {
                assert(is_single(t)) by {
                    assert forall|j: int| 0 <= j < t.len() - 1 implies !(#[trigger] t[j] == '*'
                        && t[j + 1] == '*') by {
                        assert(t[j] == s[j + 1]);
                    }
                }
                lemma_no_spaced_star(t, i - 1);
            }
        }
    }
}

/// What a text starts with stays.
proof fn lemma_spaced_kept(s: Seq<char>)
    requires
        s.len() > 0,
    ensures
        without_spaced_stars(s).len() > 0,
        without_spaced_stars(s)[0] == s[0],
{
}

// ---------------------------------------------------------------------------
// Terms
// ---------------------------------------------------------------------------

/// Terms of which the first word is an operator, and the last is none.
pub proof fn lemma_terms_first(t: Seq<char>, w: Seq<char>, x: Seq<char>)
    requires
        is_operator(w),
        t == w + seq![' '] + x,
        !is_operator(trim(x).skip(last_word(trim(x)))),
        trim(t) == t,
    ensures
        without_trailing_operator(trim_end(without_leading_operator(t))) == trim(x),
{
    let n = w.len() as int;
    lemma_operator_start(w);
    assert(t.take(n) =~= w);
    assert(t[n] == ' ');
    lemma_same_start(w, t);
    assert(!is_ascii_word(' '));
    let z = t.skip(n);
    assert(z =~= seq![' '] + x);
    let (a, b) = lemma_trim_bounds(x);
    law_trim(t);
    assert(x.len() > 0 && !is_white_space(x.last())) by {
        if x.len() == 0 {
            assert(t.last() == ' ');
        } else {
            assert(t.last() == x.last());
        }
    }
    assert(b == x.len()) by {
        if b < x.len() {
            assert(is_white_space(x[x.len() - 1]));
        }
    }
    assert(a < b) by {
        if a == b {
            assert(is_white_space(x[x.len() - 1]));
        }
    }
    assert forall|i: int| 0 <= i < a + 1 implies is_white_space(#[trigger] z[i]) by {
        if i > 0 {
            assert(z[i] == x[i - 1]);
        }
    }
    assert(z[a + 1] == x[a]);
    lemma_trim_start_is(z, a + 1);
    assert(z.skip(a + 1) =~= x.subrange(a, b));
    let tx = trim(x);
    lemma_trim_end_is(tx, tx.len() as int);
    assert(tx.take(tx.len() as int) =~= tx);
}

/// Terms of which the last word is an operator, and the first is none.
pub proof fn lemma_terms_last(t: Seq<char>, x: Seq<char>, w: Seq<char>)
    requires
        is_operator(w),
        t == x + seq![' '] + w,
        x.len() > 0,
        leading_operator(t) == 0 || is_ascii_word(t[leading_operator(t)]),
    ensures
        without_trailing_operator(trim_end(without_leading_operator(t))) == trim_end(x),
{
    lemma_operator_start(w);
    let n = leading_operator(t);
    assert(without_leading_operator(t) == t) by {
        if n > 0 && n >= t.len() {
            // An operator alone has no space.
            lemma_operator_start(t.take(n));
            assert(t.take(n)[x.len() as int] == ' ');
        }
    }
    assert(t.last() == w.last());
    lemma_trim_end_is(t, t.len() as int);
    assert(t.take(t.len() as int) =~= t);
    let p = x.len() as int + 1;
    assert(t[p - 1] == ' ');
    assert forall|i: int| p <= i < t.len() implies !is_white_space(#[trigger] t[i]) by {
        assert(t[i] == w[i - p]);
    }
    lemma_last_word_is(t, p);
    assert(t.skip(p) =~= w);
    let h = t.take(p);
    assert(h =~= x.push(' '));
    assert(h.drop_last() =~= x);
    assert(trim_end(h) == trim_end(x));
}

/// A pair of a letter and an asterisk behind it stays in each step that makes the terms.
pub proof fn lemma_star_kept(q: Seq<char>, l: Seq<char>, c: char, r: Seq<char>)
    requires
        is_letter(c),
        masked(q, 0) == l + seq![c, '*'] + r,
    ensures
        contains(terms(q), seq![c, '*']),
{
    let u = seq![c, '*'];
    let m0 = masked(q, 0);
    lemma_no_letter(c);
    assert(!is_special(c) && !is_white_space(c) && c != '*');
    let m1 = without_special(m0);
    let l1 = without_special(l);
    let r1 = without_special(r);
    assert(u.map_values(
        |c: char|
            if is_special(c) {
                ' '
            } else {
                c
            },
    ) =~= u);
    assert(m1 =~= l1 + u + r1);
    // Shortening runs: the first asterisk of a run stays.
    let m2 = single_stars(m1);
    let l2 = l1.push(c);
    assert(m1 =~= l2 + (seq!['*'] + r1));
    lemma_stars_concat(l2, seq!['*'] + r1);
    lemma_stars(l2);
    lemma_stars_first(seq!['*'] + r1);
    let a2 = single_stars(l2);
    let b2 = single_stars(seq!['*'] + r1);
    assert(a2.last() == c && b2[0] == '*');
    // Asterisks behind white space: this one stands behind a letter.
    let (h, g) = if m2.len() > 0 && m2[0] == '*' {
        (a2.skip(1), m2.skip(1))
    } else {
        (a2, m2)
    };
    assert(a2[0] == m2[0]);
    assert(h.len() > 0) by {
        if m2[0] == '*' && a2.len() == 1 {
            assert(a2[0] == c);
        }
    }
    assert(h.last() == c);
    assert(g =~= h + b2);
    lemma_spaced_concat(h, b2);
    lemma_spaced_ends(h);
    lemma_spaced_ends(b2);
    let h3 = without_spaced_stars(h);
    let b3 = without_spaced_stars(b2);
    assert(h3.last() == c);
    let m3 = without_leading_stars(m2);
    assert(m3 == h3 + b3);
    let p = h3.len() - 1;
    assert(m3[p] == c && m3[p + 1] == '*');
    // Trimming.
    let (a, b) = lemma_trim_bounds(m3);
    assert(a <= p) by {
        if a > p {
            assert(is_white_space(m3[p]));
        }
    }
    assert(!is_white_space('*'));
    assert(p + 1 < b) by {
        if p + 1 >= b {
            assert(is_white_space(m3[p + 1]));
        }
    }
    let t = trim(m3);
    assert(t.subrange(p - a, p - a + 2) =~= u);
    assert(occurs_at(t, u, p - a));
}

/// What the terms of a query hold.
pub proof fn lemma_terms(q: Seq<char>, i: int)
    ensures
        trim(terms(q)) == terms(q),
        letters(terms(q)) == letters(masked(q, 0)),
        0 <= i < terms(q).len() ==> !is_special(terms(q)[i]),
        0 <= i < terms(q).len() && terms(q)[i] == '*' ==> i > 0 && !is_white_space(terms(q)[i - 1])
            && terms(q)[i - 1] != '*',
{
    let t = terms(q);
    let m0 = masked(q, 0);
    let m1 = without_special(m0);
    let m2 = single_stars(m1);
    let m3 = without_leading_stars(m2);
    law_trim(m3);
    lemma_letters_special(m0);
    lemma_letters_stars(m1);
    lemma_letters_leading_stars(m2);
    lemma_letters_trim(m3);
    lemma_terms_woven(q);
    if 0 <= i < t.len() {
        assert(t.contains(t[i]));
        if t[i] == '*' {
            let (a, b) = lemma_trim_bounds(m3);
            assert(t[i] == m3[a + i]);
            lemma_stars_single(m1);
            lemma_no_leading_star(m2, a + i);
            if i == 0 {
                assert(a > 0);
                assert(is_white_space(m3[a - 1]));
            } else {
                assert(t[i - 1] == m3[a + i - 1]);
                assert(is_single(t));
                assert(t[i - 1] == '*' ==> t[i - 1 + 1] != '*');
            }
        }
    }
}

// ---------------------------------------------------------------------------
// All but the quotes
// ---------------------------------------------------------------------------

/// A text with one character more, without its quotes.
proof fn lemma_bare_push(s: Seq<char>, c: char)
    ensures
        without_quotes(s.push(c)) == if c != '"' {
            without_quotes(s).push(c)
        } else {
            without_quotes(s)
        },
{
    reveal(Seq::filter);
    assert(s.push(c).drop_last() =~= s);
}

/// Two texts one after the other, without their quotes.
proof fn lemma_bare_concat(a: Seq<char>, b: Seq<char>)
    ensures
        without_quotes(a + b) == without_quotes(a) + without_quotes(b),
    decreases b.len(),
{
    if b.len() == 0 {
        reveal(Seq::filter);
        assert(a + b =~= a);
        assert(without_quotes(b) =~= Seq::<char>::empty());
    } else {
        let f = b.drop_last();
        lemma_bare_concat(a, f);
        assert(a + b =~= (a + f).push(b.last()));
        assert(b =~= f.push(b.last()));
        lemma_bare_push(a + f, b.last());
        lemma_bare_push(f, b.last());
        assert(without_quotes(a + b) =~= without_quotes(a) + without_quotes(b));
    }
}

/// A text without quotes has none to lose.
proof fn lemma_bare_all(s: Seq<char>)
    requires
        !s.contains('"'),
    ensures
        without_quotes(s) == s,
    decreases s.len(),
{
    if s.len() == 0 {
        reveal(Seq::filter);
        assert(without_quotes(s) =~= s);
    } else {
        let f = s.drop_last();
        assert(s =~= f.push(s.last()));
        assert(!f.contains('"')) by {
            if f.contains('"') {
                let i = choose|i: int| 0 <= i < f.len() && f[i] == '"';
                assert(s[i] == '"');
            }
        }
        assert(s[s.len() - 1] != '"') by {
            assert(s.contains(s[s.len() - 1]));
        }
        lemma_bare_all(f);
        lemma_bare_push(f, s.last());
    }
}

/// A quote alone is nothing without it.
proof fn lemma_bare_quote()
    ensures
        without_quotes(seq!['"']) == Seq::<char>::empty(),
{
    reveal(Seq::filter);
    let none = Seq::<char>::empty();
    assert(without_quotes(none) =~= none);
    lemma_bare_push(none, '"');
    assert(none.push('"') =~= seq!['"']);
}

/// What a text without its quotes holds stands in it.
proof fn lemma_bare_contains(s: Seq<char>, c: char)
    ensures
        without_quotes(s).contains(c) ==> s.contains(c),
    decreases s.len(),
{
    if s.len() == 0 {
        reveal(Seq::filter);
    } else {
        let f = s.drop_last();
        lemma_bare_contains(f, c);
        assert(s =~= f.push(s.last()));
        lemma_bare_push(f, s.last());
        let w = without_quotes(s);
        if w.contains(c) {
            let i = choose|i: int| 0 <= i < w.len() && w[i] == c;
            if i < without_quotes(f).len() {
                assert(without_quotes(f)[i] == c);
                let n = choose|n: int| 0 <= n < f.len() && f[n] == c;
                assert(s[n] == c);
            } else {
                assert(s[s.len() - 1] == c);
            }
        }
    }
}

/// Quoting joined terms adds quotes, and nothing else.
proof fn lemma_bare_quoted_at(s: Seq<char>, cuts: Seq<(int, int)>)
    requires
        are_joined_terms(s, cuts),
    ensures
        without_quotes(quoted_at(s, cuts)) == without_quotes(s),
    decreases cuts.len(),
{
    if cuts.len() > 0 {
        let (a, b) = cuts.last();
        assert(cuts[cuts.len() - 1] == (a, b));
        let g = seq!['"'];
        let m = s.subrange(a, b);
        let x = quoted_between(s, a, b);
        lemma_bare_quote();
        lemma_bare_concat(s.take(a) + (g + m + g), s.skip(b));
        lemma_bare_concat(s.take(a), g + m + g);
        lemma_bare_concat(g + m, g);
        lemma_bare_concat(g, m);
        assert(s =~= s.take(a) + m + s.skip(b));
        lemma_bare_concat(s.take(a) + m, s.skip(b));
        lemma_bare_concat(s.take(a), m);
        assert(without_quotes(x) =~= without_quotes(s));
        lemma_quoted_rest(s, cuts);
        lemma_bare_quoted_at(x, cuts.drop_last());
    }
}

/// Two texts with a placeholder behind their first parts are the same only where both parts are.
proof fn lemma_same_parts(
    a: Seq<char>,
    b: Seq<char>,
    c: Seq<char>,
    d: Seq<char>,
    k: nat,
)
    requires
        !a.contains('\0'),
        !c.contains('\0'),
        a + placeholder(k) + b == c + placeholder(k) + d,
    ensures
        a == c,
        b == d,
{
    let p = placeholder(k);
    let s = a + p + b;
    lemma_placeholder(k);
    assert(s =~= a + (p + b));
    assert(s =~= c + (p + d));
    assert((p + b)[0] == '\0' && (p + d)[0] == '\0');
    lemma_index_of_is(p + b, '\0', 0);
    lemma_index_of_is(p + d, '\0', 0);
    lemma_index_behind(a, p + b);
    lemma_index_behind(c, p + d);
    assert(a.len() == c.len());
    assert(a =~= s.take(a.len() as int));
    assert(c =~= s.take(a.len() as int));
    assert(b =~= s.skip((a.len() + p.len()) as int));
    assert(d =~= s.skip((a.len() + p.len()) as int));
}

/// A woven text without its quotes, of its parts.
proof fn lemma_bare_woven(a: Seq<char>, k: nat, b: Seq<char>)
    ensures
        without_quotes(a + placeholder(k) + b) == without_quotes(a) + placeholder(k)
            + without_quotes(b),
{
    let p = placeholder(k);
    lemma_placeholder(k);
    assert(!p.contains('"')) by {
        if p.contains('"') {
            let i = choose|i: int| 0 <= i < p.len() && p[i] == '"';
            assert(48 <= p[i] as u32 <= 57 || p[i] == '\0' || p[i] == 'Q');
        }
    }
    lemma_bare_all(p);
    lemma_bare_concat(a + p, b);
    lemma_bare_concat(a, p);
}

/// Two woven texts that are the same but for quotes are so with the phrases put in.
#[verifier::rlimit(40)]
proof fn lemma_same_refilled(x: Seq<char>, y: Seq<char>, ps: Seq<Seq<char>>, k: nat)
    requires
        is_woven(x, k, ps.len()),
        is_woven(y, k, ps.len()),
        k <= ps.len(),
        without_quotes(x) == without_quotes(y),
    ensures
        without_quotes(refilled(x, ps, k)) == without_quotes(refilled(y, ps, k)),
    decreases ps.len() - k,
{
    if k < ps.len() {
        let (a, b) = lemma_unweave(x, k, ps.len());
        let (c, d) = lemma_unweave(y, k, ps.len());
        lemma_bare_woven(a, k, b);
        lemma_bare_woven(c, k, d);
        lemma_bare_contains(a, '\0');
        lemma_bare_contains(c, '\0');
        lemma_same_parts(
            without_quotes(a),
            without_quotes(b),
            without_quotes(c),
            without_quotes(d),
            k,
        );
        lemma_same_refilled(b, d, ps, k + 1);
        lemma_refilled_one(a, b, ps, k);
        lemma_refilled_one(c, d, ps, k);
        let q = ps[k as int];
        lemma_bare_concat(a + q, refilled(b, ps, k + 1));
        lemma_bare_concat(a, q);
        lemma_bare_concat(c + q, refilled(d, ps, k + 1));
        lemma_bare_concat(c, q);
    }
}

/// White space around a text does not matter to what is trimmed of it.
proof fn lemma_trim_of_spaced(l: Seq<char>, m: Seq<char>, r: Seq<char>)
    requires
        forall|i: int| 0 <= i < l.len() ==> is_white_space(#[trigger] l[i]),
        forall|i: int| 0 <= i < r.len() ==> is_white_space(#[trigger] r[i]),
    ensures
        trim(l + m + r) == trim(m),
{
    let s = l + m + r;
    let n = l.len() as int;
    let (a, b) = lemma_trim_bounds(m);
    if a < b {
        assert forall|i: int| 0 <= i < n + a implies is_white_space(#[trigger] s[i]) by {
            if i < n {
                assert(s[i] == l[i]);
            } else {
                assert(s[i] == m[i - n]);
            }
        }
        assert forall|i: int| n + b <= i < s.len() implies is_white_space(#[trigger] s[i]) by {
            if i < n + m.len() {
                assert(s[i] == m[i - n]);
            } else {
                assert(s[i] == r[i - n - m.len()]);
            }
        }
        assert(s[n + a] == m[a] && s[n + b - 1] == m[b - 1]);
        lemma_trim_is(s, n + a, n + b);
        assert(s.subrange(n + a, n + b) =~= m.subrange(a, b));
    } else {
        assert forall|i: int| 0 <= i < s.len() implies is_white_space(#[trigger] s[i]) by {
            if i < n {
                assert(s[i] == l[i]);
            } else if i < n + m.len() {
                assert(s[i] == m[i - n]);
                assert(is_white_space(m[i - n]));
            } else {
                assert(s[i] == r[i - n - m.len()]);
            }
        }
        lemma_trim_is(s, 0, 0);
        assert(s.subrange(0, 0) =~= m.subrange(a, b));
    }
}

/// Trimming before the quotes are taken out does not matter to what is trimmed afterwards.
proof fn lemma_bare_trim(y: Seq<char>)
    ensures
        trim(without_quotes(trim(y))) == trim(without_quotes(y)),
{
    let (a, b) = lemma_trim_bounds(y);
    let l = y.take(a);
    let m = trim(y);
    let r = y.skip(b);
    assert(y =~= l + m + r);
    lemma_bare_concat(l + m, r);
    lemma_bare_concat(l, m);
    assert(!l.contains('"')) by {
        if l.contains('"') {
            let i = choose|i: int| 0 <= i < l.len() && l[i] == '"';
            assert(is_white_space(y[i]));
        }
    }
    assert(!r.contains('"')) by {
        if r.contains('"') {
            let i = choose|i: int| 0 <= i < r.len() && r[i] == '"';
            assert(is_white_space(y[b + i]));
        }
    }
    lemma_bare_all(l);
    lemma_bare_all(r);
    assert forall|i: int| 0 <= i < l.len() implies is_white_space(#[trigger] l[i]) by {
        assert(l[i] == y[i]);
    }
    assert forall|i: int| 0 <= i < r.len() implies is_white_space(#[trigger] r[i]) by {
        assert(r[i] == y[b + i]);
    }
    lemma_trim_of_spaced(l, without_quotes(m), r);
}

/// Where the operator at the start is settled, what comes of a query in which nothing can be taken
/// for a placeholder is its plain terms with the phrases put in, but for quotes.
pub proof fn lemma_settled(q: Seq<char>, cuts: Seq<(int, int)>)
    requires
        holds_no_mark(q),
        are_joined_terms(plain_terms(q), cuts),
    ensures
        ({
            let n = phrases(q).len();
            let r = trim(restored(quoted_at(plain_terms(q), cuts), phrases(q), n));
            trim(without_quotes(r)) == trim(
                without_quotes(restored(plain_terms(q), phrases(q), n)),
            )
        }),
{
    let ps = phrases(q);
    let n = ps.len();
    let t = terms(q);
    let lead = without_leading_operator(t);
    assert(lead == t || lead == trim_start(t.skip(leading_operator(t))));
    lemma_terms_woven(q);
    lemma_leading_woven(t, n);
    let e = trim_end(lead);
    lemma_trim_end_woven(lead, n);
    let plain = plain_terms(q);
    lemma_trailing_woven(e, n);
    assert forall|i: int| 0 <= i < plain.len() implies !is_special(#[trigger] plain[i]) by {
        let c = plain[i];
        assert(plain.contains(c));
        assert(e.contains(c));
        assert(lead.contains(c));
        assert(t.contains(c));
    }
    lemma_plain_is_tidy(plain);
    let x = quoted_at(plain, cuts);
    lemma_quoted_at(plain, cuts, n);
    assert forall|m: int| 0 <= m < n implies is_phrase(#[trigger] ps[m]) && !ps[m].contains(
        '\0',
    ) by {
        lemma_phrases(q, m);
    }
    lemma_bare_quoted_at(plain, cuts);
    lemma_restored_refilled(x, ps, n);
    lemma_restored_refilled(plain, ps, n);
    lemma_same_refilled(x, plain, ps, 0);
    lemma_bare_trim(restored(x, ps, n));
}

// ---------------------------------------------------------------------------
// All but the asterisks
// ---------------------------------------------------------------------------

/// Two texts one after the other, without their asterisks.
proof fn lemma_starless_concat(a: Seq<char>, b: Seq<char>)
    ensures
        without_stars(a + b) == without_stars(a) + without_stars(b),
{
    Seq::filter_distributes_over_add(a, b, |c: char| c != '*');
}

/// One character alone, without asterisks.
proof fn lemma_starless_one(c: char)
    ensures
        without_stars(seq![c]) == if c == '*' {
            Seq::<char>::empty()
        } else {
            seq![c]
        },
        without_stars(Seq::<char>::empty()) == Seq::<char>::empty(),
{
    reveal(Seq::filter);
    assert(without_stars(Seq::<char>::empty()) =~= Seq::<char>::empty());
    assert(seq![c].drop_last() =~= Seq::<char>::empty());
    assert(without_stars(seq![c]) =~= if c == '*' {
        Seq::<char>::empty()
    } else {
        seq![c]
    });
}

/// A text without asterisks has none to lose.
proof fn lemma_starless_all(s: Seq<char>)
    requires
        !s.contains('*'),
    ensures
        without_stars(s) == s,
    decreases s.len(),
{
    if s.len() == 0 {
        lemma_starless_one('*');
        assert(s =~= Seq::<char>::empty());
    } else {
        let f = s.drop_last();
        let g = seq![s.last()];
        assert(s =~= f + g);
        assert(!f.contains('*')) by {
            if f.contains('*') {
                let i = choose|i: int| 0 <= i < f.len() && f[i] == '*';
                assert(s[i] == '*');
            }
        }
        assert(s.contains(s[s.len() - 1]));
        lemma_starless_all(f);
        lemma_starless_concat(f, g);
        lemma_starless_one(s.last());
    }
}

/// Shortening runs of asterisks takes away nothing but asterisks.
proof fn lemma_starless_runs(s: Seq<char>)
    ensures
        without_stars(single_stars(s)) == without_stars(s),
    decreases s.len(),
{
    if s.len() >= 2 {
        let f = s.drop_last();
        let g = seq![s.last()];
        lemma_starless_runs(f);
        assert(s =~= f + g);
        lemma_starless_concat(f, g);
        lemma_starless_one(s.last());
        assert(single_stars(f).push(s.last()) =~= single_stars(f) + g);
        lemma_starless_concat(single_stars(f), g);
        assert(without_stars(f) + Seq::<char>::empty() =~= without_stars(f));
    }
}

/// Taking asterisks out behind white space takes away nothing else.
proof fn lemma_starless_spaced(s: Seq<char>)
    ensures
        without_stars(without_spaced_stars(s)) == without_stars(s),
    decreases s.len(),
{
    if s.len() >= 2 {
        let h = seq![s[0]];
        if is_white_space(s[0]) && s[1] == '*' {
            let g = seq!['*'];
            lemma_starless_spaced(s.skip(2));
            assert(s =~= h + (g + s.skip(2)));
            lemma_starless_concat(h, g + s.skip(2));
            lemma_starless_concat(g, s.skip(2));
            lemma_starless_one('*');
            assert(without_stars(g + s.skip(2)) =~= without_stars(s.skip(2)));
            lemma_starless_concat(h, without_spaced_stars(s.skip(2)));
        } else {
            lemma_starless_spaced(s.skip(1));
            assert(s =~= h + s.skip(1));
            lemma_starless_concat(h, s.skip(1));
            lemma_starless_concat(h, without_spaced_stars(s.skip(1)));
        }
    }
}

/// Taking asterisks out at the start of words takes away nothing else.
proof fn lemma_starless_leading(s: Seq<char>)
    ensures
        without_stars(without_leading_stars(s)) == without_stars(s),
{
    if s.len() > 0 && s[0] == '*' {
        let g = seq!['*'];
        assert(s =~= g + s.skip(1));
        lemma_starless_concat(g, s.skip(1));
        lemma_starless_one('*');
        assert(without_stars(s) =~= without_stars(s.skip(1)));
        lemma_starless_spaced(s.skip(1));
    } else {
        lemma_starless_spaced(s);
    }
}

/// Where asterisks stand only behind something else than white space and asterisks, it does not
/// matter whether a text is trimmed before they are taken out or afterwards.
proof fn lemma_starless_trim(v: Seq<char>)
    requires
        forall|i: int|
            0 <= i < v.len() && #[trigger] v[i] == '*' ==> i > 0 && !is_white_space(v[i - 1]) && v[i
                - 1] != '*',
    ensures
        without_stars(trim(v)) == trim(without_stars(v)),
{
    let (a, b) = lemma_trim_bounds(v);
    let l = v.take(a);
    let m = trim(v);
    let r = v.skip(b);
    let w = without_stars(m);
    assert(v =~= l + m + r);
    lemma_starless_concat(l + m, r);
    lemma_starless_concat(l, m);
    assert forall|i: int| 0 <= i < l.len() implies is_white_space(#[trigger] l[i]) by {
        assert(l[i] == v[i]);
    }
    assert forall|i: int| 0 <= i < r.len() implies is_white_space(#[trigger] r[i]) by {
        assert(r[i] == v[b + i]);
    }
    assert(!is_white_space('*'));
    assert(!l.contains('*')) by {
        if l.contains('*') {
            let i = choose|i: int| 0 <= i < l.len() && l[i] == '*';
            assert(is_white_space(l[i]));
        }
    }
    assert(!r.contains('*')) by {
        if r.contains('*') {
            let i = choose|i: int| 0 <= i < r.len() && r[i] == '*';
            assert(is_white_space(r[i]));
        }
    }
    lemma_starless_all(l);
    lemma_starless_all(r);
    lemma_trim_of_spaced(l, w, r);
    assert(trim(w) == w) by {
        if a < b {
            // What it starts with.
            assert(v[a] != '*') by {
                if v[a] == '*' {
                    assert(is_white_space(v[a - 1]));
                }
            }
            assert(m[0] == v[a]);
            let h = seq![m[0]];
            assert(m =~= h + m.skip(1));
            lemma_starless_concat(h, m.skip(1));
            lemma_starless_one(m[0]);
            assert(w[0] == m[0]);
            // What it ends with.
            let e = if m.last() == '*' {
                m.len() - 2
            } else {
                m.len() - 1
            };
            assert(v[b - 1] == m.last());
            assert(e >= 0) by {
                if m.len() == 1 {
                    assert(m.last() == m[0]);
                }
            }
            assert(m[e] == v[a + e]);
            let g = seq![m[e]];
            let z = m.skip(e + 1);
            assert(m =~= m.take(e) + g + z);
            lemma_starless_concat(m.take(e) + g, z);
            lemma_starless_concat(m.take(e), g);
            lemma_starless_one(m[e]);
            assert(without_stars(z) == Seq::<char>::empty()) by {
                lemma_starless_one('*');
                if m.last() == '*' {
                    assert(z =~= seq!['*']);
                } else {
                    assert(z =~= Seq::<char>::empty());
                }
            }
            assert(w =~= without_stars(m.take(e)) + g);
            assert(w.last() == m[e]);
            lemma_trim_is(w, 0, w.len() as int);
            assert(w.subrange(0, w.len() as int) =~= w);
        } else {
            assert(m =~= Seq::<char>::empty());
            lemma_starless_one('*');
        }
    }
}

/// The terms of a query are the masked query with spaces for special characters, trimmed, but for
/// asterisks.
pub proof fn lemma_starless_terms(q: Seq<char>)
    ensures
        without_stars(terms(q)) == trim(without_stars(without_special(masked(q, 0)))),
{
    let m1 = without_special(masked(q, 0));
    let m2 = single_stars(m1);
    let m3 = without_leading_stars(m2);
    lemma_starless_runs(m1);
    lemma_starless_leading(m2);
    lemma_stars_single(m1);
    assert(is_single(m3)) by {
        if m2.len() > 0 && m2[0] == '*' {
            lemma_part_single(m2, 1, m2.len() as int);
            assert(m2.subrange(1, m2.len() as int) =~= m2.skip(1));
            lemma_spaced_single(m2.skip(1));
        } else {
            lemma_spaced_single(m2);
        }
    }
    assert forall|i: int| 0 <= i < m3.len() && #[trigger] m3[i] == '*' implies i > 0
        && !is_white_space(m3[i - 1]) && m3[i - 1] != '*' by {
        lemma_no_leading_star(m2, i);
        if m3[i - 1] == '*' {
            assert(m3[i - 1 + 1] == '*');
        }
    }
    lemma_starless_trim(m3);
}

} // verus!
