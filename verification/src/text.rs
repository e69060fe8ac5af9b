//! Text as sequences of characters: trimming, lines, searching, replacing,
//! joining, decimal numerals and the order of strings.
use vstd::prelude::*;
use vstd::string::*;
use vstd::utf8::*;

verus! {

// ---------------------------------------------------------------------------
// What the text operations mean
// ---------------------------------------------------------------------------

/// The characters with the Unicode property `White_Space`.
pub open spec fn is_white_space(c: char) -> bool {
    let u = c as u32;
    ||| 0x9 <= u <= 0xd
    ||| u == 0x20
    ||| u == 0x85
    ||| u == 0xa0
    ||| u == 0x1680
    ||| 0x2000 <= u <= 0x200a
    ||| u == 0x2028
    ||| u == 0x2029
    ||| u == 0x202f
    ||| u == 0x205f
    ||| u == 0x3000
}

/// `s` without the white space it starts with.
pub open spec fn trim_start(s: Seq<char>) -> Seq<char>
    decreases s.len(),
{
    if s.len() > 0 && is_white_space(s[0]) {
        trim_start(s.drop_first())
    } else {
        s
    }
}

/// `s` without the white space it ends with.
pub open spec fn trim_end(s: Seq<char>) -> Seq<char>
    decreases s.len(),
{
    if s.len() > 0 && is_white_space(s.last()) {
        trim_end(s.drop_last())
    } else {
        s
    }
}

/// `s` without the white space around it.
pub open spec fn trim(s: Seq<char>) -> Seq<char> {
    trim_end(trim_start(s))
}

/// `s` without the leading run of the character `c`.
pub open spec fn drop_leading(s: Seq<char>, c: char) -> Seq<char>
    decreases s.len(),
{
    if s.len() > 0 && s[0] == c {
        drop_leading(s.drop_first(), c)
    } else {
        s
    }
}

/// The position of the first `c` in `s`, or the length of `s` where it holds none.
pub open spec fn index_of(s: Seq<char>, c: char) -> int
    decreases s.len(),
{
    if s.len() == 0 || s[0] == c {
        0
    } else {
        1 + index_of(s.drop_first(), c)
    }
}

/// A line without the carriage return that stands before its line feed.
pub open spec fn without_cr(s: Seq<char>) -> Seq<char> {
    if s.len() > 0 && s.last() == '\r' {
        s.drop_last()
    } else {
        s
    }
}

/// The lines of a text. A line ends at a line feed, with or without a carriage
/// return before it; the last line needs no end.
pub open spec fn lines(s: Seq<char>) -> Seq<Seq<char>>
    decreases s.len(),
{
    let i = index_of(s, '\n');
    if s.len() == 0 {
        Seq::empty()
    } else if i < 0 || i >= s.len() {
        seq![s]
    } else {
        seq![without_cr(s.take(i))] + lines(s.skip(i + 1))
    }
}

/// The parts one after the other with `sep` between any two.
pub open spec fn join(parts: Seq<Seq<char>>, sep: Seq<char>) -> Seq<char>
    decreases parts.len(),
{
    if parts.len() == 0 {
        Seq::empty()
    } else if parts.len() == 1 {
        parts[0]
    } else {
        join(parts.drop_last(), sep) + sep + parts.last()
    }
}

/// `pat` stands in `s` at position `i`.
pub open spec fn occurs_at(s: Seq<char>, pat: Seq<char>, i: int) -> bool {
    &&& 0 <= i
    &&& i + pat.len() <= s.len()
    &&& s.subrange(i, i + pat.len()) == pat
}

/// `pat` stands somewhere in `s`.
pub open spec fn contains(s: Seq<char>, pat: Seq<char>) -> bool {
    exists|i: int| occurs_at(s, pat, i)
}

/// The first position from `i` on at which `pat` stands in `s`.
pub open spec fn find_from(s: Seq<char>, pat: Seq<char>, i: int) -> Option<int>
    decreases s.len() + 1 - i,
{
    if i < 0 || i + pat.len() > s.len() {
        None
    } else if occurs_at(s, pat, i) {
        Some(i)
    } else {
        find_from(s, pat, i + 1)
    }
}

/// `s` with every occurrence of `pat`, taken from the left without overlap,
/// replaced by `rep`.
pub open spec fn replace(s: Seq<char>, pat: Seq<char>, rep: Seq<char>) -> Seq<char>
    decreases s.len(),
{
    match find_from(s, pat, 0) {
        Some(i) => if pat.len() > 0 && 0 <= i && i + pat.len() <= s.len() {
            s.take(i) + rep + replace(s.skip(i + pat.len()), pat, rep)
        } else {
            s
        },
        None => s,
    }
}

/// The decimal digit for a number below ten.
pub open spec fn digit(d: nat) -> char {
    ((48 + d) as u8) as char
}

/// The decimal numeral of a number.
pub open spec fn decimal(n: nat) -> Seq<char>
    decreases n,
{
    if n < 10 {
        seq![digit(n)]
    } else {
        decimal(n / 10).push(digit(n % 10))
    }
}

/// `a` stands before `b` in the order of their code points.
pub open spec fn text_less(a: Seq<char>, b: Seq<char>) -> bool
    decreases a.len(),
{
    if b.len() == 0 {
        false
    } else if a.len() == 0 {
        true
    } else if a[0] == b[0] {
        text_less(a.drop_first(), b.drop_first())
    } else {
        (a[0] as int) < (b[0] as int)
    }
}

/// The contents of strings.
pub open spec fn texts(v: Seq<String>) -> Seq<Seq<char>> {
    Seq::new(v.len(), |i: int| v[i]@)
}

/// The content of a string that may be absent.
pub open spec fn opt_text(s: Option<String>) -> Option<Seq<char>> {
    match s {
        Some(t) => Some(t@),
        None => None,
    }
}

/// An outcome with the content of its error.
pub open spec fn unit_result(r: Result<(), String>) -> Result<(), Seq<char>> {
    match r {
        Ok(_) => Ok(()),
        Err(e) => Err(e@),
    }
}

/// An outcome that is a text, with the contents of both sides.
pub open spec fn text_result(r: Result<String, String>) -> Result<Seq<char>, Seq<char>> {
    match r {
        Ok(t) => Ok(t@),
        Err(e) => Err(e@),
    }
}

// ---------------------------------------------------------------------------
// Characters and strings of the standard library
// ---------------------------------------------------------------------------

/// `String::push`: the character is appended to the string.
pub assume_specification[ String::push ](s: &mut String, c: char)
    ensures
        final(s)@ == old(s)@.push(c),
;

/// What `str::to_lowercase` gives for a text.
pub uninterp spec fn lowercase(s: Seq<char>) -> Seq<char>;

/// The lower-case letter for an ASCII capital; any other character stays.
pub open spec fn ascii_lower(c: char) -> char {
    if 65 <= c as u32 <= 90 {
        ((c as u32 + 32) as u8) as char
    } else {
        c
    }
}

/// Every character is an ASCII character.
pub open spec fn all_ascii(s: Seq<char>) -> bool {
    forall|i: int| 0 <= i < s.len() ==> (#[trigger] s[i] as u32) < 128
}

/// The text with small letters for the capital ones of ASCII.
pub open spec fn in_small_letters(s: Seq<char>) -> Seq<char> {
    s.map_values(|c: char| ascii_lower(c))
}

/// The text in small letters. What they are beyond ASCII is left to the name of
/// `str::to_lowercase`.
pub open spec fn lower_case(s: Seq<char>) -> Seq<char> {
    if all_ascii(s) {
        in_small_letters(s)
    } else {
        lowercase(s)
    }
}

/// `str::to_lowercase`, which follows the Unicode tables and so is named rather than
/// written out. Of a text of ASCII characters the claim is that its capitals become the
/// small letters and the rest stays.
#[verifier::external_body]
pub(crate) fn lowered(s: &str) -> (r: String)
    ensures
        r@ == lowercase(s@),
        all_ascii(s@) ==> r@ == in_small_letters(s@),
{
    s.to_lowercase()
}

/// What `String::from_utf8_lossy` gives for bytes.
pub uninterp spec fn utf8_lossy(bytes: Seq<u8>) -> Seq<char>;

/// `String::from_utf8_lossy`: the text that the bytes encode, with replacement characters where
/// they encode none. The result is named; of bytes that are UTF-8 the claim is that it is the
/// text that they encode.
#[verifier::external_body]
pub(crate) fn lossy(bytes: &[u8]) -> (r: String)
    ensures
        r@ == utf8_lossy(bytes@),
        valid_utf8(bytes@) ==> r@ == decode_utf8(bytes@),
{
    String::from_utf8_lossy(bytes).into_owned()
}

/// The characters of `s`, in order.
pub fn chars_of(s: &str) -> (r: Vec<char>)
    ensures
        r@ == s@,
{
    let mut out: Vec<char> = Vec::new();
    for c in it: s.chars()
        invariant
            it.seq() == s@,
            out@ == s@.take(it.index()),
    {
        out.push(c);
        assert(s@.take(it.index() + 1) =~= s@.take(it.index()).push(c));
    }
    assert(s@.take(s@.len() as int) =~= s@);
    out
}

/// The string made of the characters from `from` up to `to`.
pub fn string_of(cs: &Vec<char>, from: usize, to: usize) -> (r: String)
    requires
        from <= to <= cs@.len(),
    ensures
        r@ == cs@.subrange(from as int, to as int),
{
    let mut out = String::new();
    let mut i: usize = from;
    while i < to
        invariant
            from <= i <= to <= cs@.len(),
            out@ == cs@.subrange(from as int, i as int),
        decreases to - i,
    {
        out.push(cs[i]);
        assert(cs@.subrange(from as int, i + 1) =~= cs@.subrange(from as int, i as int).push(
            cs@[i as int],
        ));
        i = i + 1;
    }
    out
}

/// Whether two strings hold the same characters.
pub fn text_eq(a: &str, b: &str) -> (r: bool)
    ensures
        r == (a@ == b@),
{
    a.to_owned() == b.to_owned()
}

/// A copy of a list of strings.
pub fn copy_texts(v: &Vec<String>) -> (r: Vec<String>)
    ensures
        texts(r@) == texts(v@),
{
    let mut out: Vec<String> = Vec::new();
    let mut i: usize = 0;
    while i < v.len()
        invariant
            i <= v@.len(),
            out@.len() == i,
            forall|j: int| 0 <= j < i ==> out@[j]@ == v@[j]@,
        decreases v@.len() - i,
    {
        out.push(v[i].clone());
        i = i + 1;
    }
    assert(texts(out@) =~= texts(v@));
    out
}

/// A copy of a string that may be absent.
pub fn copy_opt_text(s: &Option<String>) -> (r: Option<String>)
    ensures
        opt_text(r) == opt_text(*s),
{
    match s {
        Some(t) => Some(t.clone()),
        None => None,
    }
}

// ---------------------------------------------------------------------------
// The operations
// ---------------------------------------------------------------------------

/// Whether `c` is white space.
pub fn white_space(c: char) -> (r: bool)
    ensures
        r == is_white_space(c),
{
    let u: u32 = c as u32;
    (0x9 <= u && u <= 0xd) || u == 0x20 || u == 0x85 || u == 0xa0 || u == 0x1680 || (0x2000 <= u
        && u <= 0x200a) || u == 0x2028 || u == 0x2029 || u == 0x202f || u == 0x205f || u == 0x3000
}

/// `s` without the white space around it.
pub fn trimmed<'a>(s: &'a str) -> (r: &'a str)
    ensures
        r@ == trim(s@),
{
    let cs = chars_of(s);
    let n: usize = cs.len();
    let mut i: usize = 0;
    assert(cs@.skip(0) =~= cs@);
    while i < n && white_space(cs[i])
        invariant
            i <= n,
            n == cs@.len(),
            trim_start(cs@.skip(i as int)) == trim_start(cs@),
        decreases n - i,
    {
        assert(cs@.skip(i as int).drop_first() =~= cs@.skip(i + 1));
        i = i + 1;
    }
    assert(trim_start(cs@) == cs@.skip(i as int));
    let mut j: usize = n;
    assert(cs@.subrange(i as int, n as int) =~= cs@.skip(i as int));
    while j > i && white_space(cs[j - 1])
        invariant
            i <= j <= n,
            n == cs@.len(),
            trim_end(cs@.subrange(i as int, j as int)) == trim_end(cs@.skip(i as int)),
        decreases j,
    {
        assert(cs@.subrange(i as int, j as int).drop_last() =~= cs@.subrange(i as int, j - 1));
        assert(cs@.subrange(i as int, j as int).last() == cs@[j - 1]);
        j = j - 1;
    }
    s.substring_char(i, j)
}

/// `s` without the white space it ends with.
pub fn trimmed_end<'a>(s: &'a str) -> (r: &'a str)
    ensures
        r@ == trim_end(s@),
{
    let cs = chars_of(s);
    let n: usize = cs.len();
    let mut j: usize = n;
    assert(cs@.take(n as int) =~= cs@);
    while j > 0 && white_space(cs[j - 1])
        invariant
            j <= n,
            n == cs@.len(),
            trim_end(cs@.take(j as int)) == trim_end(cs@),
        decreases j,
    {
        assert(cs@.take(j as int).drop_last() =~= cs@.take(j - 1));
        assert(cs@.take(j as int).last() == cs@[j - 1]);
        j = j - 1;
    }
    let r = s.substring_char(0, j);
    assert(r@ =~= cs@.take(j as int));
    r
}

/// `s` without the leading run of the character `c`.
pub fn without_leading<'a>(s: &'a str, c: char) -> (r: &'a str)
    ensures
        r@ == drop_leading(s@, c),
{
    let cs = chars_of(s);
    let n: usize = cs.len();
    let mut i: usize = 0;
    assert(cs@.skip(0) =~= cs@);
    while i < n && cs[i] == c
        invariant
            i <= n,
            n == cs@.len(),
            drop_leading(cs@.skip(i as int), c) == drop_leading(cs@, c),
        decreases n - i,
    {
        assert(cs@.skip(i as int).drop_first() =~= cs@.skip(i + 1));
        i = i + 1;
    }
    let r = s.substring_char(i, n);
    assert(r@ =~= cs@.skip(i as int));
    r
}

/// The first position of `c` in `cs` from `from` on, counted from `from`.
fn index_from(cs: &Vec<char>, from: usize, c: char) -> (r: usize)
    requires
        from <= cs@.len(),
    ensures
        from <= r <= cs@.len(),
        r - from == index_of(cs@.skip(from as int), c),
{
    let n: usize = cs.len();
    let mut i: usize = from;
    while i < n && cs[i] != c
        invariant
            from <= i <= n,
            n == cs@.len(),
            index_of(cs@.skip(from as int), c) == i - from + index_of(cs@.skip(i as int), c),
        decreases n - i,
    {
        assert(cs@.skip(i as int).drop_first() =~= cs@.skip(i + 1));
        i = i + 1;
    }
    i
}

/// The first position of `c` in `s`, counted in characters.
pub fn position_of(s: &str, c: char) -> (r: Option<usize>)
    ensures
        match r {
            Some(i) => i == index_of(s@, c) && i < s@.len(),
            None => index_of(s@, c) == s@.len(),
        },
{
    let cs = chars_of(s);
    assert(cs@.skip(0) =~= cs@);
    let i: usize = index_from(&cs, 0, c);
    if i < cs.len() {
        Some(i)
    } else {
        None
    }
}

/// The lines of `s`.
pub fn lines_of(s: &str) -> (r: Vec<String>)
    ensures
        texts(r@) == lines(s@),
{
    let cs = chars_of(s);
    let n: usize = cs.len();
    let mut out: Vec<String> = Vec::new();
    let mut from: usize = 0;
    assert(cs@.skip(0) =~= cs@);
    assert(texts(out@) + lines(cs@.skip(0)) =~= lines(cs@));
    while from < n
        invariant
            from <= n,
            n == cs@.len(),
            texts(out@) + lines(cs@.skip(from as int)) =~= lines(cs@),
        decreases n - from,
    {
        let ghost rest = cs@.skip(from as int);
        let ghost before = texts(out@);
        let end: usize = index_from(&cs, from, '\n');
        if end == n {
            out.push(string_of(&cs, from, n));
            assert(cs@.subrange(from as int, n as int) =~= rest);
            assert(texts(out@) =~= before.push(rest));
            assert(lines(rest) == seq![rest]);
            from = n;
            assert(lines(cs@.skip(n as int)) =~= Seq::<Seq<char>>::empty());
        } else {
            let mut stop: usize = end;
            if end > from && cs[end - 1] == '\r' {
                stop = end - 1;
            }
            out.push(string_of(&cs, from, stop));
            assert(rest.take(end - from) =~= cs@.subrange(from as int, end as int));
            assert(without_cr(rest.take(end - from)) =~= cs@.subrange(from as int, stop as int));
            assert(texts(out@) =~= before.push(without_cr(rest.take(end - from))));
            assert(rest.skip(end - from + 1) =~= cs@.skip(end + 1));
            assert(lines(rest) == seq![without_cr(rest.take(end - from))] + lines(
                cs@.skip(end + 1),
            ));
            from = end + 1;
        }
    }
    assert(lines(cs@.skip(n as int)) =~= Seq::<Seq<char>>::empty());
    out
}

/// The strings one after the other with `sep` between any two.
pub fn joined(parts: &Vec<String>, sep: &str) -> (r: String)
    ensures
        r@ == join(texts(parts@), sep@),
{
    let mut out = String::new();
    let mut i: usize = 0;
    while i < parts.len()
        invariant
            i <= parts@.len(),
            out@ == join(texts(parts@).take(i as int), sep@),
        decreases parts@.len() - i,
    {
        let ghost all = texts(parts@);
        assert(all.take(i + 1).drop_last() =~= all.take(i as int));
        if i > 0 {
            out.append(sep);
        } else {
            assert(all.take(i as int) =~= Seq::<Seq<char>>::empty());
        }
        out.append(parts[i].as_str());
        assert(out@ =~= join(all.take(i + 1), sep@));
        i = i + 1;
    }
    assert(texts(parts@).take(i as int) =~= texts(parts@));
    out
}

/// Whether `pat` stands in `cs` at position `i`.
fn occurs(cs: &Vec<char>, pat: &Vec<char>, i: usize) -> (r: bool)
    requires
        i + pat@.len() <= cs@.len(),
    ensures
        r == occurs_at(cs@, pat@, i as int),
{
    let n: usize = cs.len();
    let mut k: usize = 0;
    while k < pat.len()
        invariant
            k <= pat@.len(),
            n == cs@.len(),
            i + pat@.len() <= n,
            forall|j: int| 0 <= j < k ==> cs@[i + j] == pat@[j],
        decreases pat@.len() - k,
    {
        if cs[i + k] != pat[k] {
            assert(cs@.subrange(i as int, i + pat@.len())[k as int] != pat@[k as int]);
            return false;
        }
        k = k + 1;
    }
    assert(cs@.subrange(i as int, i + pat@.len()) =~= pat@);
    true
}

/// The first position from `from` on at which `pat` stands in `cs`.
fn find(cs: &Vec<char>, pat: &Vec<char>, from: usize) -> (r: Option<usize>)
    requires
        from <= cs@.len(),
    ensures
        match r {
            Some(i) => find_from(cs@, pat@, from as int) == Some(i as int) && occurs_at(
                cs@,
                pat@,
                i as int,
            ) && from <= i,
            None => find_from(cs@, pat@, from as int) is None,
        },
{
    let n: usize = cs.len();
    let m: usize = pat.len();
    let mut i: usize = from;
    while i <= n && m <= n - i
        invariant
            from <= i <= n + 1,
            n == cs@.len(),
            m == pat@.len(),
            find_from(cs@, pat@, from as int) == find_from(cs@, pat@, i as int),
        decreases n + 1 - i,
    {
        if occurs(cs, pat, i) {
            return Some(i);
        }
        if i == n {
            assert(find_from(cs@, pat@, i + 1) is None);
            return None;
        }
        i = i + 1;
    }
    None
}

/// A position that `find_from` gives is an occurrence, and there is none before it.
pub proof fn lemma_find_from(s: Seq<char>, pat: Seq<char>, i: int)
    requires
        0 <= i,
    ensures
        match find_from(s, pat, i) {
            Some(k) => i <= k && occurs_at(s, pat, k) && forall|j: int|
                i <= j < k ==> !occurs_at(s, pat, j),
            None => forall|j: int| i <= j ==> !occurs_at(s, pat, j),
        },
    decreases s.len() + 1 - i,
{
    if i + pat.len() <= s.len() && !occurs_at(s, pat, i) {
        lemma_find_from(s, pat, i + 1);
    }
}

/// Whether `pat` stands somewhere in `s`.
pub fn contains_text(s: &str, pat: &str) -> (r: bool)
    ensures
        r == contains(s@, pat@),
{
    let cs = chars_of(s);
    let ps = chars_of(pat);
    proof {
        lemma_find_from(s@, pat@, 0);
    }
    match find(&cs, &ps, 0) {
        Some(i) => {
            assert(occurs_at(s@, pat@, i as int));
            true
        },
        None => false,
    }
}

/// The first position at which `pat` stands in `s`, counted in characters.
pub fn find_text(s: &str, pat: &str) -> (r: Option<usize>)
    ensures
        match r {
            Some(i) => find_from(s@, pat@, 0) == Some(i as int) && i + pat@.len() <= s@.len(),
            None => find_from(s@, pat@, 0) is None,
        },
{
    let cs = chars_of(s);
    let ps = chars_of(pat);
    find(&cs, &ps, 0)
}

/// Searching from a position is searching what follows it.
proof fn lemma_find_shift(s: Seq<char>, pat: Seq<char>, from: int, i: int)
    requires
        0 <= from <= s.len(),
        0 <= i,
    ensures
        find_from(s, pat, from + i) == (match find_from(s.skip(from), pat, i) {
            Some(k) => Some(from + k),
            None => None,
        }),
    decreases s.len() + 1 - from - i,
{
    let t = s.skip(from);
    if i + pat.len() <= t.len() {
        assert(t.subrange(i, i + pat.len()) =~= s.subrange(from + i, from + i + pat.len()));
        if !occurs_at(t, pat, i) {
            lemma_find_shift(s, pat, from, i + 1);
        }
    }
}

/// `s` with every occurrence of `pat` replaced by `rep`.
pub fn replaced(s: &str, pat: &str, rep: &str) -> (r: String)
    requires
        pat@.len() > 0,
    ensures
        r@ == replace(s@, pat@, rep@),
{
    let cs = chars_of(s);
    let ps = chars_of(pat);
    let n: usize = cs.len();
    let mut out = String::new();
    let mut from: usize = 0;
    assert(cs@.skip(0) =~= cs@);
    assert(out@ + replace(cs@.skip(0), pat@, rep@) =~= replace(cs@, pat@, rep@));
    loop
        invariant
            from <= n,
            n == cs@.len(),
            cs@ == s@,
            ps@ == pat@,
            pat@.len() > 0,
            out@ + replace(cs@.skip(from as int), pat@, rep@) == replace(cs@, pat@, rep@),
        decreases n - from,
    {
        let ghost rest = cs@.skip(from as int);
        proof {
            lemma_find_shift(cs@, pat@, from as int, 0);
            lemma_find_from(rest, pat@, 0);
        }
        match find(&cs, &ps, from) {
            Some(i) => {
                let ghost before = out@;
                out.append(string_of(&cs, from, i).as_str());
                out.append(rep);
                assert(rest.take(i - from) =~= cs@.subrange(from as int, i as int));
                assert(rest.skip(i - from + pat@.len()) =~= cs@.skip(i + pat@.len()));
                assert(out@ + replace(cs@.skip(i + pat@.len()), pat@, rep@) =~= before + (
                rest.take(i - from) + rep@ + replace(cs@.skip(i + pat@.len()), pat@, rep@)));
                from = i + ps.len();
            },
            None => {
                out.append(string_of(&cs, from, n).as_str());
                assert(cs@.subrange(from as int, n as int) =~= rest);
                return out;
            },
        }
    }
}

/// The decimal numeral of `n`.
pub fn numeral(n: u128) -> (r: String)
    ensures
        r@ == decimal(n as nat),
    decreases n,
{
    if n < 10 {
        let mut out = String::new();
        out.push((48 + n as u8) as char);
        assert(out@ =~= seq![digit(n as nat)]);
        out
    } else {
        let mut out = numeral(n / 10);
        out.push((48 + (n % 10) as u8) as char);
        out
    }
}

/// Whether `a` stands before `b` in the order of their code points.
pub fn text_before(a: &str, b: &str) -> (r: bool)
    ensures
        r == text_less(a@, b@),
{
    let xs = chars_of(a);
    let ys = chars_of(b);
    let mut i: usize = 0;
    assert(xs@.skip(0) =~= xs@);
    assert(ys@.skip(0) =~= ys@);
    while i < xs.len() && i < ys.len() && xs[i] == ys[i]
        invariant
            i <= xs@.len(),
            i <= ys@.len(),
            text_less(xs@.skip(i as int), ys@.skip(i as int)) == text_less(xs@, ys@),
        decreases xs@.len() - i,
    {
        assert(xs@.skip(i as int).drop_first() =~= xs@.skip(i + 1));
        assert(ys@.skip(i as int).drop_first() =~= ys@.skip(i + 1));
        i = i + 1;
    }
    if i == ys.len() {
        false
    } else if i == xs.len() {
        true
    } else {
        code_point(xs[i]) < code_point(ys[i])
    }
}

/// The code point of a character.
fn code_point(c: char) -> (r: u32)
    ensures
        r as int == c as int,
{
    c as u32
}

/// Whether `c` is the first character of `s`.
pub fn starts_with_char(s: &str, c: char) -> (r: bool)
    ensures
        r == (s@.len() > 0 && s@[0] == c),
{
    let cs = chars_of(s);
    cs.len() > 0 && cs[0] == c
}

/// Whether one of the strings is `s`.
pub fn holds_text(v: &Vec<String>, s: &str) -> (r: bool)
    ensures
        r == texts(v@).contains(s@),
{
    let mut i: usize = 0;
    while i < v.len()
        invariant
            i <= v@.len(),
            forall|j: int| 0 <= j < i ==> v@[j]@ != s@,
        decreases v@.len() - i,
    {
        if text_eq(v[i].as_str(), s) {
            assert(texts(v@)[i as int] == s@);
            return true;
        }
        i = i + 1;
    }
    assert forall|j: int| 0 <= j < texts(v@).len() implies texts(v@)[j] != s@ by {}
    false
}

// ---------------------------------------------------------------------------
// Laws of texts
// ---------------------------------------------------------------------------

/// The first position of a character is an occurrence, and there is none before it.
pub proof fn lemma_index_of(s: Seq<char>, c: char)
    ensures
        0 <= index_of(s, c) <= s.len(),
        index_of(s, c) < s.len() ==> s[index_of(s, c)] == c,
        forall|i: int| 0 <= i < index_of(s, c) ==> s[i] != c,
    decreases s.len(),
{
    if s.len() > 0 && s[0] != c {
        let r = s.drop_first();
        lemma_index_of(r, c);
        assert forall|i: int| 0 <= i < index_of(s, c) implies s[i] != c by {
            if i > 0 {
                assert(r[i - 1] == s[i]);
            }
        }
    }
}

/// An occurrence with none before it is the first position.
pub proof fn lemma_index_of_is(s: Seq<char>, c: char, n: int)
    requires
        0 <= n <= s.len(),
        n < s.len() ==> s[n] == c,
        forall|i: int| 0 <= i < n ==> s[i] != c,
    ensures
        index_of(s, c) == n,
{
    lemma_index_of(s, c);
}

/// Where the leading white space ends, `trim_start` begins.
pub proof fn lemma_trim_start_is(s: Seq<char>, a: int)
    requires
        0 <= a <= s.len(),
        forall|i: int| 0 <= i < a ==> is_white_space(#[trigger] s[i]),
        a < s.len() ==> !is_white_space(s[a]),
    ensures
        trim_start(s) == s.skip(a),
    decreases a,
{
    if a > 0 {
        let r = s.drop_first();
        assert(is_white_space(s[0]));
        assert forall|i: int| 0 <= i < a - 1 implies is_white_space(#[trigger] r[i]) by {
            assert(r[i] == s[i + 1]);
        }
        lemma_trim_start_is(r, a - 1);
        assert(r.skip(a - 1) =~= s.skip(a));
    } else {
        assert(s.skip(0) =~= s);
    }
}

/// Where the trailing white space begins, `trim_end` ends.
pub proof fn lemma_trim_end_is(s: Seq<char>, b: int)
    requires
        0 <= b <= s.len(),
        forall|i: int| b <= i < s.len() ==> is_white_space(#[trigger] s[i]),
        b > 0 ==> !is_white_space(s[b - 1]),
    ensures
        trim_end(s) == s.take(b),
    decreases s.len(),
{
    if b < s.len() {
        assert(is_white_space(s[s.len() - 1]));
        lemma_trim_end_is(s.drop_last(), b);
        assert(s.drop_last().take(b) =~= s.take(b));
    } else {
        assert(s.take(b) =~= s);
    }
}

/// Everything of `s` before `a` and from `b` on is white space, and what is between starts
/// and ends with something else.
pub open spec fn trim_bounds(s: Seq<char>, a: int, b: int) -> bool {
    &&& 0 <= a <= b <= s.len()
    &&& forall|i: int| 0 <= i < a ==> is_white_space(#[trigger] s[i])
    &&& forall|i: int| b <= i < s.len() ==> is_white_space(#[trigger] s[i])
    &&& a < b ==> !is_white_space(s[a]) && !is_white_space(s[b - 1])
}

/// What is between the bounds is the trimmed text.
pub proof fn lemma_trim_is(s: Seq<char>, a: int, b: int)
    requires
        trim_bounds(s, a, b),
    ensures
        trim(s) == s.subrange(a, b),
{
    if a == b {
        assert forall|i: int| 0 <= i < s.len() implies is_white_space(#[trigger] s[i]) by {}
        lemma_trim_start_is(s, s.len() as int);
        assert(s.skip(s.len() as int) =~= Seq::<char>::empty());
        assert(s.subrange(a, b) =~= Seq::<char>::empty());
    } else {
        lemma_trim_start_is(s, a);
        let t = s.skip(a);
        assert forall|i: int| b - a <= i < t.len() implies is_white_space(#[trigger] t[i]) by {
            assert(t[i] == s[a + i]);
        }
        lemma_trim_end_is(t, b - a);
        assert(t.take(b - a) =~= s.subrange(a, b));
    }
}

/// Every text has such bounds.
pub proof fn lemma_trim_bounds(s: Seq<char>) -> (r: (int, int))
    ensures
        trim_bounds(s, r.0, r.1),
        trim(s) == s.subrange(r.0, r.1),
    decreases s.len(),
{
    let r = if s.len() == 0 {
        (0, 0)
    } else {
        let t = s.drop_last();
        let (a, b) = lemma_trim_bounds(t);
        assert forall|i: int| 0 <= i < t.len() implies t[i] == s[i] by {}
        if is_white_space(s.last()) {
            assert forall|i: int| b <= i < s.len() implies is_white_space(#[trigger] s[i]) by {
                if i < t.len() {
                    assert(is_white_space(t[i]));
                }
            }
            assert forall|i: int| 0 <= i < a implies is_white_space(#[trigger] s[i]) by {
                assert(is_white_space(t[i]));
            }
            (a, b)
        } else if a < b {
            assert forall|i: int| 0 <= i < a implies is_white_space(#[trigger] s[i]) by {
                assert(is_white_space(t[i]));
            }
            (a, s.len() as int)
        } else {
            assert forall|i: int| 0 <= i < s.len() - 1 implies is_white_space(#[trigger] s[i]) by {
                assert(is_white_space(t[i]));
            }
            (s.len() - 1, s.len() as int)
        }
    };
    assert(trim_bounds(s, r.0, r.1));
    lemma_trim_is(s, r.0, r.1);
    r
}

/// A trimmed text neither starts nor ends with white space, and trimming it again changes
/// nothing.
pub proof fn law_trim(s: Seq<char>)
    ensures
        trim(s).len() > 0 ==> !is_white_space(trim(s)[0]) && !is_white_space(trim(s).last()),
        trim(trim(s)) == trim(s),
{
    let (a, b) = lemma_trim_bounds(s);
    let t = trim(s);
    lemma_trim_is(t, 0, t.len() as int);
    assert(t.subrange(0, t.len() as int) =~= t);
}

/// A line is trimmed to the same text with its carriage return as without.
pub proof fn lemma_trim_without_cr(s: Seq<char>)
    ensures
        trim(without_cr(s)) == trim(s),
{
    if s.len() > 0 && s.last() == '\r' {
        let (a, b) = lemma_trim_bounds(s);
        let t = s.drop_last();
        assert(is_white_space('\r'));
        assert(is_white_space(s[s.len() - 1]));
        if b == s.len() {
            assert(a == b);
            assert forall|i: int| 0 <= i < t.len() implies is_white_space(#[trigger] t[i]) by {
                assert(t[i] == s[i]);
            }
            lemma_trim_is(t, 0, 0);
            assert(t.subrange(0, 0) =~= s.subrange(a, b));
        } else {
            assert forall|i: int| b <= i < t.len() implies is_white_space(#[trigger] t[i]) by {
                assert(t[i] == s[i]);
            }
            assert forall|i: int| 0 <= i < a implies is_white_space(#[trigger] t[i]) by {
                assert(t[i] == s[i]);
            }
            lemma_trim_is(t, a, b);
            assert(t.subrange(a, b) =~= s.subrange(a, b));
        }
    }
}

/// No line of a text holds a line feed.
pub proof fn lemma_lines_hold_no_feed(s: Seq<char>, n: int)
    requires
        0 <= n < lines(s).len(),
    ensures
        !lines(s)[n].contains('\n'),
    decreases s.len(),
{
    lemma_index_of(s, '\n');
    let i = index_of(s, '\n');
    if i < s.len() {
        let head = without_cr(s.take(i));
        let tail = lines(s.skip(i + 1));
        if n == 0 {
            assert(lines(s)[0] == head);
            assert forall|j: int| 0 <= j < head.len() implies head[j] != '\n' by {
                assert(head[j] == s[j]);
            }
        } else {
            assert(lines(s)[n] == tail[n - 1]);
            lemma_lines_hold_no_feed(s.skip(i + 1), n - 1);
        }
    } else {
        assert(lines(s)[n] == s);
    }
}

/// The lines of a line and what follows its end.
pub proof fn lemma_lines_cons(l: Seq<char>, rest: Seq<char>)
    requires
        !l.contains('\n'),
    ensures
        lines(l + seq!['\n'] + rest) == seq![without_cr(l)] + lines(rest),
{
    let s = l + seq!['\n'] + rest;
    assert forall|i: int| 0 <= i < l.len() implies s[i] != '\n' by {
        assert(s[i] == l[i]);
    }
    assert(s[l.len() as int] == '\n');
    lemma_index_of_is(s, '\n', l.len() as int);
    assert(s.take(l.len() as int) =~= l);
    assert(s.skip(l.len() as int + 1) =~= rest);
}

/// Joining a first part and others.
pub proof fn lemma_join_cons(parts: Seq<Seq<char>>, sep: Seq<char>)
    requires
        parts.len() > 1,
    ensures
        join(parts, sep) == parts[0] + sep + join(parts.drop_first(), sep),
    decreases parts.len(),
{
    let front = parts.drop_last();
    let rest = parts.drop_first();
    if parts.len() == 2 {
        assert(join(front, sep) == parts[0]);
        assert(join(rest, sep) == parts[1]);
    } else {
        lemma_join_cons(front, sep);
        assert(rest.drop_last() =~= front.drop_first());
        assert(join(parts, sep) =~= parts[0] + sep + (join(front.drop_first(), sep) + sep
            + parts.last()));
    }
}

/// Lines that are joined and ended by line feeds are the lines that are read again, but for
/// a carriage return at the end of one.
pub proof fn law_join_lines(parts: Seq<Seq<char>>)
    requires
        parts.len() > 0,
        forall|i: int| 0 <= i < parts.len() ==> !(#[trigger] parts[i]).contains('\n'),
    ensures
        lines(join(parts, seq!['\n']) + seq!['\n']) == parts.map_values(
            |l: Seq<char>| without_cr(l),
        ),
    decreases parts.len(),
{
    let f = |l: Seq<char>| without_cr(l);
    let none = Seq::<char>::empty();
    if parts.len() == 1 {
        lemma_lines_cons(parts[0], none);
        assert(parts[0] + seq!['\n'] + none =~= join(parts, seq!['\n']) + seq!['\n']);
        assert(lines(none) =~= Seq::<Seq<char>>::empty());
        assert(parts.map_values(f) =~= seq![without_cr(parts[0])]);
    } else {
        let rest = parts.drop_first();
        lemma_join_cons(parts, seq!['\n']);
        assert forall|i: int| 0 <= i < rest.len() implies !(#[trigger] rest[i]).contains('\n') by {
            assert(rest[i] == parts[i + 1]);
        }
        law_join_lines(rest);
        let tail = join(rest, seq!['\n']) + seq!['\n'];
        lemma_lines_cons(parts[0], tail);
        assert(join(parts, seq!['\n']) + seq!['\n'] =~= parts[0] + seq!['\n'] + tail);
        assert(parts.map_values(f) =~= seq![without_cr(parts[0])] + rest.map_values(f));
    }
}

/// The order of texts is an order: exactly one of two different texts stands before the other,
/// and none before itself.
pub proof fn law_text_less_total(a: Seq<char>, b: Seq<char>)
    ensures
        text_less(a, b) ==> !text_less(b, a) && a != b,
        a != b ==> text_less(a, b) || text_less(b, a),
    decreases a.len(),
{
    if a.len() > 0 && b.len() > 0 {
        if a[0] == b[0] {
            law_text_less_total(a.drop_first(), b.drop_first());
            if a != b {
                assert(a =~= seq![a[0]] + a.drop_first());
                assert(b =~= seq![b[0]] + b.drop_first());
                assert(a.drop_first() != b.drop_first());
            }
        }
    } else if a.len() == 0 && b.len() == 0 {
        assert(a =~= b);
    }
}

/// What stands before a text stands before all that it stands before.
pub proof fn law_text_less_trans(a: Seq<char>, b: Seq<char>, c: Seq<char>)
    requires
        text_less(a, b),
        text_less(b, c),
    ensures
        text_less(a, c),
    decreases a.len(),
{
    if a.len() > 0 && a[0] == b[0] && b[0] == c[0] {
        law_text_less_trans(a.drop_first(), b.drop_first(), c.drop_first());
    }
}

/// White space among the characters up to U+0084 is the space and the five controls from the tab
/// to the carriage return; no character from the exclamation mark to U+0084 is white space.
pub proof fn law_white_space(c: char)
    ensures
        c == ' ' || c == '\t' || c == '\n' || c == '\r' ==> is_white_space(c),
        '!' <= c <= '\u{84}' ==> !is_white_space(c),
        c == '\u{85}' || c == '\u{a0}' || c == '\u{2003}' || c == '\u{3000}' ==> is_white_space(c),
{
}

/// Trimming takes the white space on both sides of a text away, and nothing of the text.
pub proof fn law_trim_takes_white_space(l: Seq<char>, m: Seq<char>, r: Seq<char>)
    requires
        forall|i: int| 0 <= i < l.len() ==> is_white_space(#[trigger] l[i]),
        forall|i: int| 0 <= i < r.len() ==> is_white_space(#[trigger] r[i]),
        m.len() > 0 ==> !is_white_space(m[0]) && !is_white_space(m.last()),
    ensures
        trim(l + m + r) == m,
        trim_end(m + r) == m,
        m.len() > 0 ==> trim_start(l + m) == m,
{
    let s = l + m + r;
    let a = l.len() as int;
    let b = a + m.len();
    assert forall|i: int| b <= i < s.len() implies is_white_space(#[trigger] s[i]) by {
        assert(s[i] == r[i - b]);
    }
    assert forall|i: int| 0 <= i < a implies is_white_space(#[trigger] s[i]) by {
        assert(s[i] == l[i]);
    }
    lemma_trim_is(s, a, b);
    assert(s.subrange(a, b) =~= m);
    let t = m + r;
    assert forall|i: int| m.len() <= i < t.len() implies is_white_space(#[trigger] t[i]) by {
        assert(t[i] == r[i - m.len()]);
    }
    lemma_trim_end_is(t, m.len() as int);
    assert(t.take(m.len() as int) =~= m);
    if m.len() > 0 {
        let u = l + m;
        assert forall|i: int| 0 <= i < a implies is_white_space(#[trigger] u[i]) by {
            assert(u[i] == l[i]);
        }
        lemma_trim_start_is(u, a);
        assert(u.skip(a) =~= m);
    }
}

/// Dropping a leading run takes that run away, and nothing else.
pub proof fn law_drop_leading(h: Seq<char>, m: Seq<char>, c: char)
    requires
        forall|i: int| 0 <= i < h.len() ==> #[trigger] h[i] == c,
        m.len() > 0 ==> m[0] != c,
    ensures
        drop_leading(h + m, c) == m,
    decreases h.len(),
{
    if h.len() == 0 {
        assert(h + m =~= m);
    } else {
        assert(h[0] == c);
        let rest = h.drop_first();
        assert forall|i: int| 0 <= i < rest.len() implies #[trigger] rest[i] == c by {
            assert(rest[i] == h[i + 1]);
        }
        law_drop_leading(rest, m, c);
        assert((h + m).drop_first() =~= rest + m);
    }
}

/// A text without a line feed is one line, unless it is empty; a line that is ended by a line
/// feed, with or without a carriage return before it, is the first line, and the others follow.
pub proof fn law_lines(l: Seq<char>, rest: Seq<char>)
    requires
        !l.contains('\n'),
    ensures
        lines(l) == (if l.len() == 0 {
            Seq::<Seq<char>>::empty()
        } else {
            seq![l]
        }),
        l.len() == 0 || l.last() != '\r' ==> lines(l + seq!['\n'] + rest) == seq![l] + lines(rest),
        lines(l + seq!['\r', '\n'] + rest) == seq![l] + lines(rest),
{
    lemma_index_of(l, '\n');
    if index_of(l, '\n') < l.len() {
        assert(l.contains('\n'));
    }
    lemma_lines_cons(l, rest);
    let k = l.push('\r');
    assert(!k.contains('\n')) by {
        if k.contains('\n') {
            let i = choose|i: int| 0 <= i < k.len() && k[i] == '\n';
            assert(l[i] == '\n');
        }
    }
    lemma_lines_cons(k, rest);
    assert(k + seq!['\n'] + rest =~= l + seq!['\r', '\n'] + rest);
    assert(k.drop_last() =~= l);
}

/// Replacing one character by another exchanges every one of them, and nothing else.
pub proof fn law_replace_char(s: Seq<char>, c: char, d: char)
    ensures
        replace(s, seq![c], seq![d]).len() == s.len(),
        forall|i: int|
            0 <= i < s.len() ==> #[trigger] replace(s, seq![c], seq![d])[i] == (if s[i] == c {
                d
            } else {
                s[i]
            }),
    decreases s.len(),
{
    let p = seq![c];
    lemma_find_from(s, p, 0);
    assert forall|i: int| 0 <= i < s.len() implies occurs_at(s, p, i) == (s[i] == c) by {
        let w = s.subrange(i, i + 1);
        assert(w[0] == s[i]);
        if s[i] == c {
            assert(w =~= p);
        }
    }
    match find_from(s, p, 0) {
        Some(i) => {
            let rest = s.skip(i + 1);
            law_replace_char(rest, c, d);
            let r = replace(s, p, seq![d]);
            assert(r =~= s.take(i) + seq![d] + replace(rest, p, seq![d]));
            assert forall|j: int| 0 <= j < s.len() implies #[trigger] r[j] == (if s[j] == c {
                d
            } else {
                s[j]
            }) by {
                if j < i {
                    assert(!occurs_at(s, p, j));
                } else if j > i {
                    assert(r[j] == replace(rest, p, seq![d])[j - i - 1]);
                    assert(rest[j - i - 1] == s[j]);
                }
            }
        },
        None => {
            assert forall|j: int| 0 <= j < s.len() implies s[j] != c by {
                assert(!occurs_at(s, p, j));
            }
        },
    }
}

/// The number that digits stand for.
pub open spec fn digits_value(s: Seq<char>) -> int
    decreases s.len(),
{
    if s.len() == 0 {
        0
    } else {
        digits_value(s.drop_last()) * 10 + (s.last() as int - '0' as int)
    }
}

/// A numeral is made of digits, stands for its number, and has no zero before another digit.
pub proof fn law_decimal(n: nat)
    ensures
        decimal(n).len() > 0,
        forall|i: int| 0 <= i < decimal(n).len() ==> '0' <= #[trigger] decimal(n)[i] <= '9',
        digits_value(decimal(n)) == n,
        decimal(n).len() > 1 ==> decimal(n)[0] != '0',
    decreases n,
{
    if n < 10 {
        let d = decimal(n);
        assert(d.drop_last() =~= Seq::<char>::empty());
        assert(digits_value(Seq::<char>::empty()) == 0);
        assert(d.last() == digit(n));
    } else {
        law_decimal(n / 10);
        let d = decimal(n);
        assert(d.drop_last() =~= decimal(n / 10));
        assert(d.last() == digit(n % 10));
        assert(d[0] == decimal(n / 10)[0]);
        if decimal(n / 10).len() == 1 {
            let f = decimal(n / 10);
            assert(n / 10 < 10) by {
                if n / 10 >= 10 {
                    law_decimal(n / 10 / 10);
                }
            }
            assert(f[0] == digit(n / 10));
        }
    }
}

/// Of two texts that differ for the first time in a place, the one with the smaller character
/// there stands before the other, and a text stands before all longer ones that start with it.
pub proof fn law_text_less_at(p: Seq<char>, a: Seq<char>, b: Seq<char>)
    requires
        a.len() > 0 && b.len() > 0 ==> a[0] != b[0],
    ensures
        text_less(p + a, p + b) == (b.len() > 0 && (a.len() == 0 || (a[0] as int) < (b[0] as int))),
    decreases p.len(),
{
    if p.len() == 0 {
        assert(p + a =~= a);
        assert(p + b =~= b);
    } else {
        law_text_less_at(p.drop_first(), a, b);
        assert((p + a).drop_first() =~= p.drop_first() + a);
        assert((p + b).drop_first() =~= p.drop_first() + b);
    }
}

/// Capital letters of ASCII become the small ones, and every other character stays.
pub proof fn law_small_letters(s: Seq<char>, i: int)
    requires
        0 <= i < s.len(),
    ensures
        in_small_letters(s).len() == s.len(),
        'A' <= s[i] <= 'Z' ==> in_small_letters(s)[i] as int == s[i] as int + ('a' as int
            - 'A' as int),
        !('A' <= s[i] <= 'Z') ==> in_small_letters(s)[i] == s[i],
        all_ascii(s) ==> lower_case(s) == in_small_letters(s),
{
    law_small_letter(s[i]);
}

/// The capital letters of ASCII have small ones, and every other character stays.
pub proof fn law_small_letter(c: char)
    ensures
        'A' <= c <= 'Z' ==> ascii_lower(c) as int == c as int + ('a' as int - 'A' as int),
        !('A' <= c <= 'Z') ==> ascii_lower(c) == c,
{
}

/// Joining puts the separator between any two parts, and nothing before the first and behind the
/// last.
pub proof fn law_join(parts: Seq<Seq<char>>, part: Seq<char>, sep: Seq<char>)
    ensures
        join(Seq::empty(), sep) == Seq::<char>::empty(),
        join(seq![part], sep) == part,
        parts.len() > 0 ==> join(parts.push(part), sep) == join(parts, sep) + sep + part,
{
    if parts.len() > 0 {
        assert(parts.push(part).drop_last() =~= parts);
    }
}

/// The position of a character is the first at which it stands, and the length of the text where
/// it stands at none.
pub proof fn law_index_of(s: Seq<char>, c: char, i: int)
    ensures
        0 <= index_of(s, c) <= s.len(),
        index_of(s, c) < s.len() ==> s[index_of(s, c)] == c,
        0 <= i < s.len() && s[i] == c ==> index_of(s, c) <= i,
{
    lemma_index_of(s, c);
}

/// A text is found at the first position from which it stands letter for letter, and nowhere
/// where there is none.
pub proof fn law_find(s: Seq<char>, pat: Seq<char>, i: int)
    ensures
        find_from(s, pat, 0) matches Some(n) ==> 0 <= n && n + pat.len() <= s.len() && s.subrange(
            n,
            n + pat.len(),
        ) == pat,
        0 <= i && i + pat.len() <= s.len() && s.subrange(i, i + pat.len()) == pat ==> (find_from(
            s,
            pat,
            0,
        ) matches Some(n) && n <= i) && contains(s, pat),
{
    lemma_find_from(s, pat, 0);
    if 0 <= i && i + pat.len() <= s.len() && s.subrange(i, i + pat.len()) == pat {
        assert(occurs_at(s, pat, i));
    }
}

/// Replacing a text exchanges the first place where it stands, and goes on behind it; a text in
/// which it stands nowhere stays.
pub proof fn law_replace(a: Seq<char>, b: Seq<char>, pat: Seq<char>, rep: Seq<char>)
    requires
        pat.len() > 0,
    ensures
        !contains(a, pat) ==> replace(a, pat, rep) == a,
        (forall|i: int| 0 <= i < a.len() ==> !occurs_at(a + pat + b, pat, i)) ==> replace(
            a + pat + b,
            pat,
            rep,
        ) == a + rep + replace(b, pat, rep),
{
    lemma_find_from(a, pat, 0);
    let s = a + pat + b;
    lemma_find_from(s, pat, 0);
    let n = a.len() as int;
    assert(s.subrange(n, n + pat.len()) =~= pat);
    assert(occurs_at(s, pat, n));
    assert(s.take(n) =~= a);
    assert(s.skip(n + pat.len()) =~= b);
}

/// The ASCII characters are those up to U+007F.
proof fn lemma_ascii(c: char)
    ensures
        (c as u32) < 128 <==> c <= '\u{7f}',
{
}

/// A text is ASCII where none of its characters stands behind U+007F.
pub proof fn law_all_ascii(s: Seq<char>, i: int)
    ensures
        all_ascii(s) && 0 <= i < s.len() ==> s[i] <= '\u{7f}',
        0 <= i < s.len() && s[i] > '\u{7f}' ==> !all_ascii(s),
        (forall|j: int| 0 <= j < s.len() ==> #[trigger] s[j] <= '\u{7f}') ==> all_ascii(s),
{
    if 0 <= i < s.len() {
        lemma_ascii(s[i]);
    }
    if forall|j: int| 0 <= j < s.len() ==> #[trigger] s[j] <= '\u{7f}' {
        assert forall|j: int| 0 <= j < s.len() implies (#[trigger] s[j] as u32) < 128 by {
            lemma_ascii(s[j]);
        }
    }
}

} // verus!
