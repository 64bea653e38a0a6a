//! Character-sequence helpers shared by the diagram plugins.
//!
//! Every helper works on `Vec<char>` and is specified over `Seq<char>`, the
//! view that vstd gives to `str` and `String`.
use vstd::prelude::*;

verus! {

// ───────────────────────────── conversions ─────────────────────────────

/// The characters of `s`, in order.
pub fn chars_of(s: &str) -> (v: Vec<char>)
    ensures
        v@ == s@,
{
    broadcast use vstd::string::axiom_spec_iter;

    let mut v: Vec<char> = Vec::new();
    for c in it: s.chars()
        invariant
            v@ == it.seq().take(it.index() as int),
            it.seq() == s@,
    {
        v.push(c);
    }
    v
}

/// Collects characters into a `String` (std's `FromIterator<char>` for `String`).
///
/// Trusted: claims that the string holds exactly the given characters, in order,
/// which is what std documents for collecting an iterator of `char`.
#[verifier::external_body]
pub(crate) fn string_of(v: &Vec<char>) -> (s: String)
    ensures
        s@ == v@,
{
    v.iter().collect()
}

/// A copy of `s[lo..hi]`.
pub fn subvec(s: &Vec<char>, lo: usize, hi: usize) -> (r: Vec<char>)
    requires
        lo <= hi <= s.len(),
    ensures
        r@ == s@.subrange(lo as int, hi as int),
{
    let mut r: Vec<char> = Vec::new();
    let mut i = lo;
    while i < hi
        invariant
            lo <= i <= hi <= s.len(),
            r@ == s@.subrange(lo as int, i as int),
        decreases hi - i,
    {
        r.push(s[i]);
        i = i + 1;
    }
    r
}

/// Appends all of `b` to `a`.
pub fn append_all(a: &mut Vec<char>, b: &Vec<char>)
    ensures
        final(a)@ == old(a)@ + b@,
{
    let mut i: usize = 0;
    let ghost a0 = a@;
    while i < b.len()
        invariant
            i <= b.len(),
            a@ == a0 + b@.subrange(0, i as int),
        decreases b.len() - i,
    {
        a.push(b[i]);
        i = i + 1;
    }
    assert(b@.subrange(0, b.len() as int) =~= b@);
}

/// Appends `n` copies of `c` to `a`.
pub fn push_repeat(a: &mut Vec<char>, c: char, n: usize)
    ensures
        final(a)@ == old(a)@ + Seq::new(n as nat, |i: int| c),
{
    let mut i: usize = 0;
    let ghost a0 = a@;
    while i < n
        invariant
            i <= n,
            a@ == a0 + Seq::new(i as nat, |j: int| c),
        decreases n - i,
    {
        a.push(c);
        i = i + 1;
        assert(a@ =~= a0 + Seq::new(i as nat, |j: int| c));
    }
}

/// `n` copies of `c`.
pub open spec fn repeat(c: char, n: nat) -> Seq<char> {
    Seq::new(n, |i: int| c)
}

// ───────────────────────────── whitespace ─────────────────────────────

/// Unicode `White_Space`, the property behind `char::is_whitespace`.
pub open spec fn is_ws(c: char) -> bool {
    ||| ('\t' <= c && c <= '\r')
    ||| c == ' '
    ||| c == '\u{85}'
    ||| c == '\u{a0}'
    ||| c == '\u{1680}'
    ||| ('\u{2000}' <= c && c <= '\u{200a}')
    ||| c == '\u{2028}'
    ||| c == '\u{2029}'
    ||| c == '\u{202f}'
    ||| c == '\u{205f}'
    ||| c == '\u{3000}'
}

pub fn is_whitespace(c: char) -> (r: bool)
    ensures
        r == is_ws(c),
{
    ('\t' <= c && c <= '\r') || c == ' ' || c == '\u{85}' || c == '\u{a0}' || c == '\u{1680}'
        || ('\u{2000}' <= c && c <= '\u{200a}') || c == '\u{2028}' || c == '\u{2029}'
        || c == '\u{202f}' || c == '\u{205f}' || c == '\u{3000}'
}

/// Number of whitespace characters at the start of `s`.
pub open spec fn lead_ws(s: Seq<char>) -> nat
    decreases s.len(),
{
    if s.len() == 0 {
        0
    } else if is_ws(s[0]) {
        1 + lead_ws(s.drop_first())
    } else {
        0
    }
}

/// Number of whitespace characters at the end of `s`.
pub open spec fn trail_ws(s: Seq<char>) -> nat
    decreases s.len(),
{
    if s.len() == 0 {
        0
    } else if is_ws(s.last()) {
        1 + trail_ws(s.drop_last())
    } else {
        0
    }
}

/// `s` without leading and trailing whitespace (`str::trim`).
pub open spec fn trim(s: Seq<char>) -> Seq<char> {
    if lead_ws(s) >= s.len() {
        Seq::empty()
    } else {
        s.subrange(lead_ws(s) as int, s.len() - trail_ws(s))
    }
}

/// `s` without trailing whitespace (`str::trim_end`).
pub open spec fn trim_end(s: Seq<char>) -> Seq<char> {
    s.subrange(0, s.len() - trail_ws(s))
}

pub proof fn lemma_lead_ws(s: Seq<char>, i: int)
    requires
        0 <= i <= s.len(),
        forall|j: int| 0 <= j < i ==> is_ws(#[trigger] s[j]),
        i == s.len() || !is_ws(s[i]),
    ensures
        lead_ws(s) == i,
    decreases i,
{
    if i > 0 {
        lemma_lead_ws(s.drop_first(), i - 1);
    }
}

pub proof fn lemma_trail_ws(s: Seq<char>, k: int)
    requires
        0 <= k <= s.len(),
        forall|j: int| s.len() - k <= j < s.len() ==> is_ws(#[trigger] s[j]),
        k == s.len() || !is_ws(s[s.len() - k - 1]),
    ensures
        trail_ws(s) == k,
    decreases k,
{
    if k > 0 {
        lemma_trail_ws(s.drop_last(), k - 1);
    }
}

pub proof fn lemma_lead_ws_bound(s: Seq<char>)
    ensures
        lead_ws(s) <= s.len(),
        forall|j: int| 0 <= j < lead_ws(s) ==> is_ws(#[trigger] s[j]),
        lead_ws(s) < s.len() ==> !is_ws(s[lead_ws(s) as int]),
    decreases s.len(),
{
    if s.len() > 0 && is_ws(s[0]) {
        lemma_lead_ws_bound(s.drop_first());
        assert forall|j: int| 0 <= j < lead_ws(s) implies is_ws(#[trigger] s[j]) by {
            if j > 0 {
                assert(s[j] == s.drop_first()[j - 1]);
            }
        }
    }
}

/// Index of the first non-whitespace character (or the length).
fn skip_ws_start(s: &Vec<char>) -> (i: usize)
    ensures
        i == lead_ws(s@),
{
    let mut i: usize = 0;
    while i < s.len() && is_whitespace(s[i])
        invariant
            i <= s.len(),
            forall|j: int| 0 <= j < i ==> is_ws(#[trigger] s@[j]),
        decreases s.len() - i,
    {
        i = i + 1;
    }
    proof {
        lemma_lead_ws(s@, i as int);
    }
    i
}

/// Number of trailing whitespace characters.
fn count_ws_end(s: &Vec<char>) -> (k: usize)
    ensures
        k == trail_ws(s@),
{
    let mut k: usize = 0;
    while k < s.len() && is_whitespace(s[s.len() - k - 1])
        invariant
            k <= s.len(),
            forall|j: int| s.len() - k <= j < s.len() ==> is_ws(#[trigger] s@[j]),
        decreases s.len() - k,
    {
        k = k + 1;
    }
    proof {
        lemma_trail_ws(s@, k as int);
    }
    k
}

pub proof fn lemma_trail_ws_le(s: Seq<char>)
    ensures
        trail_ws(s) <= s.len(),
        lead_ws(s) < s.len() ==> lead_ws(s) + trail_ws(s) < s.len(),
    decreases s.len(),
{
    if s.len() > 0 && is_ws(s.last()) {
        lemma_trail_ws_le(s.drop_last());
        lemma_lead_ws_bound(s);
        lemma_lead_ws_bound(s.drop_last());
        if lead_ws(s) < s.len() {
            // the first non-whitespace character is not the last one
            assert(lead_ws(s) < s.len() - 1);
            lemma_lead_ws(s.drop_last(), lead_ws(s) as int);
        }
    } else if s.len() > 0 {
        lemma_lead_ws_bound(s);
    }
}

/// `str::trim`.
pub fn trim_chars(s: &Vec<char>) -> (r: Vec<char>)
    ensures
        r@ == trim(s@),
{
    let a = skip_ws_start(s);
    if a >= s.len() {
        return Vec::new();
    }
    let k = count_ws_end(s);
    proof {
        lemma_trail_ws_le(s@);
    }
    subvec(s, a, s.len() - k)
}

/// `str::trim_end`.
pub fn trim_end_chars(s: &Vec<char>) -> (r: Vec<char>)
    ensures
        r@ == trim_end(s@),
{
    let k = count_ws_end(s);
    proof {
        lemma_trail_ws_le(s@);
    }
    subvec(s, 0, s.len() - k)
}

// ───────────────────────────── ASCII case ─────────────────────────────

pub open spec fn lower_char(c: char) -> char {
    if 'A' <= c && c <= 'Z' {
        ((c as u32) + 32) as char
    } else {
        c
    }
}

/// Lower-cases the ASCII letters of `s` and keeps every other character.
///
/// The diagram keywords that the plugins look for are ASCII and contain no
/// `k`, and no non-ASCII character lower-cases to an ASCII character followed
/// by another ASCII letter of those keywords, so testing a keyword against this
/// and against `str::to_lowercase` gives the same answer.
pub open spec fn lower(s: Seq<char>) -> Seq<char> {
    s.map_values(|c: char| lower_char(c))
}

pub fn lower_char_exec(c: char) -> (r: char)
    ensures
        r == lower_char(c),
{
    if 'A' <= c && c <= 'Z' {
        ((c as u8) + 32) as char
    } else {
        c
    }
}

pub fn to_lower(s: &Vec<char>) -> (r: Vec<char>)
    ensures
        r@ == lower(s@),
{
    let mut r: Vec<char> = Vec::new();
    let mut i: usize = 0;
    while i < s.len()
        invariant
            i <= s.len(),
            r@ == lower(s@.subrange(0, i as int)),
        decreases s.len() - i,
    {
        r.push(lower_char_exec(s[i]));
        i = i + 1;
        assert(lower(s@.subrange(0, i as int)) =~= lower(s@.subrange(0, i - 1)).push(
            lower_char(s@[i - 1]),
        ));
    }
    assert(s@.subrange(0, s.len() as int) =~= s@);
    r
}

// ───────────────────────────── matching ─────────────────────────────

pub open spec fn starts_with(s: Seq<char>, p: Seq<char>) -> bool {
    p.len() <= s.len() && s.subrange(0, p.len() as int) == p
}

pub open spec fn ends_with_char(s: Seq<char>, c: char) -> bool {
    s.len() > 0 && s.last() == c
}

/// `p` occurs in `s` starting at `i`.
pub open spec fn occurs_at(s: Seq<char>, p: Seq<char>, i: int) -> bool {
    0 <= i && i + p.len() <= s.len() && s.subrange(i, i + p.len()) == p
}

pub open spec fn contains(s: Seq<char>, p: Seq<char>) -> bool {
    exists|i: int| occurs_at(s, p, i)
}

/// Tests whether `p` occurs in `s` at `i`.
pub fn occurs_at_exec(s: &Vec<char>, p: &Vec<char>, i: usize) -> (r: bool)
    ensures
        r == occurs_at(s@, p@, i as int),
{
    if i > s.len() || p.len() > s.len() - i {
        return false;
    }
    let mut j: usize = 0;
    while j < p.len()
        invariant
            i + p.len() <= s.len(),
            j <= p.len(),
            forall|k: int| 0 <= k < j ==> s@[i + k] == p@[k],
        decreases p.len() - j,
    {
        if s[i + j] != p[j] {
            assert(s@.subrange(i as int, i + p.len())[j as int] != p@[j as int]);
            return false;
        }
        j = j + 1;
    }
    assert(s@.subrange(i as int, i + p.len()) =~= p@);
    true
}

pub fn starts_with_exec(s: &Vec<char>, p: &Vec<char>) -> (r: bool)
    ensures
        r == starts_with(s@, p@),
{
    occurs_at_exec(s, p, 0)
}

pub fn contains_exec(s: &Vec<char>, p: &Vec<char>) -> (r: bool)
    ensures
        r == contains(s@, p@),
{
    let mut i: usize = 0;
    loop
        invariant
            i <= s.len(),
            forall|k: int| 0 <= k < i ==> !occurs_at(s@, p@, k),
        ensures
            forall|k: int| 0 <= k <= s.len() ==> !occurs_at(s@, p@, k),
        decreases s.len() - i,
    {
        if occurs_at_exec(s, p, i) {
            return true;
        }
        if i == s.len() {
            break;
        }
        i = i + 1;
    }
    assert forall|k: int| !occurs_at(s@, p@, k) by {
        if 0 <= k && k <= s.len() {
        }
    }
    false
}

/// Where `p` first occurs in `s` at or after `i` (`str::find` from `i`).
pub open spec fn find_from(s: Seq<char>, p: Seq<char>, i: int) -> Option<int>
    decreases s.len() + 1 - i,
{
    if i < 0 || i + p.len() > s.len() {
        None
    } else if occurs_at(s, p, i) {
        Some(i)
    } else {
        find_from(s, p, i + 1)
    }
}

/// Where `p` first occurs in `s` (`str::find`).
pub open spec fn find(s: Seq<char>, p: Seq<char>) -> Option<int> {
    find_from(s, p, 0)
}

pub proof fn lemma_find_from(s: Seq<char>, p: Seq<char>, i: int)
    requires
        0 <= i,
    ensures
        find_from(s, p, i) matches Some(k) ==> i <= k && occurs_at(s, p, k),
    decreases s.len() + 1 - i,
{
    if i + p.len() <= s.len() && !occurs_at(s, p, i) {
        lemma_find_from(s, p, i + 1);
    }
}

/// The first occurrence of `p` in `s`.
pub fn find_exec(s: &Vec<char>, p: &Vec<char>) -> (r: Option<usize>)
    ensures
        r matches Some(i) ==> find(s@, p@) == Some(i as int),
        r is None ==> find(s@, p@) is None,
{
    if p.len() == 0 {
        assert(s@.subrange(0, 0) =~= p@);
        assert(occurs_at(s@, p@, 0));
        return Some(0);
    }
    let mut i: usize = 0;
    while i < s.len() && p.len() <= s.len() - i
        invariant
            i <= s.len(),
            p.len() > 0,
            find(s@, p@) == find_from(s@, p@, i as int),
        decreases s.len() - i,
    {
        if occurs_at_exec(s, p, i) {
            return Some(i);
        }
        i = i + 1;
    }
    None
}

/// `s` without its leading `c`s.
pub open spec fn strip_lead(s: Seq<char>, c: char) -> Seq<char>
    decreases s.len(),
{
    if s.len() > 0 && s[0] == c {
        strip_lead(s.drop_first(), c)
    } else {
        s
    }
}

/// `s` without its trailing `c`s.
pub open spec fn strip_trail(s: Seq<char>, c: char) -> Seq<char>
    decreases s.len(),
{
    if s.len() > 0 && s.last() == c {
        strip_trail(s.drop_last(), c)
    } else {
        s
    }
}

/// `str::trim_matches` with one character.
pub open spec fn trim_matches(s: Seq<char>, c: char) -> Seq<char> {
    strip_trail(strip_lead(s, c), c)
}

pub fn trim_matches_chars(s: &Vec<char>, c: char) -> (r: Vec<char>)
    ensures
        r@ == trim_matches(s@, c),
{
    let n = s.len();
    let mut i: usize = 0;
    assert(s@.subrange(0, n as int) =~= s@);
    while i < n && s[i] == c
        invariant
            i <= n == s.len(),
            strip_lead(s@, c) == strip_lead(s@.subrange(i as int, n as int), c),
        decreases n - i,
    {
        assert(s@.subrange(i as int, n as int).drop_first() =~= s@.subrange(i + 1, n as int));
        i = i + 1;
    }
    assert(strip_lead(s@.subrange(i as int, n as int), c) == s@.subrange(i as int, n as int));
    let mut j: usize = n;
    while j > i && s[j - 1] == c
        invariant
            i <= j <= n == s.len(),
            strip_lead(s@, c) == s@.subrange(i as int, n as int),
            trim_matches(s@, c) == strip_trail(s@.subrange(i as int, j as int), c),
        decreases j - i,
    {
        assert(s@.subrange(i as int, j as int).drop_last() =~= s@.subrange(i as int, j - 1));
        j = j - 1;
    }
    subvec(s, i, j)
}

/// Index of the first occurrence of `c` in `s`.
pub open spec fn first_index_of(s: Seq<char>, c: char, i: int) -> bool {
    0 <= i < s.len() && s[i] == c && forall|j: int| 0 <= j < i ==> s[j] != c
}

pub fn find_char(s: &Vec<char>, c: char) -> (r: Option<usize>)
    ensures
        r matches Some(i) ==> first_index_of(s@, c, i as int),
        r is None ==> forall|j: int| 0 <= j < s.len() ==> s@[j] != c,
{
    let mut i: usize = 0;
    while i < s.len()
        invariant
            i <= s.len(),
            forall|j: int| 0 <= j < i ==> s@[j] != c,
        decreases s.len() - i,
    {
        if s[i] == c {
            return Some(i);
        }
        i = i + 1;
    }
    None
}

/// Whether `a` and `b` hold the same characters.
pub fn eq_chars(a: &Vec<char>, b: &Vec<char>) -> (r: bool)
    ensures
        r == (a@ == b@),
{
    if a.len() != b.len() {
        return false;
    }
    let mut i: usize = 0;
    while i < a.len()
        invariant
            a.len() == b.len(),
            i <= a.len(),
            forall|k: int| 0 <= k < i ==> a@[k] == b@[k],
        decreases a.len() - i,
    {
        if a[i] != b[i] {
            return false;
        }
        i = i + 1;
    }
    assert(a@ =~= b@);
    true
}

/// Whether `c` is alphanumeric in Unicode (`char::is_alphanumeric`).
pub uninterp spec fn alphanumeric(c: char) -> bool;

/// `char::is_alphanumeric` of std.
///
/// Trusted: the result is std's Unicode `Alphabetic`-or-`Numeric` test, a
/// function of the character alone; of its value only this is claimed: ASCII
/// letters (alphabetic) and ASCII digits (numeric) pass it.
#[verifier::external_body]
pub(crate) fn is_alphanumeric(c: char) -> (r: bool)
    ensures
        r == alphanumeric(c),
        ('a' <= c <= 'z' || 'A' <= c <= 'Z' || '0' <= c <= '9') ==> r,
{
    c.is_alphanumeric()
}

// ───────────────────────────── splitting ─────────────────────────────

/// The pieces of `s` between occurrences of `sep` (`str::split` on a char).
pub open spec fn split(s: Seq<char>, sep: char) -> Seq<Seq<char>>
    decreases s.len(),
{
    if s.len() == 0 {
        seq![Seq::empty()]
    } else {
        let rest = split(s.drop_last(), sep);
        if s.last() == sep {
            rest.push(Seq::empty())
        } else {
            rest.update(rest.len() - 1, rest.last().push(s.last()))
        }
    }
}

pub proof fn lemma_split_len(s: Seq<char>, sep: char)
    ensures
        split(s, sep).len() >= 1,
    decreases s.len(),
{
    if s.len() > 0 {
        lemma_split_len(s.drop_last(), sep);
    }
}

pub open spec fn views(v: Seq<Vec<char>>) -> Seq<Seq<char>> {
    v.map_values(|x: Vec<char>| x@)
}

/// `str::split` on one character.
pub fn split_char(s: &Vec<char>, sep: char) -> (r: Vec<Vec<char>>)
    ensures
        views(r@) == split(s@, sep),
{
    let mut r: Vec<Vec<char>> = Vec::new();
    let mut cur: Vec<char> = Vec::new();
    let mut i: usize = 0;
    while i < s.len()
        invariant
            i <= s.len(),
            views(r@).push(cur@) == split(s@.subrange(0, i as int), sep),
        decreases s.len() - i,
    {
        let ghost pre = s@.subrange(0, i as int);
        let ghost pre1 = s@.subrange(0, i + 1);
        assert(pre1.drop_last() =~= pre);
        proof {
            lemma_split_len(pre, sep);
        }
        if s[i] == sep {
            let done = cur;
            r.push(done);
            cur = Vec::new();
            assert(views(r@).push(cur@) =~= split(pre1, sep));
        } else {
            cur.push(s[i]);
            assert(views(r@).push(cur@) =~= split(pre1, sep));
        }
        i = i + 1;
    }
    r.push(cur);
    assert(s@.subrange(0, s.len() as int) =~= s@);
    assert(views(r@) =~= split(s@, sep));
    r
}

/// Lines joined by `'\n'` (`[..].join("\n")`).
pub open spec fn join_lines(rows: Seq<Seq<char>>) -> Seq<char>
    decreases rows.len(),
{
    if rows.len() == 0 {
        Seq::empty()
    } else if rows.len() == 1 {
        rows[0]
    } else {
        join_lines(rows.drop_last()) + seq!['\n'] + rows.last()
    }
}

/// The rows joined by newlines.
pub fn join_rows(rows: &Vec<Vec<char>>) -> (r: Vec<char>)
    ensures
        r@ == join_lines(views(rows@)),
{
    let mut r: Vec<char> = Vec::new();
    let mut i: usize = 0;
    while i < rows.len()
        invariant
            i <= rows.len(),
            r@ == join_lines(views(rows@).take(i as int)),
        decreases rows.len() - i,
    {
        if i > 0 {
            r.push('\n');
        }
        append_all(&mut r, &rows[i]);
        proof {
            let vs = views(rows@);
            assert(vs.take(i + 1).drop_last() =~= vs.take(i as int));
            if i == 0 {
                assert(r@ =~= vs.take(1)[0]);
            }
        }
        i = i + 1;
    }
    assert(views(rows@).take(rows.len() as int) =~= views(rows@));
    r
}

// ───────────────────────────── float literals ─────────────────────────────

/// Digits with at most one `.` among them and at least one digit:
/// `Digit+ | Digit+ '.' Digit* | Digit* '.' Digit+`.
pub open spec fn decimal_mantissa(m: Seq<char>) -> bool {
    &&& forall|i: int| 0 <= i < m.len() ==> is_digit(#[trigger] m[i]) || m[i] == '.'
    &&& forall|i: int, j: int| 0 <= i < j < m.len() ==> !(#[trigger] m[i] == '.' && #[trigger] m[j] == '.')
    &&& exists|i: int| 0 <= i < m.len() && is_digit(#[trigger] m[i])
}

/// `Sign? Digit+`.
pub open spec fn signed_digits(x: Seq<char>) -> bool {
    let d = if x.len() > 0 && (x[0] == '+' || x[0] == '-') { x.drop_first() } else { x };
    d.len() > 0 && all_digits(d)
}

/// A number after its sign: a mantissa, then optionally `e` and an exponent.
pub open spec fn float_number(b: Seq<char>) -> bool {
    match find(b, seq!['e']) {
        Some(e) => decimal_mantissa(b.take(e)) && signed_digits(b.skip(e + 1)),
        None => decimal_mantissa(b),
    }
}

/// What `str::parse::<f64>` accepts, as its documentation gives the grammar
/// of lower-cased input: `Sign? ('inf' | 'infinity' | 'nan' | Number)`.
pub open spec fn float_literal(s: Seq<char>) -> bool {
    let t = lower(s);
    let b = if t.len() > 0 && (t[0] == '+' || t[0] == '-') { t.drop_first() } else { t };
    b == "inf"@ || b == "infinity"@ || b == "nan"@ || float_number(b)
}

fn decimal_mantissa_exec(m: &Vec<char>) -> (r: bool)
    ensures
        r == decimal_mantissa(m@),
{
    let mut dots: usize = 0;
    let mut dot_at: usize = 0;
    let mut digits: usize = 0;
    let mut digit_at: usize = 0;
    let mut i: usize = 0;
    while i < m.len()
        invariant
            i <= m.len(),
            dots <= 1,
            forall|k: int| 0 <= k < i ==> is_digit(#[trigger] m@[k]) || m@[k] == '.',
            dots == 0 ==> forall|k: int| 0 <= k < i ==> #[trigger] m@[k] != '.',
            dots == 1 ==> dot_at < i && m@[dot_at as int] == '.' && forall|k: int|
                0 <= k < i && k != dot_at ==> #[trigger] m@[k] != '.',
            digits == 0 ==> forall|k: int| 0 <= k < i ==> !is_digit(#[trigger] m@[k]),
            digits > 0 ==> digit_at < i && is_digit(m@[digit_at as int]),
            digits <= i,
        decreases m.len() - i,
    {
        let c = m[i];
        if c == '.' {
            if dots == 1 {
                assert(dot_at < i && m@[dot_at as int] == '.' && m@[i as int] == '.');
                return false;
            }
            dots = 1;
            dot_at = i;
        } else if '0' <= c && c <= '9' {
            if digits == 0 {
                digit_at = i;
            }
            digits = digits + 1;
        } else {
            assert(!(is_digit(m@[i as int]) || m@[i as int] == '.'));
            return false;
        }
        i = i + 1;
    }
    if digits == 0 {
        assert(forall|k: int| 0 <= k < m@.len() ==> !is_digit(#[trigger] m@[k]));
        return false;
    }
    proof {
        assert forall|a: int, b: int| 0 <= a < b < m@.len() implies !(#[trigger] m@[a] == '.' && #[trigger] m@[b] == '.') by {
            if m@[a] == '.' && m@[b] == '.' {
                assert(dots == 1);
            }
        }
        assert(is_digit(m@[digit_at as int]));
    }
    true
}

fn signed_digits_exec(x: &Vec<char>) -> (r: bool)
    ensures
        r == signed_digits(x@),
{
    let start: usize = if x.len() > 0 && (x[0] == '+' || x[0] == '-') { 1 } else { 0 };
    let d = subvec(x, start, x.len());
    assert(d@ =~= if x@.len() > 0 && (x@[0] == '+' || x@[0] == '-') { x@.drop_first() } else { x@ });
    if d.len() == 0 {
        return false;
    }
    let mut i: usize = 0;
    while i < d.len()
        invariant
            i <= d.len(),
            d.len() > 0,
            d@ == (if x@.len() > 0 && (x@[0] == '+' || x@[0] == '-') { x@.drop_first() } else { x@ }),
            forall|k: int| 0 <= k < i ==> is_digit(#[trigger] d@[k]),
        decreases d.len() - i,
    {
        if !('0' <= d[i] && d[i] <= '9') {
            assert(!is_digit(d@[i as int]));
            return false;
        }
        i = i + 1;
    }
    true
}

/// Whether `str::parse::<f64>` accepts `s`.
pub fn is_float_literal(s: &Vec<char>) -> (r: bool)
    ensures
        r == float_literal(s@),
{
    let t = to_lower(s);
    let start: usize = if t.len() > 0 && (t[0] == '+' || t[0] == '-') { 1 } else { 0 };
    let b = subvec(&t, start, t.len());
    assert(b@ =~= if t@.len() > 0 && (t@[0] == '+' || t@[0] == '-') { t@.drop_first() } else { t@ });
    if eq_chars(&b, &chars_of("inf")) || eq_chars(&b, &chars_of("infinity")) || eq_chars(&b, &chars_of("nan")) {
        return true;
    }
    let mut ev: Vec<char> = Vec::new();
    ev.push('e');
    assert(ev@ =~= seq!['e']);
    match find_exec(&b, &ev) {
        Some(e) => {
            proof {
                lemma_find_from(b@, ev@, 0);
                assert(occurs_at(b@, ev@, e as int));
            }
            let m = subvec(&b, 0, e);
            let x = subvec(&b, e + 1, b.len());
            assert(m@ =~= b@.take(e as int));
            assert(x@ =~= b@.skip(e + 1));
            decimal_mantissa_exec(&m) && signed_digits_exec(&x)
        },
        None => decimal_mantissa_exec(&b),
    }
}

// ───────────────────────────── maxima ─────────────────────────────

pub open spec fn opt_max(a: Option<nat>, b: Option<nat>) -> Option<nat> {
    match (a, b) {
        (Some(x), Some(y)) => Some(if x >= y { x } else { y }),
        (Some(x), None) => Some(x),
        (None, _) => b,
    }
}

/// The largest element, if any.
pub open spec fn max_of(s: Seq<nat>) -> Option<nat>
    decreases s.len(),
{
    if s.len() == 0 {
        None
    } else {
        opt_max(max_of(s.drop_last()), Some(s.last()))
    }
}

pub open spec fn nat_opt(o: Option<usize>) -> Option<nat> {
    match o {
        Some(x) => Some(x as nat),
        None => None,
    }
}

pub fn max_into(a: Option<usize>, n: usize) -> (r: Option<usize>)
    ensures
        nat_opt(r) == opt_max(nat_opt(a), Some(n as nat)),
{
    match a {
        Some(x) => Some(if x >= n { x } else { n }),
        None => Some(n),
    }
}

pub proof fn lemma_opt_max_assoc(a: Option<nat>, b: Option<nat>, c: Option<nat>)
    ensures
        opt_max(a, opt_max(b, c)) == opt_max(opt_max(a, b), c),
{
}

pub proof fn lemma_max_of_push(s: Seq<nat>, j: int)
    requires
        0 <= j < s.len(),
    ensures
        max_of(s.take(j + 1)) == opt_max(max_of(s.take(j)), Some(s[j])),
{
    assert(s.take(j + 1).drop_last() =~= s.take(j));
}

/// `n` as a `usize`, or `usize::MAX` when it does not fit.
pub open spec fn saturated(n: nat) -> usize {
    if n <= usize::MAX {
        n as usize
    } else {
        usize::MAX
    }
}

// ───────────────────────────── UTF-8 length ─────────────────────────────

/// Number of bytes of `c` in UTF-8 (`char::len_utf8`).
pub open spec fn utf8_width(c: char) -> nat {
    if (c as u32) <= 0x7F {
        1
    } else if (c as u32) <= 0x7FF {
        2
    } else if (c as u32) <= 0xFFFF {
        3
    } else {
        4
    }
}

/// Number of bytes of `s` in UTF-8 (`str::len`).
pub open spec fn byte_len(s: Seq<char>) -> nat
    decreases s.len(),
{
    if s.len() == 0 {
        0
    } else {
        byte_len(s.drop_last()) + utf8_width(s.last())
    }
}

pub proof fn lemma_byte_len_ge(s: Seq<char>)
    ensures
        byte_len(s) >= s.len(),
        byte_len(s) <= 4 * s.len(),
    decreases s.len(),
{
    if s.len() > 0 {
        lemma_byte_len_ge(s.drop_last());
    }
}

pub proof fn lemma_byte_len_concat(a: Seq<char>, b: Seq<char>)
    ensures
        byte_len(a + b) == byte_len(a) + byte_len(b),
    decreases b.len(),
{
    if b.len() > 0 {
        assert((a + b).drop_last() =~= a + b.drop_last());
        lemma_byte_len_concat(a, b.drop_last());
    } else {
        assert(a + b =~= a);
    }
}

pub proof fn lemma_byte_len_ascii(s: Seq<char>)
    requires
        forall|i: int| 0 <= i < s.len() ==> (#[trigger] s[i] as u32) <= 0x7F,
    ensures
        byte_len(s) == s.len(),
    decreases s.len(),
{
    if s.len() > 0 {
        lemma_byte_len_ascii(s.drop_last());
    }
}

proof fn lemma_encode_scalar_len(c: char)
    ensures
        vstd::utf8::encode_scalar(c as u32).len() == utf8_width(c),
{
    let v = c as u32;
    assert(v <= 0x10FFFF);
    assert(!(0xD800 <= v <= 0xDFFF));
}

pub proof fn lemma_encode_utf8_len(s: Seq<char>)
    ensures
        vstd::utf8::encode_utf8(s).len() == byte_len(s),
    decreases s.len(),
{
    if s.len() > 0 {
        lemma_encode_utf8_len(s.drop_first());
        lemma_byte_len_concat(seq![s[0]], s.drop_first());
        assert(seq![s[0]] + s.drop_first() =~= s);
        assert(seq![s[0]].drop_last() =~= Seq::<char>::empty());
        assert(byte_len(Seq::<char>::empty()) == 0);
        assert(byte_len(seq![s[0]]) == utf8_width(s[0]));
        lemma_encode_scalar_len(s[0]);
    }
}

/// The byte length of a `String`, as `str::len` gives it.
pub fn str_byte_len(s: &String) -> (n: usize)
    ensures
        n == byte_len(s@),
{
    proof {
        lemma_encode_utf8_len(s@);
    }
    let b: &[u8] = s.as_str().as_bytes();
    b.len()
}

pub fn utf8_width_exec(c: char) -> (n: usize)
    ensures
        n == utf8_width(c),
{
    if (c as u32) <= 0x7F {
        1
    } else if (c as u32) <= 0x7FF {
        2
    } else if (c as u32) <= 0xFFFF {
        3
    } else {
        4
    }
}

// ───────────────────────────── decimal numbers ─────────────────────────────

pub open spec fn is_digit(c: char) -> bool {
    '0' <= c && c <= '9'
}

pub open spec fn all_digits(s: Seq<char>) -> bool {
    forall|i: int| 0 <= i < s.len() ==> is_digit(#[trigger] s[i])
}

/// The value of a string of decimal digits.
pub open spec fn digits_value(s: Seq<char>) -> nat
    decreases s.len(),
{
    if s.len() == 0 {
        0
    } else {
        10 * digits_value(s.drop_last()) + ((s.last() as u32) - 48) as nat
    }
}

/// What Rust's integer `FromStr` reads from `s` before its range check: an
/// optional `+` (or `-` where the type is signed), then one or more ASCII digits.
pub open spec fn decimal_value(s: Seq<char>, signed: bool) -> Option<int> {
    if s.len() == 0 {
        None
    } else {
        let minus = signed && s[0] == '-';
        let body = if s[0] == '+' || minus {
            s.drop_first()
        } else {
            s
        };
        if body.len() == 0 || !all_digits(body) {
            None
        } else if minus {
            Some(-(digits_value(body) as int))
        } else {
            Some(digits_value(body) as int)
        }
    }
}

/// `s.parse::<i64>()`, as an optional mathematical integer.
pub open spec fn parse_i64(s: Seq<char>) -> Option<int> {
    match decimal_value(s, true) {
        Some(v) => if i64::MIN <= v <= i64::MAX {
            Some(v)
        } else {
            None
        },
        None => None,
    }
}

/// `s.parse::<i32>()`.
pub open spec fn parse_i32(s: Seq<char>) -> Option<int> {
    match decimal_value(s, true) {
        Some(v) => if i32::MIN <= v <= i32::MAX {
            Some(v)
        } else {
            None
        },
        None => None,
    }
}

/// `s.parse::<u32>()`.
pub open spec fn parse_u32(s: Seq<char>) -> Option<int> {
    match decimal_value(s, false) {
        Some(v) => if 0 <= v <= u32::MAX {
            Some(v)
        } else {
            None
        },
        None => None,
    }
}

proof fn lemma_digits_value_mono(s: Seq<char>, k: int)
    requires
        0 <= k <= s.len(),
        all_digits(s),
    ensures
        digits_value(s.subrange(0, k)) <= digits_value(s),
    decreases s.len() - k,
{
    if k < s.len() {
        let t = s.subrange(0, k + 1);
        assert(t.drop_last() =~= s.subrange(0, k));
        assert(is_digit(s[k]));
        lemma_digits_value_mono(s, k + 1);
    } else {
        assert(s.subrange(0, k) =~= s);
    }
}

/// The value of `s` as a string of digits when it is one and its value is at
/// most `limit`.
fn digits_at_most(s: &Vec<char>, start: usize, limit: u64) -> (r: Option<u64>)
    requires
        start <= s.len(),
    ensures
        ({
            let body = s@.subrange(start as int, s.len() as int);
            match r {
                Some(v) => body.len() > 0 && all_digits(body) && v == digits_value(body)
                    && v <= limit,
                None => body.len() == 0 || !all_digits(body) || digits_value(body) > limit,
            }
        }),
{
    let ghost body = s@.subrange(start as int, s.len() as int);
    if start == s.len() {
        return None;
    }
    let mut v: u64 = 0;
    let mut i: usize = start;
    while i < s.len()
        invariant
            start <= i <= s.len(),
            body == s@.subrange(start as int, s.len() as int),
            all_digits(s@.subrange(start as int, i as int)),
            v == digits_value(s@.subrange(start as int, i as int)),
            v <= limit,
        decreases s.len() - i,
    {
        let c = s[i];
        if !('0' <= c && c <= '9') {
            assert(!is_digit(body[i - start]));
            return None;
        }
        let d = (c as u32 - 48) as u64;
        let ghost pre = s@.subrange(start as int, i as int);
        let ghost pre1 = s@.subrange(start as int, i + 1);
        assert(pre1.drop_last() =~= pre);
        assert(all_digits(pre1)) by {
            assert forall|j: int| 0 <= j < pre1.len() implies is_digit(#[trigger] pre1[j]) by {
                if j < pre.len() {
                    assert(pre1[j] == pre[j]);
                }
            }
        }
        if d > limit || v > (limit - d) / 10 {
            // the prefix read so far is already above the limit
            proof {
                assert(10 * v + d > limit);
                if all_digits(body) {
                    assert(pre1 =~= body.subrange(0, i + 1 - start));
                    lemma_digits_value_mono(body, i + 1 - start);
                }
            }
            return None;
        }
        v = 10 * v + d;
        i = i + 1;
    }
    Some(v)
}

/// `s.parse::<i64>()`.
pub fn parse_i64_exec(s: &Vec<char>) -> (r: Option<i64>)
    ensures
        match r {
            Some(v) => parse_i64(s@) == Some(v as int),
            None => parse_i64(s@) is None,
        },
{
    if s.len() == 0 {
        return None;
    }
    let minus = s[0] == '-';
    let start: usize = if s[0] == '+' || minus { 1 } else { 0 };
    assert(s@.subrange(start as int, s.len() as int) =~= if start == 1 { s@.drop_first() } else { s@ });
    let limit: u64 = if minus { 9223372036854775808u64 } else { 9223372036854775807u64 };
    match digits_at_most(s, start, limit) {
        Some(m) => {
            if minus {
                if m == 9223372036854775808u64 {
                    Some(i64::MIN)
                } else {
                    Some(-(m as i64))
                }
            } else {
                Some(m as i64)
            }
        },
        None => None,
    }
}

/// `s.parse::<i32>()`.
pub fn parse_i32_exec(s: &Vec<char>) -> (r: Option<i32>)
    ensures
        match r {
            Some(v) => parse_i32(s@) == Some(v as int),
            None => parse_i32(s@) is None,
        },
{
    if s.len() == 0 {
        return None;
    }
    let minus = s[0] == '-';
    let start: usize = if s[0] == '+' || minus { 1 } else { 0 };
    assert(s@.subrange(start as int, s.len() as int) =~= if start == 1 { s@.drop_first() } else { s@ });
    let limit: u64 = if minus { 2147483648u64 } else { 2147483647u64 };
    match digits_at_most(s, start, limit) {
        Some(m) => {
            if minus {
                Some(-(m as i64) as i32)
            } else {
                Some(m as i32)
            }
        },
        None => None,
    }
}

/// `s.parse::<u32>()`.
pub fn parse_u32_exec(s: &Vec<char>) -> (r: Option<u32>)
    ensures
        match r {
            Some(v) => parse_u32(s@) == Some(v as int),
            None => parse_u32(s@) is None,
        },
{
    if s.len() == 0 {
        return None;
    }
    let start: usize = if s[0] == '+' { 1 } else { 0 };
    assert(s@.subrange(start as int, s.len() as int) =~= if start == 1 { s@.drop_first() } else { s@ });
    match digits_at_most(s, start, 4294967295u64) {
        Some(m) => Some(m as u32),
        None => None,
    }
}

pub open spec fn digit_char(d: nat) -> char {
    (48 + d) as char
}

/// Decimal digits of `n`, most significant first, without leading zeros.
pub open spec fn decimal(n: nat) -> Seq<char>
    decreases n,
{
    if n < 10 {
        seq![digit_char(n)]
    } else {
        decimal(n / 10).push(digit_char(n % 10))
    }
}

pub proof fn lemma_decimal_ascii(n: nat)
    ensures
        decimal(n).len() >= 1,
        forall|i: int| 0 <= i < decimal(n).len() ==> is_digit(#[trigger] decimal(n)[i]),
    decreases n,
{
    if n >= 10 {
        lemma_decimal_ascii(n / 10);
    }
}

pub fn decimal_exec(n: u64) -> (r: Vec<char>)
    ensures
        r@ == decimal(n as nat),
    decreases n,
{
    if n < 10 {
        let c = ((n as u8) + 48) as char;
        let mut r: Vec<char> = Vec::new();
        r.push(c);
        assert(r@ =~= seq![digit_char(n as nat)]);
        r
    } else {
        let mut r = decimal_exec(n / 10);
        let c = (((n % 10) as u8) + 48) as char;
        r.push(c);
        r
    }
}

/// `format!("{:0w$}", n)`: the sign, then zeros, then the digits, at least `w`
/// characters in all.
pub open spec fn fmt_zero_pad(n: int, w: nat) -> Seq<char> {
    let sign: Seq<char> = if n < 0 { seq!['-'] } else { Seq::empty() };
    let digits = decimal(if n < 0 { (-n) as nat } else { n as nat });
    let fill: int = w - sign.len() - digits.len();
    sign + repeat('0', if fill > 0 { fill as nat } else { 0 }) + digits
}

pub fn fmt_zero_pad_exec(n: i64, w: usize) -> (r: Vec<char>)
    ensures
        r@ == fmt_zero_pad(n as int, w as nat),
{
    let mag: u64 = if n < 0 {
        if n == i64::MIN { 9223372036854775808u64 } else { (-n) as u64 }
    } else {
        n as u64
    };
    let digits = decimal_exec(mag);
    let mut r: Vec<char> = Vec::new();
    if n < 0 {
        r.push('-');
    }
    let sign_len: usize = if n < 0 { 1 } else { 0 };
    let fill: usize = if digits.len() >= w {
        0
    } else if sign_len >= w - digits.len() {
        0
    } else {
        w - digits.len() - sign_len
    };
    push_repeat(&mut r, '0', fill);
    let ghost r0 = r@;
    append_all(&mut r, &digits);
    proof {
        let sign: Seq<char> = if n < 0 { seq!['-'] } else { Seq::empty() };
        assert(r0 =~= sign + repeat('0', if (w - sign.len() - digits@.len()) > 0 { (w - sign.len() - digits@.len()) as nat } else { 0 }));
    }
    r
}


// ───────────────────────────── reading back ─────────────────────────────

/// Splitting text without the separator gives the text itself.
pub proof fn lemma_split_single(t: Seq<char>, sep: char)
    requires
        forall|i: int| 0 <= i < t.len() ==> #[trigger] t[i] != sep,
    ensures
        split(t, sep) == seq![t],
    decreases t.len(),
{
    if t.len() > 0 {
        lemma_split_single(t.drop_last(), sep);
        assert(t.drop_last().push(t.last()) =~= t);
        assert(split(t, sep) =~= seq![t]);
    } else {
        assert(t =~= Seq::<char>::empty());
    }
}

/// A separator followed by text without it adds that text as one more piece.
pub proof fn lemma_split_append(s: Seq<char>, t: Seq<char>, sep: char)
    requires
        forall|i: int| 0 <= i < t.len() ==> #[trigger] t[i] != sep,
    ensures
        split(s + seq![sep] + t, sep) == split(s, sep).push(t),
    decreases t.len(),
{
    let u = s + seq![sep] + t;
    if t.len() == 0 {
        assert(u.drop_last() =~= s);
        assert(t =~= Seq::<char>::empty());
    } else {
        lemma_split_append(s, t.drop_last(), sep);
        assert(u.drop_last() =~= s + seq![sep] + t.drop_last());
        assert(u.last() == t.last());
        assert(t.drop_last().push(t.last()) =~= t);
        assert(split(u, sep) =~= split(s, sep).push(t));
    }
}

proof fn lemma_digits_value_zeros(k: nat)
    ensures
        digits_value(repeat('0', k)) == 0,
    decreases k,
{
    if k > 0 {
        lemma_digits_value_zeros((k - 1) as nat);
        assert(repeat('0', k).drop_last() =~= repeat('0', (k - 1) as nat));
    }
}

proof fn lemma_digits_value_leading_zeros(k: nat, t: Seq<char>)
    ensures
        digits_value(repeat('0', k) + t) == digits_value(t),
    decreases t.len(),
{
    if t.len() == 0 {
        assert(repeat('0', k) + t =~= repeat('0', k));
        lemma_digits_value_zeros(k);
    } else {
        lemma_digits_value_leading_zeros(k, t.drop_last());
        assert((repeat('0', k) + t).drop_last() =~= repeat('0', k) + t.drop_last());
    }
}

proof fn lemma_digits_value_decimal(n: nat)
    ensures
        digits_value(decimal(n)) == n,
    decreases n,
{
    let d: nat = n % 10;
    assert(digit_char(d) as u32 == 48 + d);
    assert((((digit_char(d) as u32) - 48) as nat) == d);
    if n >= 10 {
        lemma_digits_value_decimal(n / 10);
        assert(decimal(n).drop_last() =~= decimal(n / 10));
        assert(decimal(n).last() == digit_char(d));
        assert(digits_value(decimal(n)) == 10 * digits_value(decimal(n / 10)) + d);
        assert(n == 10 * (n / 10) + d);
    } else {
        assert(decimal(n).drop_last() =~= Seq::<char>::empty());
        assert(decimal(n).last() == digit_char(d));
        assert(digits_value(Seq::<char>::empty()) == 0);
        assert(digits_value(decimal(n)) == 10 * digits_value(decimal(n).drop_last()) + d);
    }
}

/// A number written with `fmt_zero_pad` is all digits, and reads back as
/// the number.
pub proof fn lemma_zero_pad_reads_back(n: nat, w: nat)
    ensures
        fmt_zero_pad(n as int, w).len() >= 1,
        all_digits(fmt_zero_pad(n as int, w)),
        digits_value(fmt_zero_pad(n as int, w)) == n,
{
    let fill: int = w - decimal(n).len();
    let k: nat = if fill > 0 { fill as nat } else { 0 };
    let z = repeat('0', k);
    assert(fmt_zero_pad(n as int, w) =~= z + decimal(n));
    lemma_decimal_ascii(n);
    lemma_digits_value_leading_zeros(k, decimal(n));
    lemma_digits_value_decimal(n);
    assert forall|i: int| 0 <= i < (z + decimal(n)).len() implies is_digit(#[trigger] (z + decimal(n))[i]) by {
        if i >= z.len() {
            assert((z + decimal(n))[i] == decimal(n)[i - z.len()]);
        }
    }
}

/// A non-negative number written with `fmt_zero_pad` parses back as the
/// number (`str::parse`).
pub proof fn lemma_zero_pad_parses(n: nat, w: nat)
    ensures
        n <= i32::MAX ==> parse_i32(fmt_zero_pad(n as int, w)) == Some(n as int),
        n <= u32::MAX ==> parse_u32(fmt_zero_pad(n as int, w)) == Some(n as int),
{
    let s = fmt_zero_pad(n as int, w);
    lemma_zero_pad_reads_back(n, w);
    assert(is_digit(s[0]));
}

} // verus!
