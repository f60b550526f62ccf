//! Character-level text operations: the model of a string is its sequence
//! of characters (`Seq<char>`), and every operation here is stated over it.
use vstd::prelude::*;

verus! {

// ---------------------------------------------------------------------------
// Specifications
// ---------------------------------------------------------------------------

/// Unicode `White_Space`, the set that `char::is_whitespace` and `str::trim` use.
pub open spec fn is_whitespace(c: char) -> bool {
    ||| '\u{9}' <= c <= '\u{d}'
    ||| c == ' '
    ||| c == '\u{85}'
    ||| c == '\u{a0}'
    ||| c == '\u{1680}'
    ||| '\u{2000}' <= c <= '\u{200a}'
    ||| c == '\u{2028}'
    ||| c == '\u{2029}'
    ||| c == '\u{202f}'
    ||| c == '\u{205f}'
    ||| c == '\u{3000}'
}

/// A carriage return or a line feed.
pub open spec fn is_line_break(c: char) -> bool {
    c == '\r' || c == '\n'
}

/// Which characters a trim removes.
#[derive(Clone, Copy, Debug, PartialEq, Eq, Structural)]
pub enum TrimClass {
    Whitespace,
    LineBreak,
}

pub open spec fn in_class(k: TrimClass, c: char) -> bool {
    match k {
        TrimClass::Whitespace => is_whitespace(c),
        TrimClass::LineBreak => is_line_break(c),
    }
}

/// `s` without its leading characters of class `k`.
pub open spec fn strip_start(s: Seq<char>, k: TrimClass) -> Seq<char>
    decreases s.len(),
{
    if s.len() > 0 && in_class(k, s[0]) {
        strip_start(s.drop_first(), k)
    } else {
        s
    }
}

/// `s` without its trailing characters of class `k`.
pub open spec fn strip_end(s: Seq<char>, k: TrimClass) -> Seq<char>
    decreases s.len(),
{
    if s.len() > 0 && in_class(k, s.last()) {
        strip_end(s.drop_last(), k)
    } else {
        s
    }
}

/// `s` without leading and trailing characters of class `k`.
pub open spec fn strip_both(s: Seq<char>, k: TrimClass) -> Seq<char> {
    strip_end(strip_start(s, k), k)
}

/// What `str::trim` gives back.
pub open spec fn trim(s: Seq<char>) -> Seq<char> {
    strip_both(s, TrimClass::Whitespace)
}

/// `s` with every occurrence of `c` replaced by `rep`.
pub open spec fn replace_char(s: Seq<char>, c: char, rep: Seq<char>) -> Seq<char>
    decreases s.len(),
{
    if s.len() == 0 {
        Seq::empty()
    } else {
        replace_char(s.drop_last(), c, rep) + (if s.last() == c {
            rep
        } else {
            seq![s.last()]
        })
    }
}

/// The first index `j >= i` with `s[j] == c`, or `s.len()` when there is none.
pub open spec fn first_index_of(s: Seq<char>, c: char, i: int) -> int
    decreases s.len() - i,
{
    if i < 0 || i >= s.len() {
        s.len() as int
    } else if s[i] == c {
        i
    } else {
        first_index_of(s, c, i + 1)
    }
}

/// `pat` occurs in `s` at index `i`.
pub open spec fn occurs_at(s: Seq<char>, pat: Seq<char>, i: int) -> bool {
    0 <= i && i + pat.len() <= s.len() && s.subrange(i, i + pat.len()) == pat
}

/// The first index `j >= i` where `pat` occurs in `s` (what `str::find` gives
/// on the text that starts at `i`, counted from the start of `s`).
pub open spec fn find_from(s: Seq<char>, pat: Seq<char>, i: int) -> Option<int>
    decreases s.len() + 1 - i,
{
    if i < 0 || i + pat.len() > s.len() {
        None
    } else if occurs_at(s, pat, i) {
        Some(i)
    } else {
        find_from(s, pat, i + 1)
    }
}

/// ASCII upper case of one character; other characters are unchanged.
pub open spec fn upper_char(c: char) -> char {
    if 'a' <= c <= 'z' {
        ((c as u32) - 32) as char
    } else {
        c
    }
}

/// ASCII lower case of one character; other characters are unchanged.
pub open spec fn lower_char(c: char) -> char {
    if 'A' <= c <= 'Z' {
        ((c as u32) + 32) as char
    } else {
        c
    }
}

/// What `str::to_ascii_uppercase` gives back.
pub open spec fn ascii_upper(s: Seq<char>) -> Seq<char> {
    s.map_values(|c: char| upper_char(c))
}

/// What `str::to_ascii_lowercase` gives back.
pub open spec fn ascii_lower(s: Seq<char>) -> Seq<char> {
    s.map_values(|c: char| lower_char(c))
}

/// What `str::eq_ignore_ascii_case` decides.
pub open spec fn eq_ignore_ascii_case(a: Seq<char>, b: Seq<char>) -> bool {
    ascii_lower(a) == ascii_lower(b)
}

/// The index of the line feed that ends the line starting at `i`, or `s.len()`.
pub open spec fn line_end(s: Seq<char>, i: int) -> int {
    first_index_of(s, '\n', i)
}

/// The line that starts at `i`: up to its line feed, with one carriage
/// return before that line feed removed.
pub open spec fn line_at(s: Seq<char>, i: int) -> Seq<char> {
    let e = line_end(s, i);
    if e < s.len() && e > i && s[e - 1] == '\r' {
        s.subrange(i, e - 1)
    } else {
        s.subrange(i, e)
    }
}

/// The lines of `s` from index `i` on, as `str::lines` yields them.
pub open spec fn lines_from(s: Seq<char>, i: int) -> Seq<Seq<char>>
    decreases s.len() + 1 - i,
    via lines_from_decreases
{
    if i < 0 || i >= s.len() {
        Seq::empty()
    } else {
        seq![line_at(s, i)] + lines_from(s, line_end(s, i) + 1)
    }
}

#[via_fn]
proof fn lines_from_decreases(s: Seq<char>, i: int) {
    if 0 <= i < s.len() {
        lemma_first_index_of(s, '\n', i);
    }
}

/// What `str::lines` yields.
pub open spec fn lines(s: Seq<char>) -> Seq<Seq<char>> {
    lines_from(s, 0)
}

/// The pieces of `s` from index `i` on, between the occurrences of `sep`,
/// as `str::split` yields them for a single-character separator.
pub open spec fn split_from(s: Seq<char>, sep: char, i: int) -> Seq<Seq<char>>
    decreases s.len() + 1 - i,
    via split_from_decreases
{
    if i < 0 || i > s.len() {
        Seq::empty()
    } else {
        let e = first_index_of(s, sep, i);
        if e >= s.len() {
            seq![s.subrange(i, s.len() as int)]
        } else {
            seq![s.subrange(i, e)] + split_from(s, sep, e + 1)
        }
    }
}

#[via_fn]
proof fn split_from_decreases(s: Seq<char>, sep: char, i: int) {
    if 0 <= i <= s.len() {
        lemma_first_index_of(s, sep, i);
    }
}

/// What `str::split` yields for a single-character separator.
pub open spec fn split_char(s: Seq<char>, sep: char) -> Seq<Seq<char>> {
    split_from(s, sep, 0)
}

/// `s` with the pieces of `parts` joined by `sep`.
pub open spec fn join(parts: Seq<Seq<char>>, sep: Seq<char>) -> Seq<char>
    decreases parts.len(),
{
    if parts.len() == 0 {
        Seq::empty()
    } else if parts.len() == 1 {
        parts[0]
    } else {
        join(parts.drop_last(), sep) + sep + parts.last()
    }
}

// ---------------------------------------------------------------------------
// Lemmas
// ---------------------------------------------------------------------------

/// What `first_index_of` is: the least index at or after `i` holding `c`.
pub proof fn lemma_first_index_of(s: Seq<char>, c: char, i: int)
    requires
        0 <= i <= s.len(),
    ensures
        i <= first_index_of(s, c, i) <= s.len(),
        forall|k: int| i <= k < first_index_of(s, c, i) ==> s[k] != c,
        first_index_of(s, c, i) < s.len() ==> s[first_index_of(s, c, i)] == c,
    decreases s.len() - i,
{
    if i < s.len() && s[i] != c {
        lemma_first_index_of(s, c, i + 1);
    }
}

/// Any index with the property of `lemma_first_index_of` is `first_index_of`.
pub proof fn lemma_first_index_of_unique(s: Seq<char>, c: char, i: int, j: int)
    requires
        0 <= i <= j <= s.len(),
        forall|k: int| i <= k < j ==> s[k] != c,
        j < s.len() ==> s[j] == c,
    ensures
        first_index_of(s, c, i) == j,
    decreases j - i,
{
    if i < j {
        lemma_first_index_of_unique(s, c, i + 1, j);
    }
}

/// `first_index_of` on a piece of `s` is the index in `s`, shifted.
pub proof fn lemma_first_index_of_subrange(s: Seq<char>, c: char, a: int, b: int, j: int)
    requires
        0 <= a <= j <= b <= s.len(),
        forall|k: int| a <= k < j ==> s[k] != c,
        j < b ==> s[j] == c,
    ensures
        first_index_of(s.subrange(a, b), c, 0) == j - a,
{
    lemma_first_index_of_unique(s.subrange(a, b), c, 0, j - a);
}

/// `find_from` finds the least index at or after `i` where `pat` occurs.
pub proof fn lemma_find_from(s: Seq<char>, pat: Seq<char>, i: int)
    requires
        0 <= i,
    ensures
        find_from(s, pat, i) matches Some(j) ==> i <= j && occurs_at(s, pat, j) && forall|k: int|
            i <= k < j ==> !occurs_at(s, pat, k),
        find_from(s, pat, i) is None ==> forall|k: int| i <= k ==> !occurs_at(s, pat, k),
    decreases s.len() + 1 - i,
{
    if i + pat.len() <= s.len() && !occurs_at(s, pat, i) {
        lemma_find_from(s, pat, i + 1);
    }
}

/// Any first occurrence is what `find_from` gives.
pub proof fn lemma_find_from_unique(s: Seq<char>, pat: Seq<char>, i: int, j: int)
    requires
        0 <= i <= j,
        occurs_at(s, pat, j),
        forall|k: int| i <= k < j ==> !occurs_at(s, pat, k),
    ensures
        find_from(s, pat, i) == Some(j),
    decreases j - i,
{
    if i < j {
        lemma_find_from_unique(s, pat, i + 1, j);
    }
}

/// No occurrence at or after `i`: `find_from` gives nothing.
pub proof fn lemma_find_from_none(s: Seq<char>, pat: Seq<char>, i: int)
    requires
        0 <= i,
        forall|k: int| i <= k ==> !occurs_at(s, pat, k),
    ensures
        find_from(s, pat, i) is None,
    decreases s.len() + 1 - i,
{
    if i + pat.len() <= s.len() {
        lemma_find_from_none(s, pat, i + 1);
    }
}

/// What `strip_start` removes: the longest prefix of class `k`.
pub proof fn lemma_strip_start_index(s: Seq<char>, k: TrimClass, a: int)
    requires
        0 <= a <= s.len(),
        forall|j: int| 0 <= j < a ==> in_class(k, s[j]),
        a < s.len() ==> !in_class(k, s[a]),
    ensures
        strip_start(s, k) == s.subrange(a, s.len() as int),
    decreases a,
{
    if a > 0 {
        lemma_strip_start_index(s.drop_first(), k, a - 1);
        assert(s.drop_first().subrange(a - 1, s.len() - 1) =~= s.subrange(a, s.len() as int));
    } else {
        assert(s.subrange(0, s.len() as int) =~= s);
    }
}

/// What `strip_end` removes: the longest suffix of class `k`.
pub proof fn lemma_strip_end_index(s: Seq<char>, k: TrimClass, b: int)
    requires
        0 <= b <= s.len(),
        forall|j: int| b <= j < s.len() ==> in_class(k, s[j]),
        b > 0 ==> !in_class(k, s[b - 1]),
    ensures
        strip_end(s, k) == s.subrange(0, b),
    decreases s.len() - b,
{
    if b < s.len() {
        lemma_strip_end_index(s.drop_last(), k, b);
        assert(s.drop_last().subrange(0, b) =~= s.subrange(0, b));
    } else {
        assert(s.subrange(0, s.len() as int) =~= s);
    }
}

/// What `strip_start` leaves starts with a character outside the class.
pub proof fn lemma_strip_start_first(s: Seq<char>, k: TrimClass)
    ensures
        strip_start(s, k).len() > 0 ==> !in_class(k, strip_start(s, k)[0]),
        strip_start(s, k).len() <= s.len(),
    decreases s.len(),
{
    if s.len() > 0 && in_class(k, s[0]) {
        lemma_strip_start_first(s.drop_first(), k);
    }
}

/// What `strip_end` leaves is a prefix that ends with a character outside the class.
pub proof fn lemma_strip_end_prefix(s: Seq<char>, k: TrimClass)
    ensures
        strip_end(s, k) == s.subrange(0, strip_end(s, k).len() as int),
        strip_end(s, k).len() <= s.len(),
        strip_end(s, k).len() > 0 ==> !in_class(k, strip_end(s, k).last()),
    decreases s.len(),
{
    if s.len() > 0 && in_class(k, s.last()) {
        lemma_strip_end_prefix(s.drop_last(), k);
        assert(s.drop_last().subrange(0, strip_end(s, k).len() as int) =~= s.subrange(
            0,
            strip_end(s, k).len() as int,
        ));
    } else {
        assert(s.subrange(0, s.len() as int) =~= s);
    }
}

/// Both ends of what `strip_both` leaves lie outside the class.
pub proof fn lemma_strip_both_ends(s: Seq<char>, k: TrimClass)
    ensures
        strip_both(s, k).len() > 0 ==> !in_class(k, strip_both(s, k)[0]) && !in_class(
            k,
            strip_both(s, k).last(),
        ),
{
    lemma_strip_start_first(s, k);
    lemma_strip_end_prefix(strip_start(s, k), k);
    let t = strip_start(s, k);
    if strip_both(s, k).len() > 0 {
        assert(strip_both(s, k)[0] == t[0]);
    }
}

/// The lines from a later line start `j` are the tail of the lines from `i`.
pub proof fn lemma_lines_from_suffix(s: Seq<char>, i: int, j: int)
    requires
        0 <= i <= j <= s.len(),
        j == i || s[j - 1] == '\n',
    ensures
        exists|pre: Seq<Seq<char>>| lines_from(s, i) == pre + lines_from(s, j),
    decreases j - i,
{
    if j == i {
        assert(lines_from(s, i) == Seq::<Seq<char>>::empty() + lines_from(s, j));
    } else {
        lemma_first_index_of(s, '\n', i);
        let e = line_end(s, i);
        assert(e <= j - 1);
        let first = seq![line_at(s, i)];
        if e == j - 1 {
            assert(lines_from(s, i) == first + lines_from(s, j));
        } else {
            lemma_lines_from_suffix(s, e + 1, j);
            let pre = choose|pre: Seq<Seq<char>>| lines_from(s, e + 1) == pre + lines_from(s, j);
            assert(lines_from(s, i) == (first + pre) + lines_from(s, j));
        }
    }
}

/// The pieces from a later piece start `j` are the tail of the pieces from `i`.
pub proof fn lemma_split_from_suffix(s: Seq<char>, sep: char, i: int, j: int)
    requires
        0 <= i <= j <= s.len(),
        j == i || s[j - 1] == sep,
    ensures
        exists|pre: Seq<Seq<char>>| split_from(s, sep, i) == pre + split_from(s, sep, j),
    decreases j - i,
{
    if j == i {
        assert(split_from(s, sep, i) == Seq::<Seq<char>>::empty() + split_from(s, sep, j));
    } else {
        lemma_first_index_of(s, sep, i);
        let e = first_index_of(s, sep, i);
        assert(e <= j - 1);
        let first = seq![s.subrange(i, e)];
        if e == j - 1 {
            assert(split_from(s, sep, i) == first + split_from(s, sep, j));
        } else {
            lemma_split_from_suffix(s, sep, e + 1, j);
            let pre = choose|pre: Seq<Seq<char>>|
                split_from(s, sep, e + 1) == pre + split_from(s, sep, j);
            assert(split_from(s, sep, i) == (first + pre) + split_from(s, sep, j));
        }
    }
}

/// `join` of a sequence with one more piece.
pub proof fn lemma_join_push(parts: Seq<Seq<char>>, sep: Seq<char>, p: Seq<char>)
    ensures
        join(parts.push(p), sep) == if parts.len() == 0 {
            p
        } else {
            join(parts, sep) + sep + p
        },
{
    assert(parts.push(p).drop_last() =~= parts);
}

// ---------------------------------------------------------------------------
// Executable operations
// ---------------------------------------------------------------------------

/// The characters of `s`, in order.
pub fn to_chars(s: &str) -> (out: Vec<char>)
    ensures
        out@ == s@,
{
    let mut out: Vec<char> = Vec::new();
    for c in it: s.chars()
        invariant
            out@ == it.seq().take(it.index() as int),
    {
        out.push(c);
    }
    out
}

/// Appends one character to a string.
///
/// Calls `String::push`, which appends the character to the end of the string;
/// the contract states exactly that.
#[verifier::external_body]
pub fn push_char(s: &mut String, c: char)
    ensures
        final(s)@ == old(s)@.push(c),
{
    s.push(c);
}

/// Appends `cs[lo..hi]` to `s`.
pub fn push_range(s: &mut String, cs: &Vec<char>, lo: usize, hi: usize)
    requires
        lo <= hi <= cs.len(),
    ensures
        final(s)@ == old(s)@ + cs@.subrange(lo as int, hi as int),
{
    let mut i = lo;
    while i < hi
        invariant
            lo <= i <= hi <= cs.len(),
            s@ == old(s)@ + cs@.subrange(lo as int, i as int),
        decreases hi - i,
    {
        push_char(s, cs[i]);
        i = i + 1;
        assert(old(s)@ + cs@.subrange(lo as int, i as int) =~= (old(s)@ + cs@.subrange(
            lo as int,
            i - 1,
        )).push(cs[i - 1]));
    }
}

/// A new string holding `cs[lo..hi]`.
pub fn string_from_range(cs: &Vec<char>, lo: usize, hi: usize) -> (out: String)
    requires
        lo <= hi <= cs.len(),
    ensures
        out@ == cs@.subrange(lo as int, hi as int),
{
    let mut out = String::new();
    push_range(&mut out, cs, lo, hi);
    assert(out@ =~= cs@.subrange(lo as int, hi as int));
    out
}

/// `s` with every `c` replaced by `rep` (what `str::replace` gives for a
/// character pattern).
pub fn replace_char_exec(s: &str, c: char, rep: &str) -> (out: String)
    ensures
        out@ == replace_char(s@, c, rep@),
{
    let cs = to_chars(s);
    let mut out = String::new();
    let mut i: usize = 0;
    while i < cs.len()
        invariant
            0 <= i <= cs.len(),
            cs@ == s@,
            out@ == replace_char(cs@.take(i as int), c, rep@),
        decreases cs.len() - i,
    {
        assert(cs@.take(i + 1).drop_last() =~= cs@.take(i as int));
        if cs[i] == c {
            out.append(rep);
        } else {
            push_char(&mut out, cs[i]);
            assert(out@ =~= replace_char(cs@.take(i as int), c, rep@) + seq![cs[i as int]]);
        }
        i = i + 1;
    }
    assert(cs@.take(cs.len() as int) =~= s@);
    out
}

/// Whether `c` is Unicode whitespace.
pub fn is_whitespace_exec(c: char) -> (r: bool)
    ensures
        r == is_whitespace(c),
{
    ('\u{9}' <= c && c <= '\u{d}') || c == ' ' || c == '\u{85}' || c == '\u{a0}' || c == '\u{1680}'
        || ('\u{2000}' <= c && c <= '\u{200a}') || c == '\u{2028}' || c == '\u{2029}' || c
        == '\u{202f}' || c == '\u{205f}' || c == '\u{3000}'
}

/// Whether `c` is of class `k`.
pub fn in_class_exec(k: TrimClass, c: char) -> (r: bool)
    ensures
        r == in_class(k, c),
{
    match k {
        TrimClass::Whitespace => is_whitespace_exec(c),
        TrimClass::LineBreak => c == '\r' || c == '\n',
    }
}

/// The bounds, inside `lo..hi`, of `cs[lo..hi]` stripped of class `k` at both ends.
pub fn strip_bounds(cs: &Vec<char>, lo: usize, hi: usize, k: TrimClass) -> (r: (usize, usize))
    requires
        lo <= hi <= cs.len(),
    ensures
        lo <= r.0 <= r.1 <= hi,
        cs@.subrange(r.0 as int, r.1 as int) == strip_both(cs@.subrange(lo as int, hi as int), k),
{
    let ghost sub = cs@.subrange(lo as int, hi as int);
    let mut a = lo;
    while a < hi && in_class_exec(k, cs[a])
        invariant
            lo <= a <= hi <= cs.len(),
            forall|j: int| lo <= j < a ==> in_class(k, cs@[j]),
        decreases hi - a,
    {
        a = a + 1;
    }
    proof {
        lemma_strip_start_index(sub, k, a - lo);
        assert(sub.subrange(a - lo, sub.len() as int) =~= cs@.subrange(a as int, hi as int));
    }
    let ghost mid = cs@.subrange(a as int, hi as int);
    let mut b = hi;
    while b > a && in_class_exec(k, cs[b - 1])
        invariant
            lo <= a <= b <= hi <= cs.len(),
            forall|j: int| b <= j < hi ==> in_class(k, cs@[j]),
        decreases b - a,
    {
        b = b - 1;
    }
    proof {
        lemma_strip_end_index(mid, k, b - a);
        assert(mid.subrange(0, b - a) =~= cs@.subrange(a as int, b as int));
    }
    (a, b)
}

/// The index of the first `c` in `cs[lo..hi]`, or `hi` when there is none.
pub fn index_of_in(cs: &Vec<char>, c: char, lo: usize, hi: usize) -> (r: usize)
    requires
        lo <= hi <= cs.len(),
    ensures
        lo <= r <= hi,
        forall|k: int| lo <= k < r ==> cs@[k] != c,
        r < hi ==> cs@[r as int] == c,
{
    let mut i = lo;
    while i < hi && cs[i] != c
        invariant
            lo <= i <= hi <= cs.len(),
            forall|k: int| lo <= k < i ==> cs@[k] != c,
        decreases hi - i,
    {
        i = i + 1;
    }
    i
}

/// Whether `pat` occurs in `s` at `i`.
pub fn occurs_at_exec(s: &Vec<char>, pat: &Vec<char>, i: usize) -> (r: bool)
    ensures
        r == occurs_at(s@, pat@, i as int),
{
    if i > s.len() || pat.len() > s.len() - i {
        return false;
    }
    let mut j: usize = 0;
    while j < pat.len()
        invariant
            i + pat.len() <= s.len(),
            0 <= j <= pat.len(),
            forall|k: int| 0 <= k < j ==> s@[i + k] == pat@[k],
        decreases pat.len() - j,
    {
        if s[i + j] != pat[j] {
            assert(s@.subrange(i as int, i + pat.len())[j as int] != pat@[j as int]);
            return false;
        }
        j = j + 1;
    }
    assert(s@.subrange(i as int, i + pat.len()) =~= pat@);
    true
}

/// The first index at or after `from` where `pat` occurs in `s`.
pub fn find_from_exec(s: &Vec<char>, pat: &Vec<char>, from: usize) -> (r: Option<usize>)
    ensures
        r matches Some(j) ==> find_from(s@, pat@, from as int) == Some(j as int),
        r is None ==> find_from(s@, pat@, from as int) is None,
{
    if pat.len() > s.len() || from > s.len() - pat.len() {
        proof {
            lemma_find_from_none(s@, pat@, from as int);
        }
        return None;
    }
    let last = s.len() - pat.len();
    let mut i = from;
    loop
        invariant
            from <= i <= last,
            last + pat.len() == s.len(),
            forall|k: int| from <= k < i ==> !occurs_at(s@, pat@, k),
        ensures
            forall|k: int| from <= k <= last ==> !occurs_at(s@, pat@, k),
        decreases last - i,
    {
        if occurs_at_exec(s, pat, i) {
            proof {
                lemma_find_from_unique(s@, pat@, from as int, i as int);
            }
            return Some(i);
        }
        if i >= last {
            break;
        }
        i = i + 1;
    }
    proof {
        lemma_find_from_none(s@, pat@, from as int);
    }
    None
}

/// ASCII upper case of one character.
pub fn upper_char_exec(c: char) -> (r: char)
    ensures
        r == upper_char(c),
{
    if 'a' <= c && c <= 'z' {
        ((c as u8) - 32) as char
    } else {
        c
    }
}

/// ASCII lower case of one character.
pub fn lower_char_exec(c: char) -> (r: char)
    ensures
        r == lower_char(c),
{
    if 'A' <= c && c <= 'Z' {
        ((c as u8) + 32) as char
    } else {
        c
    }
}

/// `s` in ASCII upper case (what `str::to_ascii_uppercase` gives).
pub fn to_ascii_upper(s: &str) -> (out: String)
    ensures
        out@ == ascii_upper(s@),
{
    let cs = to_chars(s);
    let mut out = String::new();
    let mut i: usize = 0;
    while i < cs.len()
        invariant
            0 <= i <= cs.len(),
            cs@ == s@,
            out@ == ascii_upper(cs@.take(i as int)),
        decreases cs.len() - i,
    {
        push_char(&mut out, upper_char_exec(cs[i]));
        i = i + 1;
        assert(out@ =~= ascii_upper(cs@.take(i as int)));
    }
    assert(cs@.take(cs.len() as int) =~= s@);
    out
}

/// Whether `a[alo..ahi]` and `b[blo..bhi]` agree ignoring ASCII case.
pub fn ranges_eq_ignore_ascii_case(
    a: &Vec<char>,
    alo: usize,
    ahi: usize,
    b: &Vec<char>,
    blo: usize,
    bhi: usize,
) -> (r: bool)
    requires
        alo <= ahi <= a.len(),
        blo <= bhi <= b.len(),
    ensures
        r == eq_ignore_ascii_case(
            a@.subrange(alo as int, ahi as int),
            b@.subrange(blo as int, bhi as int),
        ),
{
    let ghost sa = a@.subrange(alo as int, ahi as int);
    let ghost sb = b@.subrange(blo as int, bhi as int);
    if ahi - alo != bhi - blo {
        assert(ascii_lower(sa).len() != ascii_lower(sb).len());
        return false;
    }
    let n = ahi - alo;
    let mut j: usize = 0;
    while j < n
        invariant
            n == ahi - alo == bhi - blo,
            alo <= ahi <= a.len(),
            blo <= bhi <= b.len(),
            sa == a@.subrange(alo as int, ahi as int),
            sb == b@.subrange(blo as int, bhi as int),
            0 <= j <= n,
            forall|k: int| 0 <= k < j ==> lower_char(sa[k]) == lower_char(sb[k]),
        decreases n - j,
    {
        if lower_char_exec(a[alo + j]) != lower_char_exec(b[blo + j]) {
            assert(ascii_lower(sa)[j as int] != ascii_lower(sb)[j as int]);
            return false;
        }
        j = j + 1;
    }
    assert(ascii_lower(sa) =~= ascii_lower(sb));
    true
}

} // verus!
