//! Searching and trimming of character sequences.
//!
//! Text is modelled as `Seq<char>`; positions and lengths count characters.

use vstd::prelude::*;

verus! {

/// `pat` stands in `s` at position `i`.
pub open spec fn occurs_at(s: Seq<char>, pat: Seq<char>, i: int) -> bool {
    &&& 0 <= i
    &&& i + pat.len() <= s.len()
    &&& s.subrange(i, i + pat.len()) == pat
}

/// `pat` stands somewhere in `s`.
pub open spec fn contains_text(s: Seq<char>, pat: Seq<char>) -> bool {
    exists|i: int| occurs_at(s, pat, i)
}

/// `pat` stands in `s` at position `i` and nowhere before it.
pub open spec fn is_first_occurrence(s: Seq<char>, pat: Seq<char>, i: int) -> bool {
    &&& occurs_at(s, pat, i)
    &&& forall|j: int| 0 <= j < i ==> !occurs_at(s, pat, j)
}

/// The leftmost position at which `pat` stands in `s`, if there is one.
pub open spec fn first_occurrence(s: Seq<char>, pat: Seq<char>) -> Option<int> {
    if contains_text(s, pat) {
        Some(choose|i: int| is_first_occurrence(s, pat, i))
    } else {
        None
    }
}

/// The smaller of two positions.
pub open spec fn earlier(a: int, b: int) -> int {
    if a <= b {
        a
    } else {
        b
    }
}

/// The leftmost position at which any of `markers` stands in `s`, or the
/// length of `s` when none of them occurs.
pub open spec fn earliest_marker(s: Seq<char>, markers: Seq<Seq<char>>) -> int
    decreases markers.len(),
{
    if markers.len() == 0 {
        s.len() as int
    } else {
        let rest = earliest_marker(s, markers.drop_last());
        match first_occurrence(s, markers.last()) {
            Some(i) => earlier(i, rest),
            None => rest,
        }
    }
}

/// The code points with the Unicode property `White_Space`.
pub open spec fn is_whitespace(c: char) -> bool {
    let n = c as u32;
    ||| 0x09 <= n <= 0x0D
    ||| n == 0x20
    ||| n == 0x85
    ||| n == 0xA0
    ||| n == 0x1680
    ||| 0x2000 <= n <= 0x200A
    ||| n == 0x2028
    ||| n == 0x2029
    ||| n == 0x202F
    ||| n == 0x205F
    ||| n == 0x3000
}

/// The decimal digit for a number from 0 to 9.
pub open spec fn digit(n: int) -> char {
    ('0' as int + n) as char
}

/// A full stop, a comma or a space: what is dropped from the end of a title.
pub open spec fn is_trailing_mark(c: char) -> bool {
    c == '.' || c == ',' || c == ' '
}

/// `s` without its leading whitespace.
pub open spec fn trim_start(s: Seq<char>) -> Seq<char>
    decreases s.len(),
{
    if s.len() > 0 && is_whitespace(s.first()) {
        trim_start(s.drop_first())
    } else {
        s
    }
}

/// `s` without the full stops, commas and spaces at its end.
pub open spec fn trim_end(s: Seq<char>) -> Seq<char>
    decreases s.len(),
{
    if s.len() > 0 && is_trailing_mark(s.last()) {
        trim_end(s.drop_last())
    } else {
        s
    }
}

/// A position that is a first occurrence is the one `first_occurrence` names.
pub proof fn lemma_first_occurrence_is(s: Seq<char>, pat: Seq<char>, i: int)
    requires
        is_first_occurrence(s, pat, i),
    ensures
        first_occurrence(s, pat) == Some(i),
{
    assert(occurs_at(s, pat, i));
    let c = choose|k: int| is_first_occurrence(s, pat, k);
    assert(is_first_occurrence(s, pat, c));
    if c < i {
        assert(!occurs_at(s, pat, c));
    } else if i < c {
        assert(!occurs_at(s, pat, i));
    }
}

/// Below any occurrence there is a first one.
proof fn lemma_least_occurrence(s: Seq<char>, pat: Seq<char>, i: int)
    requires
        occurs_at(s, pat, i),
    ensures
        exists|k: int| 0 <= k <= i && is_first_occurrence(s, pat, k),
    decreases i,
{
    if exists|j: int| 0 <= j < i && occurs_at(s, pat, j) {
        let j = choose|j: int| 0 <= j < i && occurs_at(s, pat, j);
        lemma_least_occurrence(s, pat, j);
        let k = choose|k: int| 0 <= k <= j && is_first_occurrence(s, pat, k);
        assert(0 <= k <= i && is_first_occurrence(s, pat, k));
    } else {
        assert(is_first_occurrence(s, pat, i));
    }
}

/// What `first_occurrence` returns: a first occurrence, or nothing exactly
/// when `pat` does not occur.
pub proof fn lemma_first_occurrence(s: Seq<char>, pat: Seq<char>)
    ensures
        match first_occurrence(s, pat) {
            Some(i) => is_first_occurrence(s, pat, i),
            None => forall|j: int| !occurs_at(s, pat, j),
        },
{
    if contains_text(s, pat) {
        let i = choose|i: int| occurs_at(s, pat, i);
        lemma_least_occurrence(s, pat, i);
    }
}

/// Whether `pat` stands in `s` at position `i`.
pub fn matches_at(s: &[char], pat: &[char], i: usize) -> (found: bool)
    ensures
        found == occurs_at(s@, pat@, i as int),
{
    if pat.len() > s.len() || i > s.len() - pat.len() {
        return false;
    }
    let mut j: usize = 0;
    while j < pat.len()
        invariant
            j <= pat.len(),
            i + pat.len() <= s.len(),
            forall|k: int| 0 <= k < j ==> s@[i + k] == pat@[k],
        decreases pat.len() - j,
    {
        if s[i + j] != pat[j] {
            assert(s@.subrange(i as int, i + pat.len())[j as int] == s@[i + j]);
            return false;
        }
        j += 1;
    }
    assert(s@.subrange(i as int, i + pat.len()) =~= pat@);
    true
}

/// The leftmost position at which `pat` stands in `s`.
pub fn find(s: &[char], pat: &[char]) -> (found: Option<usize>)
    ensures
        match found {
            Some(i) => first_occurrence(s@, pat@) == Some(i as int),
            None => first_occurrence(s@, pat@) is None,
        },
{
    if pat.len() > s.len() {
        return None;
    }
    let last: usize = s.len() - pat.len();
    let mut i: usize = 0;
    loop
        invariant
            pat.len() <= s.len(),
            last == s.len() - pat.len(),
            i <= last,
            forall|j: int| 0 <= j < i ==> !occurs_at(s@, pat@, j),
        decreases last - i,
    {
        if matches_at(s, pat, i) {
            proof {
                lemma_first_occurrence_is(s@, pat@, i as int);
            }
            return Some(i);
        }
        if i == last {
            return None;
        }
        i += 1;
    }
}

/// Whether `pat` stands somewhere in `s`.
pub fn contains(s: &[char], pat: &[char]) -> (found: bool)
    ensures
        found == contains_text(s@, pat@),
{
    find(s, pat).is_some()
}

/// Whether `c` is whitespace.
pub fn char_is_whitespace(c: char) -> (b: bool)
    ensures
        b == is_whitespace(c),
{
    let n: u32 = c as u32;
    (0x09 <= n && n <= 0x0D) || n == 0x20 || n == 0x85 || n == 0xA0 || n == 0x1680 || (0x2000 <= n
        && n <= 0x200A) || n == 0x2028 || n == 0x2029 || n == 0x202F || n == 0x205F || n == 0x3000
}

/// The number of whitespace characters at the start of `s`.
pub fn leading_whitespace(s: &[char]) -> (n: usize)
    ensures
        n <= s.len(),
        s@.skip(n as int) == trim_start(s@),
{
    let mut n: usize = 0;
    assert(s@.skip(0) =~= s@);
    while n < s.len() && char_is_whitespace(s[n])
        invariant
            n <= s.len(),
            trim_start(s@.skip(n as int)) == trim_start(s@),
        decreases s.len() - n,
    {
        assert(s@.skip(n as int).drop_first() =~= s@.skip(n + 1));
        n += 1;
    }
    n
}

/// The length of `s` once the full stops, commas and spaces at its end are
/// dropped.
pub fn trimmed_len(s: &[char]) -> (n: usize)
    ensures
        n <= s.len(),
        s@.take(n as int) == trim_end(s@),
{
    let mut n: usize = s.len();
    assert(s@.take(n as int) =~= s@);
    while n > 0 && (s[n - 1] == '.' || s[n - 1] == ',' || s[n - 1] == ' ')
        invariant
            n <= s.len(),
            trim_end(s@.take(n as int)) == trim_end(s@),
        decreases n,
    {
        assert(s@.take(n as int).drop_last() =~= s@.take(n - 1));
        n -= 1;
    }
    n
}

/// The characters of `s`, in order.
pub fn to_chars(s: &str) -> (v: Vec<char>)
    ensures
        v@ == s@,
{
    let mut v: Vec<char> = Vec::new();
    for c in it: s.chars()
        invariant
            v@ == it.seq().take(it.index()),
            it.seq() == s@,
    {
        v.push(c);
    }
    v
}

/// The texts as sequences of characters.
pub open spec fn texts_view(texts: Seq<&'static str>) -> Seq<Seq<char>> {
    texts.map_values(|t: &'static str| t@)
}

/// The characters of each of `texts`.
pub fn all_chars(texts: &[&'static str]) -> (lists: Vec<Vec<char>>)
    ensures
        lists@.map_values(|m: Vec<char>| m@) == texts_view(texts@),
{
    let mut lists: Vec<Vec<char>> = Vec::new();
    let mut k: usize = 0;
    while k < texts.len()
        invariant
            k <= texts.len(),
            lists@.map_values(|m: Vec<char>| m@) == texts_view(texts@.take(k as int)),
        decreases texts.len() - k,
    {
        let ghost before = lists@.map_values(|m: Vec<char>| m@);
        lists.push(to_chars(texts[k]));
        assert(lists@.map_values(|m: Vec<char>| m@) =~= before.push(texts@[k as int]@));
        assert(texts_view(texts@.take(k + 1)) =~= texts_view(texts@.take(k as int)).push(
            texts@[k as int]@,
        ));
        k += 1;
    }
    assert(texts@.take(k as int) =~= texts@);
    lists
}

/// Whether `a` and `b` hold the same characters.
pub fn same_text(a: &str, b: &str) -> (same: bool)
    ensures
        same == (a@ == b@),
{
    let x = to_chars(a);
    let y = to_chars(b);
    assert(x@.subrange(0, x@.len() as int) =~= x@);
    x.len() == y.len() && matches_at(x.as_slice(), y.as_slice(), 0)
}

/// The leftmost position at which any of `markers` stands in `s`, or the
/// length of `s`.
pub fn find_earliest(s: &[char], markers: &Vec<Vec<char>>) -> (cut: usize)
    ensures
        cut <= s.len(),
        cut == earliest_marker(s@, markers@.map_values(|m: Vec<char>| m@)),
{
    let ghost pats = markers@.map_values(|m: Vec<char>| m@);
    let mut cut: usize = s.len();
    let mut k: usize = 0;
    while k < markers.len()
        invariant
            k <= markers.len(),
            cut <= s.len(),
            pats == markers@.map_values(|m: Vec<char>| m@),
            cut == earliest_marker(s@, pats.take(k as int)),
        decreases markers.len() - k,
    {
        assert(pats.take(k + 1).drop_last() =~= pats.take(k as int));
        assert(pats.take(k + 1).last() == markers@[k as int]@);
        if let Some(i) = find(s, markers[k].as_slice()) {
            if i < cut {
                cut = i;
            }
        }
        k += 1;
    }
    assert(pats.take(k as int) =~= pats);
    cut
}

} // verus!
