//! Character-sequence helpers shared by the text-processing parts of the library:
//! conversion between `str` and `Vec<char>`, substring search (exact and
//! ASCII-case-insensitive), and appending ranges.

use vstd::prelude::*;

verus! {

broadcast use vstd::string::group_string_axioms;

/// The code point of `c` after ASCII upper-casing; every other character keeps its code.
pub open spec fn ascii_upper(c: char) -> u32 {
    if 'a' <= c && c <= 'z' {
        ((c as u32) - 32) as u32
    } else {
        c as u32
    }
}

/// Two characters are equal, ignoring ASCII case when `fold` holds.
pub open spec fn chars_match(a: char, b: char, fold: bool) -> bool {
    if fold {
        ascii_upper(a) == ascii_upper(b)
    } else {
        a == b
    }
}

/// `needle` occurs in `s` at position `i`.
pub open spec fn occurs_at(s: Seq<char>, needle: Seq<char>, i: int, fold: bool) -> bool {
    &&& 0 <= i
    &&& i + needle.len() <= s.len()
    &&& forall|j: int| 0 <= j < needle.len() ==> #[trigger] chars_match(s[i + j], needle[j], fold)
}

/// The first position at or after `i` where `needle` occurs in `s`.
pub open spec fn find_from(s: Seq<char>, needle: Seq<char>, i: int, fold: bool) -> Option<int>
    decreases s.len() - i,
{
    if i < 0 || i + needle.len() > s.len() {
        None
    } else if occurs_at(s, needle, i, fold) {
        Some(i)
    } else {
        find_from(s, needle, i + 1, fold)
    }
}

/// The first position where `needle` occurs in `s` (as `str::find` reports it).
pub open spec fn find(s: Seq<char>, needle: Seq<char>) -> Option<int> {
    find_from(s, needle, 0, false)
}

/// The first position where `needle` occurs in `s`, ignoring ASCII case.
pub open spec fn find_ignore_case(s: Seq<char>, needle: Seq<char>) -> Option<int> {
    find_from(s, needle, 0, true)
}

/// `needle` occurs somewhere in `s`.
pub open spec fn contains(s: Seq<char>, needle: Seq<char>) -> bool {
    find(s, needle) is Some
}

/// `s` begins with `prefix`.
pub open spec fn starts_with(s: Seq<char>, prefix: Seq<char>) -> bool {
    prefix.len() <= s.len() && s.take(prefix.len() as int) == prefix
}

/// The first position at or after `i` that holds `c`.
pub open spec fn find_char_from(s: Seq<char>, c: char, i: int) -> Option<int>
    decreases s.len() - i,
{
    if i < 0 || i >= s.len() {
        None
    } else if s[i] == c {
        Some(i)
    } else {
        find_char_from(s, c, i + 1)
    }
}

/// The first position of `c` in `s`.
pub open spec fn find_char(s: Seq<char>, c: char) -> Option<int> {
    find_char_from(s, c, 0)
}

/// The last position of `c` in `s`.
pub open spec fn rfind_char(s: Seq<char>, c: char) -> Option<int>
    decreases s.len(),
{
    if s.len() == 0 {
        None
    } else if s.last() == c {
        Some(s.len() - 1)
    } else {
        rfind_char(s.drop_last(), c)
    }
}

/// `s` holds no line feed.
pub open spec fn newline_free(s: Seq<char>) -> bool {
    forall|i: int| 0 <= i < s.len() ==> s[i] != '\n'
}

/// What `find_from` reports lies within the searched range, and the needle is there.
pub proof fn lemma_find_from_bounds(s: Seq<char>, needle: Seq<char>, i: int, fold: bool)
    ensures
        find_from(s, needle, i, fold) matches Some(p) ==> i <= p && p + needle.len() <= s.len()
            && occurs_at(s, needle, p, fold),
        find_from(s, needle, i, fold) matches Some(p) ==> forall|q: int|
            i <= q < p ==> !occurs_at(s, needle, q, fold),
        find_from(s, needle, i, fold) is None && 0 <= i ==> forall|q: int|
            i <= q ==> !occurs_at(s, needle, q, fold),
    decreases s.len() - i,
{
    if i < 0 || i + needle.len() > s.len() {
    } else if occurs_at(s, needle, i, fold) {
    } else {
        lemma_find_from_bounds(s, needle, i + 1, fold);
    }
}

/// What `find_char_from` reports lies within the searched range and holds `c`,
/// and no earlier position in the range does.
pub proof fn lemma_find_char_from_bounds(s: Seq<char>, c: char, i: int)
    ensures
        find_char_from(s, c, i) matches Some(p) ==> i <= p < s.len() && s[p] == c,
        find_char_from(s, c, i) matches Some(p) ==> forall|q: int| i <= q < p ==> s[q] != c,
        find_char_from(s, c, i) is None && 0 <= i ==> forall|q: int| i <= q < s.len() ==> s[q] != c,
    decreases s.len() - i,
{
    if i < 0 || i >= s.len() {
    } else if s[i] == c {
    } else {
        lemma_find_char_from_bounds(s, c, i + 1);
    }
}

/// The characters of `s`, in order.
pub fn chars_of(s: &str) -> (v: Vec<char>)
    ensures
        v@ == s@,
{
    let mut v: Vec<char> = Vec::new();
    for c in it: s.chars()
        invariant
            v@ == it.seq().take(it.index() as int),
            it.seq() == s@,
    {
        v.push(c);
    }
    v
}

/// `String::push`.
/// Trusted: the character is added at the end of the string.
#[verifier::external_body]
fn push_char(s: &mut String, c: char)
    ensures
        final(s)@ == old(s)@.push(c),
{
    s.push(c);
}

/// The string made of the given characters, in order.
pub fn string_from_chars(v: &[char]) -> (s: String)
    ensures
        s@ == v@,
{
    let mut s = String::new();
    let mut i: usize = 0;
    while i < v.len()
        invariant
            i <= v@.len(),
            s@ == v@.take(i as int),
        decreases v@.len() - i,
    {
        push_char(&mut s, v[i]);
        assert(v@.take(i + 1) == v@.take(i as int).push(v@[i as int]));
        i = i + 1;
    }
    assert(v@.take(v@.len() as int) == v@);
    s
}

/// Appends `s[from..to]` to `out`.
pub fn push_range(out: &mut Vec<char>, s: &[char], from: usize, to: usize)
    requires
        from <= to <= s@.len(),
    ensures
        final(out)@ == old(out)@ + s@.subrange(from as int, to as int),
{
    let ghost start = out@;
    let mut k = from;
    while k < to
        invariant
            from <= k <= to <= s@.len(),
            out@ == start + s@.subrange(from as int, k as int),
        decreases to - k,
    {
        out.push(s[k]);
        assert(s@.subrange(from as int, k + 1) == s@.subrange(from as int, k as int).push(s@[k as int]));
        k = k + 1;
    }
}

/// Appends all of `s` to `out`.
pub fn push_all(out: &mut Vec<char>, s: &[char])
    ensures
        final(out)@ == old(out)@ + s@,
{
    push_range(out, s, 0, s.len());
    assert(s@.subrange(0, s@.len() as int) == s@);
}

/// The code point of `c` after ASCII upper-casing.
pub fn upper_ascii(c: char) -> (r: u32)
    ensures
        r == ascii_upper(c),
{
    if 'a' <= c && c <= 'z' {
        (c as u32) - 32
    } else {
        c as u32
    }
}

/// Whether `needle` occurs in `s` at `i`.
pub fn occurs_at_exec(s: &[char], needle: &[char], i: usize, fold: bool) -> (b: bool)
    requires
        i <= s@.len(),
    ensures
        b == occurs_at(s@, needle@, i as int, fold),
{
    if needle.len() > s.len() - i {
        return false;
    }
    let mut j: usize = 0;
    while j < needle.len()
        invariant
            i + needle@.len() <= s@.len(),
            s@.len() == s.len(),
            needle@.len() == needle.len(),
            j <= needle@.len(),
            forall|k: int| 0 <= k < j ==> #[trigger] chars_match(s@[i + k], needle@[k], fold),
        decreases needle@.len() - j,
    {
        let a = s[i + j];
        let b = needle[j];
        let same = if fold {
            upper_ascii(a) == upper_ascii(b)
        } else {
            a == b
        };
        if !same {
            assert(!chars_match(s@[i + j], needle@[j as int], fold));
            return false;
        }
        j = j + 1;
    }
    true
}

/// The first position at or after `start` where `needle` occurs in `s`.
pub fn find_from_exec(s: &[char], needle: &[char], start: usize, fold: bool) -> (r: Option<usize>)
    requires
        start <= s@.len(),
    ensures
        r matches Some(p) ==> find_from(s@, needle@, start as int, fold) == Some(p as int),
        r is None ==> find_from(s@, needle@, start as int, fold) is None,
{
    let mut i = start;
    while i <= s.len()
        invariant
            start <= i,
            find_from(s@, needle@, start as int, fold) == find_from(s@, needle@, i as int, fold),
        decreases s@.len() + 1 - i,
    {
        if needle.len() > s.len() - i {
            return None;
        }
        if occurs_at_exec(s, needle, i, fold) {
            return Some(i);
        }
        i = i + 1;
    }
    None
}

/// The first position at or after `start` that holds `c`.
pub fn find_char_from_exec(s: &[char], c: char, start: usize) -> (r: Option<usize>)
    ensures
        r matches Some(p) ==> find_char_from(s@, c, start as int) == Some(p as int),
        r is None ==> find_char_from(s@, c, start as int) is None,
{
    let mut i = start;
    while i < s.len()
        invariant
            start <= i,
            find_char_from(s@, c, start as int) == find_char_from(s@, c, i as int),
        decreases s@.len() - i,
    {
        if s[i] == c {
            return Some(i);
        }
        i = i + 1;
    }
    None
}

/// Whether `s` begins with `prefix`.
pub fn starts_with_exec(s: &[char], prefix: &[char]) -> (b: bool)
    ensures
        b == starts_with(s@, prefix@),
{
    if prefix.len() > s.len() {
        return false;
    }
    let found = occurs_at_exec(s, prefix, 0, false);
    proof {
        if found {
            assert forall|j: int| 0 <= j < prefix@.len() implies s@.take(prefix@.len() as int)[j] == prefix@[j] by {
                assert(chars_match(s@[0 + j], prefix@[j], false));
            }
            assert(s@.take(prefix@.len() as int) =~= prefix@);
        } else if starts_with(s@, prefix@) {
            assert forall|j: int| 0 <= j < prefix@.len() implies #[trigger] chars_match(s@[0 + j], prefix@[j], false) by {
                assert(s@.take(prefix@.len() as int)[j] == prefix@[j]);
            }
        }
    }
    found
}

} // verus!
