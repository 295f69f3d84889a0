//! Forcing attribute values on HLS tag lines, such as `DEFAULT=YES` on an
//! `#EXT-X-MEDIA:TYPE=SUBTITLES` line.

use vstd::prelude::*;
use crate::text::{
    ascii_upper, chars_match, newline_free, find_char, find_char_from, find_ignore_case, lemma_find_char_from_bounds,
    lemma_find_from_bounds, occurs_at, find_from, chars_of, string_from_chars, push_all,
    push_range, find_from_exec, find_char_from_exec,
};

verus! {

broadcast use vstd::string::group_string_axioms;

/// The key searched for when setting `attr`: the attribute name followed by `=`.
pub open spec fn attribute_key(attr: Seq<char>) -> Seq<char> {
    attr.push('=')
}

/// Where the value of the first `attr=` (matched ignoring ASCII case) ends:
/// at the next comma, or at the end of the line.
pub open spec fn value_end(s: Seq<char>, start: int) -> int {
    match find_char_from(s, ',', start) {
        Some(e) => e,
        None => s.len() as int,
    }
}

/// The value of the first `attr=` in `s` (attribute name matched ignoring ASCII
/// case): the text after `=` up to the next comma or the end of the line.
pub open spec fn attribute_value(s: Seq<char>, attr: Seq<char>) -> Option<Seq<char>> {
    let key = attribute_key(attr);
    match find_ignore_case(s, key) {
        Some(pos) => Some(s.subrange(pos + key.len(), value_end(s, pos + key.len()))),
        None => None,
    }
}

/// `s` with attribute `attr` set to `val`: the value of the first `attr=`
/// (ignoring ASCII case) is replaced; without one, `,attr=val` is inserted
/// before the first comma, or appended when the line has no comma.
pub open spec fn with_attribute(s: Seq<char>, attr: Seq<char>, val: Seq<char>) -> Seq<char> {
    let key = attribute_key(attr);
    match find_ignore_case(s, key) {
        Some(pos) => {
            let start = pos + key.len();
            s.take(start) + val + s.skip(value_end(s, start))
        },
        None => match find_char(s, ',') {
            Some(p) => s.take(p) + seq![','] + key + val + s.skip(p),
            None => s + seq![','] + key + val,
        },
    }
}

/// The attribute name `DEFAULT`.
pub open spec fn default_attr() -> Seq<char> {
    seq!['D', 'E', 'F', 'A', 'U', 'L', 'T']
}

/// The attribute name `AUTOSELECT`.
pub open spec fn autoselect_attr() -> Seq<char> {
    seq!['A', 'U', 'T', 'O', 'S', 'E', 'L', 'E', 'C', 'T']
}

/// The value `YES`.
pub open spec fn yes_value() -> Seq<char> {
    seq!['Y', 'E', 'S']
}

/// A subtitle media line with `DEFAULT=YES`, then `AUTOSELECT=YES`, forced onto it.
pub open spec fn autoselected(line: Seq<char>) -> Seq<char> {
    with_attribute(with_attribute(line, default_attr(), yes_value()), autoselect_attr(), yes_value())
}

/// `s` holds no comma.
pub open spec fn comma_free(s: Seq<char>) -> bool {
    forall|i: int| 0 <= i < s.len() ==> s[i] != ','
}

/// `find_from` reports `p` when the needle occurs at `p` and nowhere in `[i, p)`.
pub proof fn lemma_find_from_at(s: Seq<char>, needle: Seq<char>, i: int, p: int, fold: bool)
    requires
        0 <= i <= p,
        occurs_at(s, needle, p, fold),
        forall|q: int| i <= q < p ==> !occurs_at(s, needle, q, fold),
    ensures
        find_from(s, needle, i, fold) == Some(p),
    decreases p - i,
{
    if i < p {
        lemma_find_from_at(s, needle, i + 1, p, fold);
    }
}

/// `find_char_from` reports `p` when `s[p] == c` and no earlier position from `i` holds `c`.
pub proof fn lemma_find_char_from_at(s: Seq<char>, c: char, i: int, p: int)
    requires
        0 <= i <= p < s.len(),
        s[p] == c,
        forall|q: int| i <= q < p ==> s[q] != c,
    ensures
        find_char_from(s, c, i) == Some(p),
    decreases p - i,
{
    if i < p {
        lemma_find_char_from_at(s, c, i + 1, p);
    }
}

/// `find_char_from` reports nothing when no position from `i` holds `c`.
pub proof fn lemma_find_char_from_none(s: Seq<char>, c: char, i: int)
    requires
        0 <= i,
        forall|q: int| i <= q < s.len() ==> s[q] != c,
    ensures
        find_char_from(s, c, i) is None,
    decreases s.len() - i,
{
    if i < s.len() {
        lemma_find_char_from_none(s, c, i + 1);
    }
}

/// Two sequences that agree on the window of an occurrence agree on whether it occurs.
proof fn lemma_occurs_agree(s: Seq<char>, t: Seq<char>, needle: Seq<char>, q: int, fold: bool)
    requires
        0 <= q,
        q + needle.len() <= s.len(),
        q + needle.len() <= t.len(),
        forall|j: int| q <= j < q + needle.len() ==> s[j] == t[j],
    ensures
        occurs_at(s, needle, q, fold) == occurs_at(t, needle, q, fold),
{
    if occurs_at(s, needle, q, fold) {
        assert forall|j: int| 0 <= j < needle.len() implies #[trigger] chars_match(t[q + j], needle[j], fold) by {
            assert(chars_match(s[q + j], needle[j], fold));
        }
    }
    if occurs_at(t, needle, q, fold) {
        assert forall|j: int| 0 <= j < needle.len() implies #[trigger] chars_match(s[q + j], needle[j], fold) by {
            assert(chars_match(t[q + j], needle[j], fold));
        }
    }
}

/// An occurrence of a comma-free key cannot cover a comma.
proof fn lemma_no_occurrence_over_comma(t: Seq<char>, key: Seq<char>, q: int, c: int)
    requires
        comma_free(key),
        0 <= q <= c < q + key.len(),
        c < t.len(),
        t[c] == ',',
    ensures
        !occurs_at(t, key, q, true),
{
    if occurs_at(t, key, q, true) {
        let x = key[c - q];
        assert(chars_match(t[q + (c - q)], x, true));
        assert(x != ',');
        assert(ascii_upper(',') == 44);
        if (x as u32) == 44 {
            vstd::utf8::char_u32_cast(x, 44);
            assert((44u32 as char) == ',');
        }
        assert(false);
    }
}

/// A key occurs at `p` in any sequence that holds it there.
proof fn lemma_occurs_self(t: Seq<char>, key: Seq<char>, p: int)
    requires
        0 <= p,
        p + key.len() <= t.len(),
        t.subrange(p, p + key.len()) == key,
    ensures
        occurs_at(t, key, p, true),
{
    assert forall|j: int| 0 <= j < key.len() implies #[trigger] chars_match(t[p + j], key[j], true) by {
        assert(t.subrange(p, p + key.len())[j] == t[p + j]);
    }
}

/// Setting an attribute leaves it with the value that was set, provided neither
/// the name nor the value holds a comma.
pub proof fn lemma_with_attribute_value(s: Seq<char>, attr: Seq<char>, val: Seq<char>)
    requires
        comma_free(attr),
        comma_free(val),
    ensures
        attribute_value(with_attribute(s, attr, val), attr) == Some(val),
{
    let key = attribute_key(attr);
    let k = key.len() as int;
    let r = with_attribute(s, attr, val);
    assert(comma_free(key)) by {
        assert forall|i: int| 0 <= i < key.len() implies key[i] != ',' by {
            if i < attr.len() {
                assert(key[i] == attr[i]);
            }
        }
    }
    lemma_find_from_bounds(s, key, 0, true);
    match find_ignore_case(s, key) {
        Some(pos) => {
            let start = pos + k;
            let end = value_end(s, start);
            lemma_find_char_from_bounds(s, ',', start);
            assert(r == s.take(start) + val + s.skip(end));
            // The first occurrence stays where it was.
            assert forall|q: int| 0 <= q < pos implies !occurs_at(r, key, q, true) by {
                lemma_occurs_agree(s, r, key, q, true);
            }
            lemma_occurs_agree(s, r, key, pos, true);
            lemma_find_from_at(r, key, 0, pos, true);
            // The value now ends right after `val`.
            let e = start + val.len();
            if end < s.len() {
                assert(r[e] == s[end]);
                lemma_find_char_from_at(r, ',', start, e);
            } else {
                assert(r.len() == e);
                lemma_find_char_from_none(r, ',', start);
            }
            assert(r.subrange(start, e) == val);
        },
        None => {
            lemma_find_char_from_bounds(s, ',', 0);
            match find_char(s, ',') {
                Some(p) => {
                    let start = p + 1 + k;
                    assert(r == s.take(p) + seq![','] + key + val + s.skip(p));
                    assert forall|q: int| 0 <= q < p + 1 implies !occurs_at(r, key, q, true) by {
                        if q + k <= p {
                            lemma_occurs_agree(s, r, key, q, true);
                        } else {
                            assert(r[p] == ',');
                            lemma_no_occurrence_over_comma(r, key, q, p);
                        }
                    }
                    assert(r.subrange(p + 1, start) == key);
                    lemma_occurs_self(r, key, p + 1);
                    lemma_find_from_at(r, key, 0, p + 1, true);
                    let e = start + val.len();
                    assert(r[e] == s[p]);
                    lemma_find_char_from_at(r, ',', start, e);
                    assert(r.subrange(start, e) == val);
                },
                None => {
                    let n = s.len() as int;
                    let start = n + 1 + k;
                    assert forall|q: int| 0 <= q < n + 1 implies !occurs_at(r, key, q, true) by {
                        if q + k <= n {
                            lemma_occurs_agree(s, r, key, q, true);
                        } else {
                            assert(r[n] == ',');
                            lemma_no_occurrence_over_comma(r, key, q, n);
                        }
                    }
                    assert(r.subrange(n + 1, start) == key);
                    lemma_occurs_self(r, key, n + 1);
                    lemma_find_from_at(r, key, 0, n + 1, true);
                    assert(r.len() == start + val.len());
                    lemma_find_char_from_none(r, ',', start);
                    assert(r.subrange(start, r.len() as int) == val);
                },
            }
        },
    }
}

/// A line that already carries `attr=val` is left unchanged by setting it again.
pub proof fn lemma_with_attribute_keeps(s: Seq<char>, attr: Seq<char>, val: Seq<char>)
    requires
        attribute_value(s, attr) == Some(val),
    ensures
        with_attribute(s, attr, val) == s,
{
    let key = attribute_key(attr);
    lemma_find_from_bounds(s, key, 0, true);
    let pos = find_ignore_case(s, key)->0;
    let start = pos + key.len();
    let end = value_end(s, start);
    lemma_find_char_from_bounds(s, ',', start);
    assert(s.take(start) + s.subrange(start, end) + s.skip(end) =~= s);
}

/// Setting an attribute twice to the same value is the same as setting it once,
/// provided neither the name nor the value holds a comma.
pub proof fn lemma_with_attribute_idempotent(s: Seq<char>, attr: Seq<char>, val: Seq<char>)
    requires
        comma_free(attr),
        comma_free(val),
    ensures
        with_attribute(with_attribute(s, attr, val), attr, val) == with_attribute(s, attr, val),
{
    lemma_with_attribute_value(s, attr, val);
    lemma_with_attribute_keeps(with_attribute(s, attr, val), attr, val);
}

/// After forcing, the line's first `AUTOSELECT` attribute is `YES`.
pub proof fn lemma_autoselected_value(line: Seq<char>)
    ensures
        attribute_value(autoselected(line), autoselect_attr()) == Some(yes_value()),
{
    lemma_with_attribute_value(
        with_attribute(line, default_attr(), yes_value()),
        autoselect_attr(),
        yes_value(),
    );
}

/// Where the first `attr=` of `s` starts and where its value ends, if it has one.
pub open spec fn attribute_span(s: Seq<char>, attr: Seq<char>) -> Option<(int, int)> {
    let key = attribute_key(attr);
    match find_ignore_case(s, key) {
        Some(pos) => Some((pos, value_end(s, pos + key.len()))),
        None => None,
    }
}

/// The first `a=` attribute and the first `b=` attribute of `s` (with their
/// values) do not overlap.
pub open spec fn spans_apart(s: Seq<char>, a: Seq<char>, b: Seq<char>) -> bool {
    match (attribute_span(s, a), attribute_span(s, b)) {
        (Some((pa, ea)), Some((pb, eb))) => ea <= pb || eb <= pa,
        _ => true,
    }
}

/// Occurrences carry over between two sequences that agree on shifted windows.
proof fn lemma_occurs_shift(t: Seq<char>, r: Seq<char>, key: Seq<char>, q: int, d: int, fold: bool)
    requires
        0 <= q,
        0 <= q + d,
        q + key.len() <= t.len(),
        q + d + key.len() <= r.len(),
        forall|j: int| 0 <= j < key.len() ==> r[q + d + j] == #[trigger] t[q + j],
    ensures
        occurs_at(r, key, q + d, fold) == occurs_at(t, key, q, fold),
{
    if occurs_at(t, key, q, fold) {
        assert forall|j: int| 0 <= j < key.len() implies #[trigger] chars_match(r[(q + d) + j], key[j], fold) by {
            assert(chars_match(t[q + j], key[j], fold));
            assert(r[q + d + j] == t[q + j]);
        }
    }
    if occurs_at(r, key, q + d, fold) {
        assert forall|j: int| 0 <= j < key.len() implies #[trigger] chars_match(t[q + j], key[j], fold) by {
            assert(chars_match(r[(q + d) + j], key[j], fold));
            assert(r[q + d + j] == t[q + j]);
        }
    }
}

/// A key occurs nowhere in a window whose character at offset `j` cannot match it.
proof fn lemma_no_occurrence_mismatch(r: Seq<char>, key: Seq<char>, q: int, j: int)
    requires
        0 <= j < key.len(),
        ascii_upper(r[q + j]) != ascii_upper(key[j]),
    ensures
        !occurs_at(r, key, q, true),
{
    if occurs_at(r, key, q, true) {
        assert(chars_match(r[q + j], key[j], true));
    }
}

/// The three names and values used when forcing subtitle selection hold no comma.
proof fn lemma_forced_texts_comma_free()
    ensures
        comma_free(default_attr()),
        comma_free(autoselect_attr()),
        comma_free(yes_value()),
        comma_free(attribute_key(default_attr())),
        comma_free(attribute_key(autoselect_attr())),
{
    assert(comma_free(attribute_key(default_attr()))) by {
        let k = attribute_key(default_attr());
        assert forall|i: int| 0 <= i < k.len() implies k[i] != ',' by {
            if i < 7 {
                assert(k[i] == default_attr()[i]);
            }
        }
    }
    assert(comma_free(attribute_key(autoselect_attr()))) by {
        let k = attribute_key(autoselect_attr());
        assert forall|i: int| 0 <= i < k.len() implies k[i] != ',' by {
            if i < 10 {
                assert(k[i] == autoselect_attr()[i]);
            }
        }
    }
}

/// What the first `DEFAULT=YES` of a line looks like: the key at `pos`, and the
/// value `YES` right after it, ending at a comma or at the end of the line.
pub open spec fn default_yes_at(t: Seq<char>, pos: int) -> bool {
    let s = pos + 8;
    &&& find_ignore_case(t, attribute_key(default_attr())) == Some(pos)
    &&& occurs_at(t, attribute_key(default_attr()), pos, true)
    &&& forall|q: int| 0 <= q < pos ==> !occurs_at(t, attribute_key(default_attr()), q, true)
    &&& 0 <= pos
    &&& s + 3 <= t.len()
    &&& t.subrange(s, s + 3) == yes_value()
    &&& (s + 3 < t.len() ==> t[s + 3] == ',')
    &&& value_end(t, s) == s + 3
}

/// Characters whose ASCII upper-case codes the proofs below compare.
proof fn lemma_upper_codes()
    ensures
        ascii_upper('=') == 61,
        ascii_upper('Y') == 89,
        ascii_upper('E') == 69,
        ascii_upper('S') == 83,
        ascii_upper(',') == 44,
        ascii_upper('D') == 68,
        attribute_key(default_attr())[0] == 'D',
        attribute_key(default_attr())[7] == '=',
        attribute_key(default_attr()).len() == 8,
        attribute_key(autoselect_attr()).len() == 11,
{
}

/// A line whose first `DEFAULT` attribute is `YES` has the shape `default_yes_at`.
proof fn lemma_default_yes_shape(t: Seq<char>) -> (pos: int)
    requires
        attribute_value(t, default_attr()) == Some(yes_value()),
    ensures
        default_yes_at(t, pos),
{
    let kd = attribute_key(default_attr());
    lemma_find_from_bounds(t, kd, 0, true);
    let pos = find_ignore_case(t, kd)->0;
    let s_d = pos + 8;
    let e_d = value_end(t, s_d);
    lemma_find_char_from_bounds(t, ',', s_d);
    assert(t.subrange(s_d, e_d) == yes_value());
    assert(e_d == s_d + 3);
    pos
}

/// The value `YES` at `sr` in `r`, followed by a comma or the end, is the value there.
proof fn lemma_yes_value_at(r: Seq<char>, sr: int)
    requires
        0 <= sr,
        sr + 3 <= r.len(),
        r.subrange(sr, sr + 3) == yes_value(),
        sr + 3 < r.len() ==> r[sr + 3] == ',',
    ensures
        value_end(r, sr) == sr + 3,
{
    assert forall|q: int| sr <= q < sr + 3 implies r[q] != ',' by {
        assert(r.subrange(sr, sr + 3)[q - sr] == r[q]);
    }
    if sr + 3 < r.len() {
        lemma_find_char_from_at(r, ',', sr, sr + 3);
    } else {
        lemma_find_char_from_none(r, ',', sr);
    }
}

/// Replacing the value of an `AUTOSELECT` attribute that ends before
/// `DEFAULT=YES` starts keeps `DEFAULT=YES`.
proof fn lemma_default_kept_when_autoselect_after(t: Seq<char>, pos_d: int, pos_a: int)
    requires
        default_yes_at(t, pos_d),
        find_ignore_case(t, attribute_key(autoselect_attr())) == Some(pos_a),
        occurs_at(t, attribute_key(autoselect_attr()), pos_a, true),
        pos_d + 11 <= pos_a,
    ensures
        attribute_value(with_attribute(t, autoselect_attr(), yes_value()), default_attr()) == Some(yes_value()),
{
    lemma_forced_texts_comma_free();
    lemma_upper_codes();
    let kd = attribute_key(default_attr());
    let yes = yes_value();
    let s_a = pos_a + 11;
    let e_a = value_end(t, s_a);
    lemma_find_char_from_bounds(t, ',', s_a);
    let r = with_attribute(t, autoselect_attr(), yes);
    assert(r == t.take(s_a) + yes + t.skip(e_a));
    assert forall|q: int| 0 <= q < pos_d implies !occurs_at(r, kd, q, true) by {
        lemma_occurs_agree(t, r, kd, q, true);
    }
    lemma_occurs_agree(t, r, kd, pos_d, true);
    lemma_find_from_at(r, kd, 0, pos_d, true);
    assert(r.subrange(pos_d + 8, pos_d + 11) =~= t.subrange(pos_d + 8, pos_d + 11));
    assert(r[pos_d + 11] == t[pos_d + 11]);
    lemma_yes_value_at(r, pos_d + 8);
}

/// Replacing the value of an `AUTOSELECT` attribute that ends (at a comma)
/// before `DEFAULT=YES` starts keeps `DEFAULT=YES`, shifted.
proof fn lemma_default_kept_when_autoselect_before(t: Seq<char>, pos_d: int, pos_a: int)
    requires
        default_yes_at(t, pos_d),
        find_ignore_case(t, attribute_key(autoselect_attr())) == Some(pos_a),
        occurs_at(t, attribute_key(autoselect_attr()), pos_a, true),
        pos_a + 11 <= t.len(),
        value_end(t, pos_a + 11) <= pos_d,
    ensures
        attribute_value(with_attribute(t, autoselect_attr(), yes_value()), default_attr()) == Some(yes_value()),
{
    lemma_forced_texts_comma_free();
    lemma_upper_codes();
    let kd = attribute_key(default_attr());
    let yes = yes_value();
    let s_a = pos_a + 11;
    let e_a = value_end(t, s_a);
    lemma_find_char_from_bounds(t, ',', s_a);
    let r = with_attribute(t, autoselect_attr(), yes);
    assert(r == t.take(s_a) + yes + t.skip(e_a));
    assert(e_a < t.len());
    assert(t[e_a] == ',');
    let d = s_a + 3 - e_a;
    assert(r.len() == t.len() + d);
    assert forall|m: int| e_a <= m < t.len() implies r[m + d] == #[trigger] t[m] by {
        assert(r[m + d] == t.skip(e_a)[m - e_a]);
    }
    assert(r[s_a + 3] == ',');
    assert forall|q: int| 0 <= q < pos_d + d implies !occurs_at(r, kd, q, true) by {
        if q + 8 <= s_a {
            lemma_occurs_agree(t, r, kd, q, true);
        } else if q <= s_a + 3 && s_a + 3 < q + 8 {
            lemma_no_occurrence_over_comma(r, kd, q, s_a + 3);
        } else if q < s_a {
            assert(r[q + 7] == yes[q + 7 - s_a]);
            lemma_no_occurrence_mismatch(r, kd, q, 7);
        } else {
            let qt = q - d;
            lemma_occurs_shift(t, r, kd, qt, d, true);
        }
    }
    lemma_occurs_shift(t, r, kd, pos_d, d, true);
    lemma_find_from_at(r, kd, 0, pos_d + d, true);
    let sr = pos_d + 8 + d;
    assert(r.subrange(sr, sr + 3) =~= t.subrange(pos_d + 8, pos_d + 11));
    if pos_d + 11 < t.len() {
        assert(r[sr + 3] == t[pos_d + 11]);
    }
    lemma_yes_value_at(r, sr);
}

/// Inserting `,AUTOSELECT=YES` before the first comma keeps `DEFAULT=YES`.
proof fn lemma_default_kept_when_autoselect_inserted(t: Seq<char>, pos_d: int)
    requires
        default_yes_at(t, pos_d),
        find_ignore_case(t, attribute_key(autoselect_attr())) is None,
    ensures
        attribute_value(with_attribute(t, autoselect_attr(), yes_value()), default_attr()) == Some(yes_value()),
{
    lemma_forced_texts_comma_free();
    lemma_upper_codes();
    let kd = attribute_key(default_attr());
    let ka = attribute_key(autoselect_attr());
    let yes = yes_value();
    let r = with_attribute(t, autoselect_attr(), yes);
    lemma_find_char_from_bounds(t, ',', 0);
    match find_char(t, ',') {
        Some(p) => {
            assert(r == t.take(p) + seq![','] + ka + yes + t.skip(p));
            if pos_d < p {
                assert(pos_d + 8 <= p) by {
                    if pos_d + 8 > p {
                        lemma_no_occurrence_over_comma(t, kd, pos_d, p);
                    }
                }
                assert(pos_d + 11 == p) by {
                    if pos_d + 11 < p {
                        assert(t[pos_d + 11] == ',');
                    }
                    if pos_d + 11 > p {
                        assert(t.subrange(pos_d + 8, pos_d + 11)[p - pos_d - 8] == t[p]);
                    }
                }
                assert forall|q: int| 0 <= q < pos_d implies !occurs_at(r, kd, q, true) by {
                    lemma_occurs_agree(t, r, kd, q, true);
                }
                lemma_occurs_agree(t, r, kd, pos_d, true);
                lemma_find_from_at(r, kd, 0, pos_d, true);
                assert(r.subrange(pos_d + 8, pos_d + 11) =~= t.subrange(pos_d + 8, pos_d + 11));
                assert(r[p] == ',');
                lemma_yes_value_at(r, pos_d + 8);
            } else {
                assert(pos_d != p) by {
                    if pos_d == p {
                        lemma_no_occurrence_over_comma(t, kd, pos_d, p);
                    }
                }
                let d = 15int;
                assert forall|m: int| p <= m < t.len() implies r[m + d] == #[trigger] t[m] by {
                    assert(r[m + d] == t.skip(p)[m - p]);
                }
                assert(r[p] == ',');
                assert(r[p + 15] == ',');
                assert forall|q: int| 0 <= q < pos_d + d implies !occurs_at(r, kd, q, true) by {
                    if q + 8 <= p {
                        lemma_occurs_agree(t, r, kd, q, true);
                    } else if q <= p {
                        lemma_no_occurrence_over_comma(r, kd, q, p);
                    } else if q + 8 > p + 15 && q <= p + 15 {
                        lemma_no_occurrence_over_comma(r, kd, q, p + 15);
                    } else if q <= p + 7 {
                        assert(r[q] == ka[q - p - 1]);
                        assert(ka[q - p - 1] == autoselect_attr()[q - p - 1]);
                        lemma_no_occurrence_mismatch(r, kd, q, 0);
                    } else {
                        let qt = q - d;
                        lemma_occurs_shift(t, r, kd, qt, d, true);
                    }
                }
                lemma_occurs_shift(t, r, kd, pos_d, d, true);
                lemma_find_from_at(r, kd, 0, pos_d + d, true);
                let sr = pos_d + 8 + d;
                assert(r.subrange(sr, sr + 3) =~= t.subrange(pos_d + 8, pos_d + 11));
                if pos_d + 11 < t.len() {
                    assert(r[sr + 3] == t[pos_d + 11]);
                }
                lemma_yes_value_at(r, sr);
            }
        },
        None => {
            let n = t.len() as int;
            assert(r == t + seq![','] + ka + yes);
            assert forall|q: int| 0 <= q < pos_d implies !occurs_at(r, kd, q, true) by {
                lemma_occurs_agree(t, r, kd, q, true);
            }
            lemma_occurs_agree(t, r, kd, pos_d, true);
            lemma_find_from_at(r, kd, 0, pos_d, true);
            assert(pos_d + 11 == n) by {
                if pos_d + 11 < n {
                    assert(t[pos_d + 11] == ',');
                }
            }
            assert(r.subrange(pos_d + 8, pos_d + 11) =~= t.subrange(pos_d + 8, pos_d + 11));
            assert(r[n] == ',');
            lemma_yes_value_at(r, pos_d + 8);
        },
    }
}

/// After forcing, the line's first `DEFAULT` attribute is `YES`, for every line
/// where setting `AUTOSELECT` does not overwrite `DEFAULT=YES`: that is, where,
/// once `DEFAULT` is set, the first `AUTOSELECT` attribute and the first
/// `DEFAULT` attribute do not overlap.
pub proof fn lemma_autoselected_default(line: Seq<char>)
    requires
        spans_apart(
            with_attribute(line, default_attr(), yes_value()),
            default_attr(),
            autoselect_attr(),
        ),
    ensures
        attribute_value(autoselected(line), default_attr()) == Some(yes_value()),
{
    lemma_forced_texts_comma_free();
    let t = with_attribute(line, default_attr(), yes_value());
    lemma_with_attribute_value(line, default_attr(), yes_value());
    let pos_d = lemma_default_yes_shape(t);
    let ka = attribute_key(autoselect_attr());
    lemma_find_from_bounds(t, ka, 0, true);
    match find_ignore_case(t, ka) {
        Some(pos_a) => {
            let e_a = value_end(t, pos_a + 11);
            lemma_find_char_from_bounds(t, ',', pos_a + 11);
            if pos_d + 11 <= pos_a {
                lemma_default_kept_when_autoselect_after(t, pos_d, pos_a);
            } else {
                assert(e_a <= pos_d);
                lemma_default_kept_when_autoselect_before(t, pos_d, pos_a);
            }
        },
        None => {
            lemma_default_kept_when_autoselect_inserted(t, pos_d);
        },
    }
}

/// Setting an attribute adds no line feed when the line, the name and the value
/// hold none.
pub proof fn lemma_with_attribute_newline_free(s: Seq<char>, attr: Seq<char>, val: Seq<char>)
    requires
        newline_free(s),
        newline_free(attr),
        newline_free(val),
    ensures
        newline_free(with_attribute(s, attr, val)),
{
    let key = attribute_key(attr);
    assert(newline_free(key)) by {
        assert forall|i: int| 0 <= i < key.len() implies key[i] != '\n' by {
            if i < attr.len() {
                assert(key[i] == attr[i]);
            }
        }
    }
    lemma_find_from_bounds(s, key, 0, true);
    lemma_find_char_from_bounds(s, ',', 0);
    let r = with_attribute(s, attr, val);
    match find_ignore_case(s, key) {
        Some(pos) => {
            let start = pos + key.len();
            let end = value_end(s, start);
            lemma_find_char_from_bounds(s, ',', start);
            let a = s.take(start);
            let b = s.skip(end);
            assert(r == a + val + b);
            assert forall|i: int| 0 <= i < r.len() implies r[i] != '\n' by {
                if i < a.len() {
                    assert(r[i] == s[i]);
                } else if i < a.len() + val.len() {
                    assert(r[i] == val[i - a.len()]);
                } else {
                    assert(r[i] == s[end + (i - a.len() - val.len())]);
                }
            }
        },
        None => match find_char(s, ',') {
            Some(p) => {
                let a = s.take(p) + seq![','] + key + val;
                assert(r == a + s.skip(p));
                assert forall|i: int| 0 <= i < r.len() implies r[i] != '\n' by {
                    if i < p {
                        assert(r[i] == s[i]);
                    } else if i == p {
                    } else if i < p + 1 + key.len() {
                        assert(r[i] == key[i - p - 1]);
                    } else if i < a.len() {
                        assert(r[i] == val[i - p - 1 - key.len()]);
                    } else {
                        assert(r[i] == s[p + (i - a.len())]);
                    }
                }
            },
            None => {
                assert forall|i: int| 0 <= i < r.len() implies r[i] != '\n' by {
                    let n = s.len() as int;
                    if i < n {
                        assert(r[i] == s[i]);
                    } else if i == n {
                    } else if i < n + 1 + key.len() {
                        assert(r[i] == key[i - n - 1]);
                    } else {
                        assert(r[i] == val[i - n - 1 - key.len()]);
                    }
                }
            },
        },
    }
}

/// Forcing subtitle selection adds no line feed.
pub proof fn lemma_autoselected_newline_free(line: Seq<char>)
    requires
        newline_free(line),
    ensures
        newline_free(autoselected(line)),
{
    assert(newline_free(default_attr()));
    assert(newline_free(autoselect_attr()));
    assert(newline_free(yes_value()));
    lemma_with_attribute_newline_free(line, default_attr(), yes_value());
    lemma_with_attribute_newline_free(
        with_attribute(line, default_attr(), yes_value()),
        autoselect_attr(),
        yes_value(),
    );
}

/// Forcing subtitle selection twice gives the same line as forcing it once, for
/// every line where, once `DEFAULT` is set, the first `DEFAULT` and `AUTOSELECT`
/// attributes do not overlap.
pub proof fn lemma_autoselected_idempotent(line: Seq<char>)
    requires
        spans_apart(
            with_attribute(line, default_attr(), yes_value()),
            default_attr(),
            autoselect_attr(),
        ),
    ensures
        autoselected(autoselected(line)) == autoselected(line),
{
    let r = autoselected(line);
    lemma_autoselected_default(line);
    lemma_autoselected_value(line);
    lemma_with_attribute_keeps(r, default_attr(), yes_value());
    lemma_with_attribute_keeps(r, autoselect_attr(), yes_value());
}

/// `line` with attribute `attr` set to `val` (see `with_attribute`).
pub fn set_attribute_chars(line: &[char], attr: &[char], val: &[char]) -> (r: Vec<char>)
    ensures
        r@ == with_attribute(line@, attr@, val@),
{
    let mut key: Vec<char> = Vec::new();
    push_all(&mut key, attr);
    key.push('=');
    assert(key@ == attribute_key(attr@));
    let mut out: Vec<char> = Vec::new();
    match find_from_exec(line, key.as_slice(), 0, true) {
        Some(pos) => {
            proof {
                lemma_find_from_bounds(line@, key@, 0, true);
                assert(pos + key@.len() <= line@.len());
            }
            let n = line.len();
            let start = pos + key.len();
            let end = match find_char_from_exec(line, ',', start) {
                Some(e) => e,
                None => line.len(),
            };
            proof {
                lemma_find_char_from_bounds(line@, ',', start as int);
            }
            push_range(&mut out, line, 0, start);
            push_all(&mut out, val);
            push_range(&mut out, line, end, line.len());
            assert(out@ =~= with_attribute(line@, attr@, val@));
        },
        None => {
            match find_char_from_exec(line, ',', 0) {
                Some(p) => {
                    proof {
                        lemma_find_char_from_bounds(line@, ',', 0);
                    }
                    push_range(&mut out, line, 0, p);
                    out.push(',');
                    push_all(&mut out, key.as_slice());
                    push_all(&mut out, val);
                    push_range(&mut out, line, p, line.len());
                    assert(out@ =~= with_attribute(line@, attr@, val@));
                },
                None => {
                    push_all(&mut out, line);
                    out.push(',');
                    push_all(&mut out, key.as_slice());
                    push_all(&mut out, val);
                    assert(out@ =~= with_attribute(line@, attr@, val@));
                },
            }
        },
    }
    out
}

/// Sets attribute `attr` of an HLS tag line to `value`: the value of the first
/// `attr=` (name matched ignoring ASCII case) is replaced up to the next comma;
/// without one, `,attr=value` is inserted before the first comma, or appended.
pub fn set_attribute(line: &str, attr: &str, value: &str) -> (r: String)
    ensures
        r@ == with_attribute(line@, attr@, value@),
{
    let l = chars_of(line);
    let a = chars_of(attr);
    let v = chars_of(value);
    let out = set_attribute_chars(l.as_slice(), a.as_slice(), v.as_slice());
    string_from_chars(out.as_slice())
}

/// `DEFAULT=YES` and then `AUTOSELECT=YES` forced onto a line held as characters.
pub fn autoselect_chars(line: &[char]) -> (r: Vec<char>)
    ensures
        r@ == autoselected(line@),
{
    let default_name = vec!['D', 'E', 'F', 'A', 'U', 'L', 'T'];
    let autoselect_name = vec!['A', 'U', 'T', 'O', 'S', 'E', 'L', 'E', 'C', 'T'];
    let yes = vec!['Y', 'E', 'S'];
    assert(default_name@ == default_attr());
    assert(autoselect_name@ == autoselect_attr());
    assert(yes@ == yes_value());
    let first = set_attribute_chars(line, default_name.as_slice(), yes.as_slice());
    set_attribute_chars(first.as_slice(), autoselect_name.as_slice(), yes.as_slice())
}

/// Forces `DEFAULT=YES` and `AUTOSELECT=YES` on an `#EXT-X-MEDIA:TYPE=SUBTITLES`
/// line, so that the receiver enables the subtitle track without user action.
pub fn force_subtitle_autoselect(line: &str) -> (r: String)
    ensures
        r@ == autoselected(line@),
{
    let l = chars_of(line);
    let out = autoselect_chars(l.as_slice());
    string_from_chars(out.as_slice())
}

} // verus!
