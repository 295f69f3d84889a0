//! Rewriting an HLS playlist so that every segment, playlist and key URI is
//! fetched through the local proxy, and subtitle tracks are selected by default.

use vstd::prelude::*;
use crate::attributes::{
    autoselect_chars, autoselected, lemma_autoselected_newline_free, lemma_find_char_from_at,
    lemma_find_char_from_none,
};
use crate::links::{
    lemma_proxy_link_newline_free, lemma_proxy_link_query, proxy_link, proxy_path, query_decoded,
    resolve_through_proxy, resolved_uri,
};
use vstd::utf8::encode_utf8;
use crate::text::{
    chars_of, contains, find_char, find_char_from, newline_free, find_char_from_exec, find_from, find_from_exec,
    lemma_find_char_from_bounds, lemma_find_from_bounds, push_all, push_range, string_from_chars,
};

verus! {

broadcast use vstd::string::group_string_axioms;

/// The marker that opens a quoted URI attribute: `URI="`.
pub open spec fn uri_marker() -> Seq<char> {
    seq!['U', 'R', 'I', '=', '"']
}

/// `line[i..]` with the value of every `URI="..."` replaced by its proxy link.
/// A marker whose closing quote is missing leaves the rest of the line unchanged.
pub open spec fn uris_rewritten_from(
    line: Seq<char>,
    i: int,
    base_url: Seq<char>,
    proxy_base: Seq<char>,
) -> Seq<char>
    decreases line.len() - i,
{
    if i < 0 || i > line.len() {
        Seq::empty()
    } else {
        match find_from(line, uri_marker(), i, false) {
            None => line.subrange(i, line.len() as int),
            Some(p) => {
                let v = p + 5;
                match find_char_from(line, '"', v) {
                    None => line.subrange(i, line.len() as int),
                    Some(e) => {
                        proof {
                            lemma_find_from_bounds(line, uri_marker(), i, false);
                            lemma_find_char_from_bounds(line, '"', v);
                        }
                        line.subrange(i, v) + proxy_link(
                            proxy_base,
                            resolved_uri(base_url, line.subrange(v, e)),
                        ) + seq!['"'] + uris_rewritten_from(line, e + 1, base_url, proxy_base)
                    },
                }
            },
        }
    }
}

/// `line` with the value of every `URI="..."` replaced by its proxy link.
pub open spec fn uris_rewritten(line: Seq<char>, base_url: Seq<char>, proxy_base: Seq<char>) -> Seq<char> {
    uris_rewritten_from(line, 0, base_url, proxy_base)
}

/// `TYPE=SUBTITLES`
pub open spec fn subtitles_type() -> Seq<char> {
    seq!['T', 'Y', 'P', 'E', '=', 'S', 'U', 'B', 'T', 'I', 'T', 'L', 'E', 'S']
}

/// Unicode white space (the `White_Space` property, which `char::is_whitespace` and
/// `str::trim` use).
pub open spec fn is_white_space(c: char) -> bool {
    let u = c as u32;
    (0x09 <= u && u <= 0x0d) || u == 0x20 || u == 0x85 || u == 0xa0 || u == 0x1680 || (0x2000 <= u
        && u <= 0x200a) || u == 0x2028 || u == 0x2029 || u == 0x202f || u == 0x205f || u == 0x3000
}

/// A line that is empty once trimmed.
pub open spec fn is_blank(line: Seq<char>) -> bool {
    forall|i: int| 0 <= i < line.len() ==> #[trigger] is_white_space(line[i])
}

/// How one playlist line is rewritten: blank lines stay; tag lines (starting with
/// `#`) get their `URI="..."` values proxied, and subtitle media tags are forced
/// to `DEFAULT=YES,AUTOSELECT=YES`; every other line is a URI and is proxied.
pub open spec fn rewritten_line(line: Seq<char>, base_url: Seq<char>, proxy_base: Seq<char>) -> Seq<char> {
    if is_blank(line) {
        line
    } else if line[0] == '#' {
        let t = uris_rewritten(line, base_url, proxy_base);
        if contains(t, subtitles_type()) {
            autoselected(t)
        } else {
            t
        }
    } else {
        proxy_link(proxy_base, resolved_uri(base_url, line))
    }
}

/// A line without the carriage return that ended it.
pub open spec fn strip_cr(line: Seq<char>) -> Seq<char> {
    if line.len() > 0 && line.last() == '\r' {
        line.drop_last()
    } else {
        line
    }
}

/// The lines of `s[i..]`, as `str::lines` gives them: split at `\n`, a `\r`
/// before the `\n` dropped, and no empty line after a final `\n`.
pub open spec fn lines_from(s: Seq<char>, i: int) -> Seq<Seq<char>>
    decreases s.len() - i,
{
    if i < 0 || i >= s.len() {
        Seq::empty()
    } else {
        match find_char_from(s, '\n', i) {
            None => seq![s.subrange(i, s.len() as int)],
            Some(j) => {
                proof {
                    lemma_find_char_from_bounds(s, '\n', i);
                }
                seq![strip_cr(s.subrange(i, j))] + lines_from(s, j + 1)
            },
        }
    }
}

/// The lines of `s`, as `str::lines` gives them.
pub open spec fn lines(s: Seq<char>) -> Seq<Seq<char>> {
    lines_from(s, 0)
}

/// Lines joined with `\n` between them.
pub open spec fn join_lines(ls: Seq<Seq<char>>) -> Seq<char>
    decreases ls.len(),
{
    if ls.len() == 0 {
        Seq::empty()
    } else if ls.len() == 1 {
        ls[0]
    } else {
        join_lines(ls.drop_last()) + seq!['\n'] + ls.last()
    }
}

/// Each line rewritten.
pub open spec fn rewritten_lines(
    ls: Seq<Seq<char>>,
    base_url: Seq<char>,
    proxy_base: Seq<char>,
) -> Seq<Seq<char>> {
    ls.map_values(|l: Seq<char>| rewritten_line(l, base_url, proxy_base))
}

/// A playlist body with every line rewritten, joined with `\n`.
pub open spec fn rewritten_playlist(body: Seq<char>, base_url: Seq<char>, proxy_base: Seq<char>) -> Seq<char> {
    join_lines(rewritten_lines(lines(body), base_url, proxy_base))
}

/// A tag line without any `URI="` passes through unchanged.
pub proof fn lemma_tag_without_uri_unchanged(line: Seq<char>, base_url: Seq<char>, proxy_base: Seq<char>)
    requires
        !contains(line, uri_marker()),
    ensures
        uris_rewritten(line, base_url, proxy_base) == line,
{
    assert(line.subrange(0, line.len() as int) =~= line);
}

/// Blank lines and lines that are neither blank nor tags are rewritten as the
/// playlist rules say: every URI line becomes a proxy link for the URI resolved
/// against the playlist's URL, and blank lines are kept.
pub proof fn lemma_every_uri_line_proxied(body: Seq<char>, base_url: Seq<char>, proxy_base: Seq<char>, i: int)
    requires
        0 <= i < lines(body).len(),
    ensures
        rewritten_lines(lines(body), base_url, proxy_base).len() == lines(body).len(),
        is_blank(lines(body)[i]) ==> rewritten_lines(lines(body), base_url, proxy_base)[i] == lines(body)[i],
        !is_blank(lines(body)[i]) && lines(body)[i][0] != '#' ==> rewritten_lines(
            lines(body),
            base_url,
            proxy_base,
        )[i] == proxy_link(proxy_base, resolved_uri(base_url, lines(body)[i])),
{
}

/// `s` split at every `\n`, as `str::split('\n')` gives it: the text before the
/// first line feed, then the pieces of the rest (a final `\n` gives a last, empty piece).
pub open spec fn split_newlines(s: Seq<char>) -> Seq<Seq<char>>
    decreases s.len(),
{
    match find_char(s, '\n') {
        None => seq![s],
        Some(j) => {
            proof {
                lemma_find_char_from_bounds(s, '\n', 0);
            }
            seq![s.take(j)] + split_newlines(s.skip(j + 1))
        },
    }
}

/// Splitting `a`, a line feed, then `b` gives the pieces of `a` followed by those of `b`.
pub proof fn lemma_split_concat(a: Seq<char>, b: Seq<char>)
    ensures
        split_newlines(a + seq!['\n'] + b) == split_newlines(a) + split_newlines(b),
    decreases a.len(),
{
    let s = a + seq!['\n'] + b;
    lemma_find_char_from_bounds(a, '\n', 0);
    match find_char(a, '\n') {
        Some(j) => {
            assert forall|q: int| 0 <= q < j implies s[q] != '\n' by {
                assert(s[q] == a[q]);
            }
            lemma_find_char_from_at(s, '\n', 0, j);
            assert(s.take(j) =~= a.take(j));
            assert(s.skip(j + 1) =~= a.skip(j + 1) + seq!['\n'] + b);
            lemma_split_concat(a.skip(j + 1), b);
            assert(split_newlines(s) == seq![a.take(j)] + (split_newlines(a.skip(j + 1)) + split_newlines(b)));
            assert(split_newlines(s) =~= split_newlines(a) + split_newlines(b));
        },
        None => {
            let n = a.len() as int;
            assert forall|q: int| 0 <= q < n implies s[q] != '\n' by {
                assert(s[q] == a[q]);
            }
            lemma_find_char_from_at(s, '\n', 0, n);
            assert(s.take(n) =~= a);
            assert(s.skip(n + 1) =~= b);
            assert(split_newlines(s) =~= split_newlines(a) + split_newlines(b));
        },
    }
}

/// Splitting lines that hold no line feed, once joined with `\n`, gives them back.
pub proof fn lemma_split_join(ls: Seq<Seq<char>>)
    requires
        ls.len() > 0,
        forall|i: int| 0 <= i < ls.len() ==> newline_free(#[trigger] ls[i]),
    ensures
        split_newlines(join_lines(ls)) == ls,
    decreases ls.len(),
{
    if ls.len() == 1 {
        let x = ls[0];
        assert(newline_free(x));
        lemma_find_char_from_none(x, '\n', 0);
        assert(split_newlines(x) == seq![x]);
        assert(ls =~= seq![x]);
    } else {
        let init = ls.drop_last();
        let last = ls.last();
        assert(newline_free(ls[ls.len() - 1]));
        assert forall|i: int| 0 <= i < init.len() implies newline_free(#[trigger] init[i]) by {
            assert(init[i] == ls[i]);
        }
        lemma_split_join(init);
        lemma_split_concat(join_lines(init), last);
        lemma_find_char_from_none(last, '\n', 0);
        assert(split_newlines(last) == seq![last]);
        assert(init + seq![last] =~= ls);
    }
}

/// The lines of a text hold no line feed.
pub proof fn lemma_lines_newline_free(s: Seq<char>, i: int)
    ensures
        forall|k: int| 0 <= k < lines_from(s, i).len() ==> newline_free(#[trigger] lines_from(s, i)[k]),
    decreases s.len() - i,
{
    if 0 <= i < s.len() {
        lemma_find_char_from_bounds(s, '\n', i);
        match find_char_from(s, '\n', i) {
            None => {
                let x = s.subrange(i, s.len() as int);
                assert forall|q: int| 0 <= q < x.len() implies x[q] != '\n' by {
                    assert(x[q] == s[i + q]);
                }
            },
            Some(j) => {
                lemma_lines_newline_free(s, j + 1);
                let piece = s.subrange(i, j);
                assert(newline_free(piece)) by {
                    assert forall|q: int| 0 <= q < piece.len() implies piece[q] != '\n' by {
                        assert(piece[q] == s[i + q]);
                    }
                }
                let x = strip_cr(piece);
                assert(newline_free(x)) by {
                    assert forall|q: int| 0 <= q < x.len() implies x[q] != '\n' by {
                        assert(x[q] == piece[q]);
                    }
                }
                let ls = lines_from(s, i);
                assert(ls == seq![x] + lines_from(s, j + 1));
                assert forall|k: int| 0 <= k < ls.len() implies newline_free(#[trigger] ls[k]) by {
                    if k > 0 {
                        assert(ls[k] == lines_from(s, j + 1)[k - 1]);
                    }
                }
            },
        }
    }
}

/// Rewriting the `URI="..."` values of a line adds no line feed when the line and
/// the proxy's base URL hold none.
pub proof fn lemma_uris_rewritten_newline_free(
    line: Seq<char>,
    i: int,
    base_url: Seq<char>,
    proxy_base: Seq<char>,
)
    requires
        newline_free(line),
        newline_free(proxy_base),
    ensures
        newline_free(uris_rewritten_from(line, i, base_url, proxy_base)),
    decreases line.len() - i,
{
    let r = uris_rewritten_from(line, i, base_url, proxy_base);
    if 0 <= i <= line.len() {
        lemma_find_from_bounds(line, uri_marker(), i, false);
        match find_from(line, uri_marker(), i, false) {
            None => {
                assert forall|q: int| 0 <= q < r.len() implies r[q] != '\n' by {
                    assert(r[q] == line[i + q]);
                }
            },
            Some(p) => {
                let v = p + 5;
                lemma_find_char_from_bounds(line, '"', v);
                match find_char_from(line, '"', v) {
                    None => {
                        assert forall|q: int| 0 <= q < r.len() implies r[q] != '\n' by {
                            assert(r[q] == line[i + q]);
                        }
                    },
                    Some(e) => {
                        let a = line.subrange(i, v);
                        let link = proxy_link(proxy_base, resolved_uri(base_url, line.subrange(v, e)));
                        let rest = uris_rewritten_from(line, e + 1, base_url, proxy_base);
                        lemma_proxy_link_newline_free(proxy_base, resolved_uri(base_url, line.subrange(v, e)));
                        lemma_uris_rewritten_newline_free(line, e + 1, base_url, proxy_base);
                        assert(r == a + link + seq!['"'] + rest);
                        assert forall|q: int| 0 <= q < r.len() implies r[q] != '\n' by {
                            if q < a.len() {
                                assert(r[q] == line[i + q]);
                            } else if q < a.len() + link.len() {
                                assert(r[q] == link[q - a.len()]);
                            } else if q == a.len() + link.len() {
                            } else {
                                assert(r[q] == rest[q - a.len() - link.len() - 1]);
                            }
                        }
                    },
                }
            },
        }
    }
}

/// A rewritten line holds no line feed when the line and the proxy's base URL hold none.
pub proof fn lemma_rewritten_line_newline_free(line: Seq<char>, base_url: Seq<char>, proxy_base: Seq<char>)
    requires
        newline_free(line),
        newline_free(proxy_base),
    ensures
        newline_free(rewritten_line(line, base_url, proxy_base)),
{
    if is_blank(line) {
    } else if line[0] == '#' {
        lemma_uris_rewritten_newline_free(line, 0, base_url, proxy_base);
        lemma_autoselected_newline_free(uris_rewritten(line, base_url, proxy_base));
    } else {
        lemma_proxy_link_newline_free(proxy_base, resolved_uri(base_url, line));
    }
}

/// The rewritten playlist, split at its line feeds, is the playlist's lines each
/// rewritten, in order, whenever the proxy's base URL holds no line feed (and the
/// playlist has at least one line).
pub proof fn lemma_output_lines(body: Seq<char>, base_url: Seq<char>, proxy_base: Seq<char>)
    requires
        newline_free(proxy_base),
        lines(body).len() > 0,
    ensures
        split_newlines(rewritten_playlist(body, base_url, proxy_base)) == rewritten_lines(
            lines(body),
            base_url,
            proxy_base,
        ),
{
    let ls = lines(body);
    let out = rewritten_lines(ls, base_url, proxy_base);
    lemma_lines_newline_free(body, 0);
    assert forall|i: int| 0 <= i < out.len() implies newline_free(#[trigger] out[i]) by {
        assert(newline_free(ls[i]));
        lemma_rewritten_line_newline_free(ls[i], base_url, proxy_base);
    }
    lemma_split_join(out);
}

/// The `i`-th line of the rewritten playlist, for an input line that is a URI
/// (neither blank nor a tag), is the proxy link of that URI resolved against the
/// playlist's URL, and the link's query decodes back to the resolved URI.
pub proof fn lemma_uri_line_in_output(body: Seq<char>, base_url: Seq<char>, proxy_base: Seq<char>, i: int)
    requires
        newline_free(proxy_base),
        0 <= i < lines(body).len(),
        !is_blank(lines(body)[i]),
        lines(body)[i][0] != '#',
    ensures
        split_newlines(rewritten_playlist(body, base_url, proxy_base))[i] == proxy_link(
            proxy_base,
            resolved_uri(base_url, lines(body)[i]),
        ),
        query_decoded(
            split_newlines(rewritten_playlist(body, base_url, proxy_base))[i].skip(
                (proxy_base.len() + proxy_path().len()) as int,
            ),
        ) == encode_utf8(resolved_uri(base_url, lines(body)[i])),
{
    lemma_output_lines(body, base_url, proxy_base);
    lemma_proxy_link_query(proxy_base, resolved_uri(base_url, lines(body)[i]));
}

/// Every tag line (non-blank, starting with `#`) comes out with its `URI="..."`
/// values proxied: as `uris_rewritten` of the line when that holds no
/// `TYPE=SUBTITLES`, and with subtitle selection forced on top of it otherwise.
/// No tag line comes out as it went in merely because it is not a subtitle line.
pub proof fn lemma_tag_line_rewritten(line: Seq<char>, base_url: Seq<char>, proxy_base: Seq<char>)
    requires
        !is_blank(line),
        line[0] == '#',
    ensures
        !contains(uris_rewritten(line, base_url, proxy_base), subtitles_type()) ==> rewritten_line(
            line,
            base_url,
            proxy_base,
        ) == uris_rewritten(line, base_url, proxy_base),
        contains(uris_rewritten(line, base_url, proxy_base), subtitles_type()) ==> rewritten_line(
            line,
            base_url,
            proxy_base,
        ) == autoselected(uris_rewritten(line, base_url, proxy_base)),
{
}

/// At each `URI="` of a tag line (from position `i` on), the text up to and
/// including the marker is kept, the quoted value `v` (closed by the next `"`)
/// is replaced by the proxy link of `v` resolved against the playlist's URL,
/// the closing quote follows, and the rest of the line is rewritten the same
/// way; a marker without a closing quote, or no marker, keeps the rest as it is.
pub proof fn lemma_uri_value_replaced(
    line: Seq<char>,
    i: int,
    base_url: Seq<char>,
    proxy_base: Seq<char>,
)
    requires
        0 <= i <= line.len(),
    ensures
        ({
            let out = uris_rewritten_from(line, i, base_url, proxy_base);
            match find_from(line, seq!['U', 'R', 'I', '=', '"'], i, false) {
                None => out == line.subrange(i, line.len() as int),
                Some(p) => match find_char_from(line, '"', p + 5) {
                    None => out == line.subrange(i, line.len() as int),
                    Some(e) => {
                        let link = proxy_link(proxy_base, resolved_uri(base_url, line.subrange(p + 5, e)));
                        &&& out.take(p + 5 - i) == line.subrange(i, p + 5)
                        &&& out.subrange(p + 5 - i, p + 5 - i + link.len()) == link
                        &&& out[p + 5 - i + link.len()] == '"'
                        &&& out.skip(p + 6 - i + link.len()) == uris_rewritten_from(
                            line,
                            e + 1,
                            base_url,
                            proxy_base,
                        )
                    },
                },
            }
        }),
{
    let out = uris_rewritten_from(line, i, base_url, proxy_base);
    assert(uri_marker() == seq!['U', 'R', 'I', '=', '"']);
    lemma_find_from_bounds(line, uri_marker(), i, false);
    match find_from(line, uri_marker(), i, false) {
        None => {},
        Some(p) => {
            lemma_find_char_from_bounds(line, '"', p + 5);
            match find_char_from(line, '"', p + 5) {
                None => {},
                Some(e) => {
                    let a = line.subrange(i, p + 5);
                    let link = proxy_link(proxy_base, resolved_uri(base_url, line.subrange(p + 5, e)));
                    let rest = uris_rewritten_from(line, e + 1, base_url, proxy_base);
                    assert(out == a + link + seq!['"'] + rest);
                    assert(out.take(p + 5 - i) =~= a);
                    assert(out.subrange(p + 5 - i, p + 5 - i + link.len()) =~= link);
                    assert(out.skip(p + 6 - i + link.len()) =~= rest);
                },
            }
        },
    }
}

/// Rewrites every `URI="..."` value of a tag line (held as characters).
#[verifier::rlimit(40)]
pub fn rewrite_tag_uris_chars(line: &[char], base_url: &str, proxy_base: &str) -> (r: Vec<char>)
    ensures
        r@ == uris_rewritten(line@, base_url@, proxy_base@),
{
    let marker = vec!['U', 'R', 'I', '=', '"'];
    assert(marker@ == uri_marker());
    let mut out: Vec<char> = Vec::new();
    let mut i: usize = 0;
    let n = line.len();
    while i <= n
        invariant
            n == line@.len(),
            marker@ == uri_marker(),
            i <= n,
            out@ + uris_rewritten_from(line@, i as int, base_url@, proxy_base@) == uris_rewritten(
                line@,
                base_url@,
                proxy_base@,
            ),
        decreases n + 1 - i,
    {
        let ghost rest = uris_rewritten_from(line@, i as int, base_url@, proxy_base@);
        match find_from_exec(line, marker.as_slice(), i, false) {
            None => {
                push_range(&mut out, line, i, n);
                return out;
            },
            Some(p) => {
                proof {
                    lemma_find_from_bounds(line@, uri_marker(), i as int, false);
                }
                let v = p + 5;
                match find_char_from_exec(line, '"', v) {
                    None => {
                        push_range(&mut out, line, i, n);
                        return out;
                    },
                    Some(e) => {
                        proof {
                            lemma_find_char_from_bounds(line@, '"', v as int);
                        }
                        let ghost before = out@;
                        push_range(&mut out, line, i, v);
                        let mut uri: Vec<char> = Vec::new();
                        push_range(&mut uri, line, v, e);
                        let link = resolve_through_proxy(uri.as_slice(), base_url, proxy_base);
                        push_all(&mut out, link.as_slice());
                        out.push('"');
                        assert(rest == line@.subrange(i as int, v as int) + link@ + seq!['"']
                            + uris_rewritten_from(line@, e + 1, base_url@, proxy_base@));
                        assert(out@ == before + line@.subrange(i as int, v as int) + link@ + seq!['"']);
                        i = e + 1;
                    },
                }
            },
        }
    }
    out
}

/// Rewrites every `URI="..."` value inside an HLS tag line (such as `#EXT-X-MAP`
/// or `#EXT-X-KEY`) into a link through the proxy; the reference is resolved
/// against `base_url` first. A marker without a closing quote leaves the rest
/// of the line unchanged.
pub fn rewrite_tag_uris(line: &str, base_url: &str, proxy_base: &str) -> (r: String)
    ensures
        r@ == uris_rewritten(line@, base_url@, proxy_base@),
{
    let l = chars_of(line);
    let out = rewrite_tag_uris_chars(l.as_slice(), base_url, proxy_base);
    string_from_chars(out.as_slice())
}

/// Whether `c` is Unicode white space.
pub fn white_space(c: char) -> (b: bool)
    ensures
        b == is_white_space(c),
{
    let u = c as u32;
    (0x09 <= u && u <= 0x0d) || u == 0x20 || u == 0x85 || u == 0xa0 || u == 0x1680 || (0x2000 <= u
        && u <= 0x200a) || u == 0x2028 || u == 0x2029 || u == 0x202f || u == 0x205f || u == 0x3000
}

/// Whether `line` is empty once trimmed.
pub fn blank(line: &[char]) -> (b: bool)
    ensures
        b == is_blank(line@),
{
    let mut i: usize = 0;
    while i < line.len()
        invariant
            i <= line@.len(),
            forall|k: int| 0 <= k < i ==> #[trigger] is_white_space(line@[k]),
        decreases line@.len() - i,
    {
        if !white_space(line[i]) {
            return false;
        }
        i = i + 1;
    }
    true
}

/// One playlist line rewritten (see `rewritten_line`).
pub fn rewrite_line(line: &[char], base_url: &str, proxy_base: &str) -> (r: Vec<char>)
    ensures
        r@ == rewritten_line(line@, base_url@, proxy_base@),
{
    if blank(line) {
        let mut out: Vec<char> = Vec::new();
        push_all(&mut out, line);
        assert(out@ == line@);
        out
    } else if line[0] == '#' {
        let t = rewrite_tag_uris_chars(line, base_url, proxy_base);
        let needle = vec!['T', 'Y', 'P', 'E', '=', 'S', 'U', 'B', 'T', 'I', 'T', 'L', 'E', 'S'];
        assert(needle@ == subtitles_type());
        match find_from_exec(t.as_slice(), needle.as_slice(), 0, false) {
            Some(_) => autoselect_chars(t.as_slice()),
            None => t,
        }
    } else {
        resolve_through_proxy(line, base_url, proxy_base)
    }
}

/// Joining one more line onto joined lines.
proof fn lemma_join_push(ls: Seq<Seq<char>>, x: Seq<char>)
    ensures
        join_lines(ls.push(x)) == if ls.len() == 0 {
            x
        } else {
            join_lines(ls) + seq!['\n'] + x
        },
{
    assert(ls.push(x).drop_last() =~= ls);
    if ls.len() == 0 {
        assert(ls.push(x)[0] == x);
    }
}

/// Rewrites an HLS playlist so that every URI goes through the proxy at
/// `proxy_base`: each line as `rewritten_line` says, relative references resolved
/// against `base_url` (the playlist's own URL), lines joined with `\n`.
#[verifier::rlimit(40)]
pub fn rewrite_m3u8(body: &str, base_url: &str, proxy_base: &str) -> (r: String)
    ensures
        r@ == rewritten_playlist(body@, base_url@, proxy_base@),
{
    let s = chars_of(body);
    let n = s.len();
    let mut out: Vec<char> = Vec::new();
    let ghost mut done: Seq<Seq<char>> = Seq::empty();
    let mut i: usize = 0;
    while i < n
        invariant
            n == s@.len(),
            s@ == body@,
            i <= n,
            lines(s@) == done + lines_from(s@, i as int),
            i == 0 <==> done.len() == 0,
            out@ == join_lines(rewritten_lines(done, base_url@, proxy_base@)),
        decreases n - i,
    {
        let found = find_char_from_exec(s.as_slice(), '\n', i);
        proof {
            lemma_find_char_from_bounds(s@, '\n', i as int);
        }
        let (end, next) = match found {
            Some(j) => {
                if j > i && s[j - 1] == '\r' {
                    (j - 1, j + 1)
                } else {
                    (j, j + 1)
                }
            },
            None => (n, n),
        };
        let mut line: Vec<char> = Vec::new();
        push_range(&mut line, s.as_slice(), i, end);
        let ghost rest = lines_from(s@, next as int);
        proof {
            match found {
                Some(j) => {
                    let piece = s@.subrange(i as int, j as int);
                    if j > i && s@[j - 1] == '\r' {
                        assert(piece.drop_last() =~= line@);
                    } else {
                        assert(piece =~= line@);
                    }
                    assert(strip_cr(piece) == line@);
                },
                None => {
                    assert(lines_from(s@, n as int) == Seq::<Seq<char>>::empty());
                    assert(seq![line@] + rest =~= seq![line@]);
                },
            }
            assert(lines_from(s@, i as int) == seq![line@] + rest);
        }
        let rewritten = rewrite_line(line.as_slice(), base_url, proxy_base);
        let ghost joined = out@;
        proof {
            lemma_join_push(rewritten_lines(done, base_url@, proxy_base@), rewritten@);
            assert(rewritten_lines(done.push(line@), base_url@, proxy_base@) =~= rewritten_lines(
                done,
                base_url@,
                proxy_base@,
            ).push(rewritten@));
        }
        if i > 0 {
            out.push('\n');
        }
        push_all(&mut out, rewritten.as_slice());
        proof {
            if i > 0 {
                assert(done.len() > 0);
            } else {
                assert(done.len() == 0);
            }
            assert(done.push(line@) + rest =~= done + (seq![line@] + rest));
            done = done.push(line@);
        }
        i = next;
    }
    proof {
        assert(lines_from(s@, i as int) == Seq::<Seq<char>>::empty());
        assert(done + Seq::<Seq<char>>::empty() =~= done);
    }
    string_from_chars(out.as_slice())
}

} // verus!
