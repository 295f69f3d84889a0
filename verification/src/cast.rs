//! Deciding how a stream is cast: its MIME type, the proxied URLs the receiver
//! fetches, and the subtitle track's language.

use vstd::prelude::*;
use crate::links::{proxy_link, proxy_url};
use crate::text::{
    chars_of, contains, find_char, find_char_from_exec, find_from_exec, lemma_find_char_from_bounds,
    push_range, rfind_char,
};

verus! {

broadcast use vstd::string::group_string_axioms;

/// Where the file name of a URL starts: after its last `/`.
pub open spec fn name_start(url: Seq<char>) -> int {
    match rfind_char(url, '/') {
        Some(i) => i + 1,
        None => 0,
    }
}

/// The part of `s` before the first `c` (all of `s` when it holds none).
pub open spec fn before_char(s: Seq<char>, c: char) -> Seq<char> {
    match find_char(s, c) {
        Some(i) => s.take(i),
        None => s,
    }
}

/// The language code in a subtitle URL's file name: the name up to its first
/// `.`, and that up to its first `-` (`.../spa-42.vtt` gives `spa`).
pub open spec fn language_code(url: Seq<char>) -> Seq<char> {
    before_char(before_char(url.skip(name_start(url)), '.'), '-')
}

/// The language tag the receiver is given for a code: three-letter codes of
/// common languages are mapped to two-letter tags, any other code is kept.
pub open spec fn language_tag(code: Seq<char>) -> Seq<char> {
    if code == "spa"@ {
        "es"@
    } else if code == "eng"@ {
        "en"@
    } else if code == "por"@ || code == "pt-BR"@ || code == "pt-PT"@ {
        "pt"@
    } else if code == "fra"@ {
        "fr"@
    } else if code == "deu"@ || code == "ger"@ {
        "de"@
    } else if code == "ita"@ {
        "it"@
    } else if code == "jpn"@ {
        "ja"@
    } else if code == "kor"@ {
        "ko"@
    } else if code == "zho"@ || code == "chi"@ || code == "zh"@ {
        "zh"@
    } else {
        code
    }
}

/// Whether two character sequences are equal.
pub fn chars_equal(a: &[char], b: &[char]) -> (r: bool)
    ensures
        r == (a@ == b@),
{
    if a.len() != b.len() {
        return false;
    }
    let mut i: usize = 0;
    while i < a.len()
        invariant
            a@.len() == b@.len(),
            i <= a@.len(),
            forall|k: int| 0 <= k < i ==> a@[k] == b@[k],
        decreases a@.len() - i,
    {
        if a[i] != b[i] {
            return false;
        }
        i = i + 1;
    }
    assert(a@ =~= b@);
    true
}

/// Whether the characters of `code` spell `word`.
fn is_code(code: &[char], word: &str) -> (r: bool)
    ensures
        r == (code@ == word@),
{
    let w = chars_of(word);
    chars_equal(code, w.as_slice())
}

/// The last position of `c` in `s`.
pub fn rfind_char_exec(s: &[char], c: char) -> (r: Option<usize>)
    ensures
        r matches Some(p) ==> rfind_char(s@, c) == Some(p as int),
        r is None ==> rfind_char(s@, c) is None,
{
    let mut i = s.len();
    assert(s@.take(i as int) =~= s@);
    while i > 0
        invariant
            i <= s@.len(),
            rfind_char(s@, c) == rfind_char(s@.take(i as int), c),
        decreases i,
    {
        let ghost t = s@.take(i as int);
        assert(t.last() == s@[i - 1]);
        if s[i - 1] == c {
            return Some(i - 1);
        }
        assert(t.drop_last() =~= s@.take(i - 1));
        i = i - 1;
    }
    None
}

/// The language of a subtitle file, from its URL's file name (see
/// `language_code` and `language_tag`); for example `spa-42.vtt` gives `es`.
pub fn subtitle_language(url: &str) -> (lang: &str)
    ensures
        lang@ == language_tag(language_code(url@)),
{
    let s = chars_of(url);
    let n = s.len();
    let start = match rfind_char_exec(s.as_slice(), '/') {
        Some(i) => {
            proof {
                lemma_rfind_char_bounds(s@, '/');
            }
            i + 1
        },
        None => 0,
    };
    let mut name: Vec<char> = Vec::new();
    push_range(&mut name, s.as_slice(), start, n);
    assert(name@ == url@.skip(name_start(url@)));
    proof {
        lemma_find_char_from_bounds(name@, '.', 0);
    }
    let stem_end = match find_char_from_exec(name.as_slice(), '.', 0) {
        Some(i) => i,
        None => name.len(),
    };
    let mut stem: Vec<char> = Vec::new();
    push_range(&mut stem, name.as_slice(), 0, stem_end);
    assert(stem@ =~= before_char(name@, '.'));
    proof {
        lemma_find_char_from_bounds(stem@, '-', 0);
    }
    let code_end = match find_char_from_exec(stem.as_slice(), '-', 0) {
        Some(i) => i,
        None => stem.len(),
    };
    let mut code: Vec<char> = Vec::new();
    push_range(&mut code, stem.as_slice(), 0, code_end);
    assert(code@ =~= language_code(url@));
    let c = code.as_slice();
    if is_code(c, "spa") {
        "es"
    } else if is_code(c, "eng") {
        "en"
    } else if is_code(c, "por") || is_code(c, "pt-BR") || is_code(c, "pt-PT") {
        "pt"
    } else if is_code(c, "fra") {
        "fr"
    } else if is_code(c, "deu") || is_code(c, "ger") {
        "de"
    } else if is_code(c, "ita") {
        "it"
    } else if is_code(c, "jpn") {
        "ja"
    } else if is_code(c, "kor") {
        "ko"
    } else if is_code(c, "zho") || is_code(c, "chi") || is_code(c, "zh") {
        "zh"
    } else {
        assert(url@.subrange(start as int, start + code_end) =~= code@);
        url.substring_char(start, start + code_end)
    }
}

/// What `rfind_char` reports lies in `s` and holds `c`.
pub proof fn lemma_rfind_char_bounds(s: Seq<char>, c: char)
    ensures
        rfind_char(s, c) matches Some(p) ==> 0 <= p < s.len() && s[p] == c,
    decreases s.len(),
{
    if s.len() > 0 && s.last() != c {
        lemma_rfind_char_bounds(s.drop_last(), c);
    }
}

/// The MIME type the receiver is told for a stream URL: HLS when the URL
/// mentions `.m3u8`, else DASH when it mentions `.mpd`, else MP4.
pub open spec fn content_type_for(url: Seq<char>) -> Seq<char> {
    if contains(url, ".m3u8"@) {
        "application/x-mpegURL"@
    } else if contains(url, ".mpd"@) {
        "application/dash+xml"@
    } else {
        "video/mp4"@
    }
}

/// Whether `needle` occurs in `haystack`.
pub fn contains_chars(haystack: &[char], needle: &[char]) -> (r: bool)
    ensures
        r == contains(haystack@, needle@),
{
    match find_from_exec(haystack, needle, 0, false) {
        Some(_) => true,
        None => false,
    }
}

/// The MIME type for a stream URL (see `content_type_for`).
pub fn stream_content_type(url: &str) -> (ct: &'static str)
    ensures
        ct@ == content_type_for(url@),
{
    let u = chars_of(url);
    let hls = chars_of(".m3u8");
    let dash = chars_of(".mpd");
    if contains_chars(u.as_slice(), hls.as_slice()) {
        "application/x-mpegURL"
    } else if contains_chars(u.as_slice(), dash.as_slice()) {
        "application/dash+xml"
    } else {
        "video/mp4"
    }
}

/// An external subtitle track to declare in the `LOAD` command.
pub struct SubtitleTrack {
    /// The subtitle file's proxy link.
    pub proxy_url: String,
    /// The track's language tag.
    pub language: String,
}

/// How a stream is cast.
pub struct CastPlan {
    /// The stream's MIME type.
    pub content_type: String,
    /// The stream's proxy link, which the receiver loads.
    pub proxy_url: String,
    /// The subtitle track, when the browser found a subtitle file.
    pub subtitle: Option<SubtitleTrack>,
}

/// Plans casting `url` through the proxy at `proxy_base`: the receiver loads the
/// stream's proxy link with the MIME type `content_type_for(url)`; a non-empty
/// `subtitle_url` adds a subtitle track with its own proxy link and the
/// language that its file name gives.
pub fn plan_cast(url: &str, proxy_base: &str, subtitle_url: &str) -> (plan: CastPlan)
    ensures
        plan.content_type@ == content_type_for(url@),
        plan.proxy_url@ == proxy_link(proxy_base@, url@),
        plan.subtitle is Some <==> subtitle_url@.len() > 0,
        plan.subtitle matches Some(t) ==> t.proxy_url@ == proxy_link(proxy_base@, subtitle_url@)
            && t.language@ == language_tag(language_code(subtitle_url@)),
{
    let content_type = String::from_str(stream_content_type(url));
    let link = proxy_url(proxy_base, url);
    let subtitle = if subtitle_url.is_empty() {
        None
    } else {
        Some(
            SubtitleTrack {
                proxy_url: proxy_url(proxy_base, subtitle_url),
                language: String::from_str(subtitle_language(subtitle_url)),
            },
        )
    };
    CastPlan { content_type, proxy_url: link, subtitle }
}

/// The last `/` of `dir/name` is the one before `name`, when `name` holds none.
proof fn lemma_rfind_before_name(dir: Seq<char>, name: Seq<char>)
    requires
        forall|i: int| 0 <= i < name.len() ==> name[i] != '/',
    ensures
        rfind_char(dir + seq!['/'] + name, '/') == Some(dir.len() as int),
    decreases name.len(),
{
    let s = dir + seq!['/'] + name;
    if name.len() > 0 {
        assert(s.last() == name.last());
        assert(s.drop_last() =~= dir + seq!['/'] + name.drop_last());
        lemma_rfind_before_name(dir, name.drop_last());
    }
}

/// A subtitle file `dir/CODE.ext` or `dir/CODE-rest.ext` (a code without `/`,
/// `.` or `-`) is labelled with the two-letter ISO 639-1 tag of a listed
/// three-letter code, and with the code itself otherwise.
pub proof fn lemma_subtitle_language_of_file(dir: Seq<char>, code: Seq<char>, sep: char, rest: Seq<char>)
    requires
        sep == '.' || sep == '-',
        forall|i: int| 0 <= i < code.len() ==> code[i] != '/' && code[i] != '.' && code[i] != '-',
        forall|i: int| 0 <= i < rest.len() ==> rest[i] != '/',
    ensures
        language_code(dir + seq!['/'] + code + seq![sep] + rest) == code,
        code == "spa"@ ==> language_tag(code) == "es"@,
        code == "eng"@ ==> language_tag(code) == "en"@,
        code == "por"@ ==> language_tag(code) == "pt"@,
        code == "fra"@ ==> language_tag(code) == "fr"@,
        code == "deu"@ ==> language_tag(code) == "de"@,
        code == "ger"@ ==> language_tag(code) == "de"@,
        code == "ita"@ ==> language_tag(code) == "it"@,
        code == "jpn"@ ==> language_tag(code) == "ja"@,
        code == "kor"@ ==> language_tag(code) == "ko"@,
        code == "zho"@ ==> language_tag(code) == "zh"@,
        code == "chi"@ ==> language_tag(code) == "zh"@,
{
    let name = code + seq![sep] + rest;
    let url = dir + seq!['/'] + code + seq![sep] + rest;
    assert(url =~= dir + seq!['/'] + name);
    lemma_rfind_before_name(dir, name);
    assert(url.skip(name_start(url)) =~= name);
    let stem = before_char(name, '.');
    if sep == '.' {
        assert forall|q: int| 0 <= q < code.len() implies name[q] != '.' by {
            assert(name[q] == code[q]);
        }
        crate::attributes::lemma_find_char_from_at(name, '.', 0, code.len() as int);
        assert(stem =~= code);
    } else {
        assert forall|q: int| 0 <= q < code.len() implies name[q] != '-' by {
            assert(name[q] == code[q]);
        }
        lemma_find_char_from_bounds(name, '.', 0);
        assert(stem.len() >= code.len()) by {
            if let Some(j) = find_char(name, '.') {
                if j < code.len() {
                    assert(name[j] == code[j]);
                }
                assert(name[code.len() as int] == '-');
            }
        }
        assert(stem.take(code.len() as int) =~= code) by {
            assert forall|q: int| 0 <= q < code.len() implies stem[q] == code[q] by {
                assert(stem[q] == name[q]);
                assert(name[q] == code[q]);
            }
        }
        assert(stem[code.len() as int] == '-') by {
            assert(stem[code.len() as int] == name[code.len() as int]);
        }
        crate::attributes::lemma_find_char_from_at(stem, '-', 0, code.len() as int);
    }
    crate::attributes::lemma_find_char_from_none(code, '-', 0);
    lemma_find_char_from_bounds(stem, '-', 0);
    reveal_strlit("spa");
    reveal_strlit("eng");
    reveal_strlit("por");
    reveal_strlit("pt-BR");
    reveal_strlit("pt-PT");
    reveal_strlit("fra");
    reveal_strlit("deu");
    reveal_strlit("ger");
    reveal_strlit("ita");
    reveal_strlit("jpn");
    reveal_strlit("kor");
    reveal_strlit("zho");
    reveal_strlit("chi");
    reveal_strlit("zh");
    reveal_strlit("es");
    reveal_strlit("en");
    reveal_strlit("pt");
    reveal_strlit("fr");
    reveal_strlit("de");
    reveal_strlit("it");
    reveal_strlit("ja");
    reveal_strlit("ko");
}

} // verus!
