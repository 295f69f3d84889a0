//! Links that route a resource through the local proxy: resolving a playlist
//! reference against the playlist's own URL (with the `url` crate), and
//! percent-encoding the result into the proxy's query (with `urlencoding`).

use vstd::prelude::*;
use vstd::utf8::encode_utf8;
use crate::text::{chars_of, newline_free, push_all, starts_with, starts_with_exec, string_from_chars};

verus! {

broadcast use vstd::string::group_string_axioms;

/// Bytes that `urlencoding` leaves as they are: ASCII alphanumerics and `-`, `.`, `_`, `~`.
pub open spec fn is_unreserved(b: u8) -> bool {
    (0x30 <= b && b <= 0x39) || (0x41 <= b && b <= 0x5a) || (0x61 <= b && b <= 0x7a) || b == 0x2d
        || b == 0x2e || b == 0x5f || b == 0x7e
}

/// The upper-case hexadecimal digit for `d` (below 16).
pub open spec fn hex_digit(d: u8) -> char {
    if d < 10 {
        ((0x30 + d) as u32) as char
    } else {
        ((0x37 + d) as u32) as char
    }
}

/// Percent-encoding of a byte string: unreserved bytes stay, every other byte
/// becomes `%` and two upper-case hexadecimal digits.
pub open spec fn percent_encoded(bytes: Seq<u8>) -> Seq<char>
    decreases bytes.len(),
{
    if bytes.len() == 0 {
        Seq::empty()
    } else {
        let b = bytes[0];
        let head = if is_unreserved(b) {
            seq![(b as u32) as char]
        } else {
            seq!['%', hex_digit(b / 16), hex_digit(b % 16)]
        };
        head + percent_encoded(bytes.drop_first())
    }
}

/// What `urlencoding::encode` returns for `s`.
/// Trusted: the crate percent-encodes every byte of the UTF-8 form of `s` except
/// ASCII alphanumerics and `-`, `.`, `_`, `~`, with upper-case hexadecimal digits.
#[verifier::external_body]
fn percent_encode(s: &str) -> (r: String)
    ensures
        r@ == percent_encoded(encode_utf8(s@)),
{
    urlencoding::encode(s).into_owned()
}

/// The serialization of the URL that `url::Url::parse(base)` followed by
/// `Url::join(reference)` yields; `None` when either step fails.
pub uninterp spec fn url_join(base: Seq<char>, reference: Seq<char>) -> Option<Seq<char>>;

/// Resolves `reference` against `base` with the `url` crate: `Url::parse(base)`,
/// then `Url::join(reference)`, then the joined URL's serialization.
/// Trusted: the result is `url_join(base, reference)`, a function of the two strings.
#[verifier::external_body]
fn join_url(base: &str, reference: &str) -> (r: Option<String>)
    ensures
        match r {
            Some(j) => url_join(base@, reference@) == Some(j@),
            None => url_join(base@, reference@) is None,
        },
{
    match url::Url::parse(base) {
        Ok(b) => match b.join(reference) {
            Ok(u) => Some(u.to_string()),
            Err(_) => None,
        },
        Err(_) => None,
    }
}

/// `http://`
pub open spec fn http_prefix() -> Seq<char> {
    seq!['h', 't', 't', 'p', ':', '/', '/']
}

/// `https://`
pub open spec fn https_prefix() -> Seq<char> {
    seq!['h', 't', 't', 'p', 's', ':', '/', '/']
}

/// The proxy's path and query key: `/proxy?url=`.
pub open spec fn proxy_path() -> Seq<char> {
    seq!['/', 'p', 'r', 'o', 'x', 'y', '?', 'u', 'r', 'l', '=']
}

/// An absolute `http://` or `https://` reference is kept; any other is resolved
/// against the playlist's URL, and kept as it is when that fails.
pub open spec fn resolved_uri(base_url: Seq<char>, uri: Seq<char>) -> Seq<char> {
    if is_absolute(uri) {
        uri
    } else {
        match url_join(base_url, uri) {
            Some(j) => j,
            None => uri,
        }
    }
}

/// The proxy link for `target`: `proxy_base`, `/proxy?url=`, then `target` percent-encoded.
pub open spec fn proxy_link(proxy_base: Seq<char>, target: Seq<char>) -> Seq<char> {
    proxy_base + proxy_path() + percent_encoded(encode_utf8(target))
}

/// The proxy link for `target` (`{proxy_base}/proxy?url={encoded target}`).
pub fn proxy_url(proxy_base: &str, target: &str) -> (r: String)
    ensures
        r@ == proxy_link(proxy_base@, target@),
{
    let out = proxy_link_chars(proxy_base, target);
    string_from_chars(out.as_slice())
}

/// The proxy link for `target`, as characters.
pub fn proxy_link_chars(proxy_base: &str, target: &str) -> (r: Vec<char>)
    ensures
        r@ == proxy_link(proxy_base@, target@),
{
    let mut out = chars_of(proxy_base);
    let path = vec!['/', 'p', 'r', 'o', 'x', 'y', '?', 'u', 'r', 'l', '='];
    assert(path@ == proxy_path());
    push_all(&mut out, path.as_slice());
    let encoded = percent_encode(target);
    let encoded_chars = chars_of(encoded.as_str());
    push_all(&mut out, encoded_chars.as_slice());
    out
}

/// `uri` is absolute: it starts with `http://` or `https://`.
pub open spec fn is_absolute(uri: Seq<char>) -> bool {
    starts_with(uri, http_prefix()) || starts_with(uri, https_prefix())
}

/// Whether `uri` starts with `http://` or `https://`.
pub fn absolute_uri(uri: &[char]) -> (b: bool)
    ensures
        b == is_absolute(uri@),
{
    let http = vec!['h', 't', 't', 'p', ':', '/', '/'];
    let https = vec!['h', 't', 't', 'p', 's', ':', '/', '/'];
    assert(http@ == http_prefix());
    assert(https@ == https_prefix());
    starts_with_exec(uri, http.as_slice()) || starts_with_exec(uri, https.as_slice())
}

/// The proxy link for a playlist reference `uri`, given what resolving it
/// against the playlist's URL gave (`joined`): an absolute reference is kept,
/// any other is replaced by the resolved URL, or kept when resolution failed.
pub fn link_for_reference(uri: &str, joined: Option<&str>, proxy_base: &str) -> (r: String)
    ensures
        r@ == proxy_link(
            proxy_base@,
            if is_absolute(uri@) {
                uri@
            } else {
                match joined {
                    Some(j) => j@,
                    None => uri@,
                }
            },
        ),
{
    let u = chars_of(uri);
    let out = link_chars_for_reference(u.as_slice(), uri, joined, proxy_base);
    string_from_chars(out.as_slice())
}

/// `link_for_reference`, with the reference also given as characters.
fn link_chars_for_reference(uri_chars: &[char], uri: &str, joined: Option<&str>, proxy_base: &str) -> (r: Vec<char>)
    requires
        uri_chars@ == uri@,
    ensures
        r@ == proxy_link(
            proxy_base@,
            if is_absolute(uri@) {
                uri@
            } else {
                match joined {
                    Some(j) => j@,
                    None => uri@,
                }
            },
        ),
{
    if absolute_uri(uri_chars) {
        proxy_link_chars(proxy_base, uri)
    } else {
        match joined {
            Some(j) => proxy_link_chars(proxy_base, j),
            None => proxy_link_chars(proxy_base, uri),
        }
    }
}

/// The proxy link for a playlist reference `uri`, resolved against `base_url`.
pub fn resolve_through_proxy(uri: &[char], base_url: &str, proxy_base: &str) -> (r: Vec<char>)
    ensures
        r@ == proxy_link(proxy_base@, resolved_uri(base_url@, uri@)),
{
    let uri_text = string_from_chars(uri);
    if absolute_uri(uri) {
        link_chars_for_reference(uri, uri_text.as_str(), None, proxy_base)
    } else {
        match join_url(base_url, uri_text.as_str()) {
            Some(joined) => link_chars_for_reference(uri, uri_text.as_str(), Some(joined.as_str()), proxy_base),
            None => link_chars_for_reference(uri, uri_text.as_str(), None, proxy_base),
        }
    }
}

/// The value of a hexadecimal digit (either case); `-1` for any other character.
pub open spec fn hex_value(c: char) -> int {
    if '0' <= c && c <= '9' {
        c as int - 0x30
    } else if 'A' <= c && c <= 'F' {
        c as int - 0x37
    } else if 'a' <= c && c <= 'f' {
        c as int - 0x57
    } else {
        -1
    }
}

/// The bytes a query value stands for under `application/x-www-form-urlencoded`
/// decoding: `%` and two hexadecimal digits give one byte, `+` gives a space,
/// and any other character stands for its UTF-8 encoding.
pub open spec fn query_decoded(s: Seq<char>) -> Seq<u8>
    decreases s.len(),
{
    if s.len() == 0 {
        Seq::empty()
    } else if s[0] == '%' && s.len() >= 3 && hex_value(s[1]) >= 0 && hex_value(s[2]) >= 0 {
        seq![(hex_value(s[1]) * 16 + hex_value(s[2])) as u8] + query_decoded(s.skip(3))
    } else if s[0] == '+' {
        seq![0x20u8] + query_decoded(s.skip(1))
    } else {
        encode_utf8(seq![s[0]]) + query_decoded(s.skip(1))
    }
}

/// A hexadecimal digit reads back as the value it was written for.
proof fn lemma_hex_digit_value(d: u8)
    requires
        d < 16,
    ensures
        hex_value(hex_digit(d)) == d,
        hex_digit(d) != '%',
{
    let c = hex_digit(d);
    if d < 10 {
        assert(c as u32 == 0x30 + d);
    } else {
        assert(c as u32 == 0x37 + d);
    }
}

/// Decoding a percent-encoded byte string gives back the bytes.
pub proof fn lemma_percent_decode_encode(bytes: Seq<u8>)
    ensures
        query_decoded(percent_encoded(bytes)) == bytes,
    decreases bytes.len(),
{
    if bytes.len() > 0 {
        let b = bytes[0];
        let rest = bytes.drop_first();
        let enc = percent_encoded(bytes);
        lemma_percent_decode_encode(rest);
        if is_unreserved(b) {
            let c = (b as u32) as char;
            assert(c as u32 == b as u32);
            assert(enc == seq![c] + percent_encoded(rest));
            assert(enc[0] == c);
            assert(enc.skip(1) =~= percent_encoded(rest));
            vstd::utf8::is_ascii_chars_encode_utf8(seq![c]);
            assert(encode_utf8(seq![c]) =~= seq![b]);
            assert(seq![b] + rest =~= bytes);
        } else {
            lemma_hex_digit_value(b / 16);
            lemma_hex_digit_value(b % 16);
            assert(enc == seq!['%', hex_digit(b / 16), hex_digit(b % 16)] + percent_encoded(rest));
            assert(enc[0] == '%');
            assert(enc[1] == hex_digit(b / 16));
            assert(enc[2] == hex_digit(b % 16));
            assert(enc.skip(3) =~= percent_encoded(rest));
            assert(((b / 16) * 16 + b % 16) as u8 == b);
            assert(seq![b] + rest =~= bytes);
        }
    }
}

/// The proxy receives exactly the URL it was given a link for: decoding the
/// query value of a proxy link gives back the UTF-8 bytes of the target.
pub proof fn lemma_proxy_link_query(proxy_base: Seq<char>, target: Seq<char>)
    ensures
        query_decoded(proxy_link(proxy_base, target).skip((proxy_base.len() + proxy_path().len()) as int))
            == encode_utf8(target),
{
    let link = proxy_link(proxy_base, target);
    assert(link.skip((proxy_base.len() + proxy_path().len()) as int) =~= percent_encoded(encode_utf8(target)));
    lemma_percent_decode_encode(encode_utf8(target));
}

/// Percent-encoded text holds no line feed.
pub proof fn lemma_percent_encoded_newline_free(bytes: Seq<u8>)
    ensures
        newline_free(percent_encoded(bytes)),
    decreases bytes.len(),
{
    if bytes.len() > 0 {
        let b = bytes[0];
        lemma_percent_encoded_newline_free(bytes.drop_first());
        let enc = percent_encoded(bytes);
        let rest = percent_encoded(bytes.drop_first());
        if is_unreserved(b) {
            let c = (b as u32) as char;
            assert(c as u32 == b as u32);
            assert(c != '\n');
            assert(enc == seq![c] + rest);
        } else {
            lemma_hex_digit_value(b / 16);
            lemma_hex_digit_value(b % 16);
            assert(hex_digit(b / 16) != '\n');
            assert(hex_digit(b % 16) != '\n');
            assert(enc == seq!['%', hex_digit(b / 16), hex_digit(b % 16)] + rest);
        }
    }
}

/// A proxy link holds no line feed when the proxy's base URL holds none.
pub proof fn lemma_proxy_link_newline_free(proxy_base: Seq<char>, target: Seq<char>)
    requires
        newline_free(proxy_base),
    ensures
        newline_free(proxy_link(proxy_base, target)),
{
    lemma_percent_encoded_newline_free(encode_utf8(target));
    let l = proxy_link(proxy_base, target);
    assert(newline_free(proxy_path()));
    assert forall|i: int| 0 <= i < l.len() implies l[i] != '\n' by {
        let n = proxy_base.len() as int;
        if i >= n + 11 {
            assert(l[i] == percent_encoded(encode_utf8(target))[i - n - 11]);
        } else if i >= n {
            assert(l[i] == proxy_path()[i - n]);
        }
    }
}

/// Every playlist reference other than an `http://` or `https://` URL (one
/// starting with `/` included) is resolved against the playlist's URL: the
/// proxied target is what `url` joins it into, and the reference itself only
/// when that join fails; an `http://` or `https://` URL is proxied as it is.
pub proof fn lemma_resolution(base_url: Seq<char>, uri: Seq<char>)
    ensures
        starts_with(uri, seq!['h', 't', 't', 'p', ':', '/', '/']) || starts_with(
            uri,
            seq!['h', 't', 't', 'p', 's', ':', '/', '/'],
        ) ==> resolved_uri(base_url, uri) == uri,
        !starts_with(uri, seq!['h', 't', 't', 'p', ':', '/', '/']) && !starts_with(
            uri,
            seq!['h', 't', 't', 'p', 's', ':', '/', '/'],
        ) ==> resolved_uri(base_url, uri) == match url_join(base_url, uri) {
            Some(j) => j,
            None => uri,
        },
{
}

} // verus!
