//! What the local proxy decides for each request: the headers it forwards
//! upstream (the browser's cookies and referer, and an origin derived from the
//! referer), and whether the response is an HLS playlist to rewrite.

use vstd::prelude::*;
use crate::text::{chars_of, contains, find_from, find_from_exec, push_all, string_from_chars};

verus! {

broadcast use vstd::string::group_string_axioms;

/// The scheme and host (if any) of the URL that `url::Url::parse(s)` yields;
/// `None` when `s` does not parse.
pub uninterp spec fn url_scheme_host(s: Seq<char>) -> Option<(Seq<char>, Option<Seq<char>>)>;

/// Parses `s` with `url::Url::parse` and returns the URL's `scheme()` and `host_str()`.
/// Trusted: the result is `url_scheme_host(s)`, a function of the string alone.
#[verifier::external_body]
fn parse_scheme_host(s: &str) -> (r: Option<(String, Option<String>)>)
    ensures
        match r {
            Some((scheme, host)) => url_scheme_host(s@) == Some(
                (
                    scheme@,
                    match host {
                        Some(h) => Some(h@),
                        None => None,
                    },
                ),
            ),
            None => url_scheme_host(s@) is None,
        },
{
    match url::Url::parse(s) {
        Ok(u) => Some((u.scheme().to_string(), match u.host_str() {
            Some(h) => Some(h.to_string()),
            None => None,
        })),
        Err(_) => None,
    }
}

/// The origin sent upstream for a referer: `scheme://host` of the referer's URL
/// (an empty host when it has none); empty when the referer does not parse.
pub open spec fn origin_of(referer: Seq<char>) -> Seq<char> {
    match url_scheme_host(referer) {
        Some((scheme, host)) => scheme + seq![':', '/', '/'] + match host {
            Some(h) => h,
            None => Seq::empty(),
        },
        None => Seq::empty(),
    }
}

/// The origin text for a parsed referer's scheme and host: `scheme://host`
/// (an empty host when there is none); empty when the referer did not parse.
pub fn origin_from_parts(parts: Option<(String, Option<String>)>) -> (origin: String)
    ensures
        origin@ == match parts {
            Some((scheme, host)) => scheme@ + seq![':', '/', '/'] + match host {
                Some(h) => h@,
                None => Seq::empty(),
            },
            None => Seq::<char>::empty(),
        },
{
    match parts {
        Some((scheme, host)) => {
            let mut out = chars_of(scheme.as_str());
            let sep = vec![':', '/', '/'];
            push_all(&mut out, sep.as_slice());
            match host {
                Some(h) => {
                    let hc = chars_of(h.as_str());
                    push_all(&mut out, hc.as_slice());
                },
                None => {
                    assert(out@ + Seq::<char>::empty() =~= out@);
                },
            }
            string_from_chars(out.as_slice())
        },
        None => String::new(),
    }
}

/// The origin derived from the referer (see `origin_of`); some CDNs require it.
pub fn request_origin(referer: &str) -> (origin: String)
    ensures
        origin@ == origin_of(referer@),
{
    origin_from_parts(parse_scheme_host(referer))
}

/// A header, as name and value.
pub struct Header {
    /// The header's name.
    pub name: String,
    /// The header's value.
    pub value: String,
}

/// A header's name and value, as characters.
pub open spec fn header_view(h: Header) -> (Seq<char>, Seq<char>) {
    (h.name@, h.value@)
}

/// The headers sent upstream, in order: `Cookie` with the browser's cookies,
/// `Referer` with its referer, and `Origin` derived from the referer, each only
/// when its value is not empty.
pub open spec fn upstream_headers_for(cookies: Seq<char>, referer: Seq<char>) -> Seq<(Seq<char>, Seq<char>)> {
    let origin = origin_of(referer);
    (if cookies.len() > 0 {
        seq![("Cookie"@, cookies)]
    } else {
        Seq::empty()
    }) + (if referer.len() > 0 {
        seq![("Referer"@, referer)]
    } else {
        Seq::empty()
    }) + (if origin.len() > 0 {
        seq![("Origin"@, origin)]
    } else {
        Seq::empty()
    })
}

/// The proxy forwards each value the browser gave independently of the others:
/// `Cookie` exactly when there are cookies, `Referer` exactly when there is a
/// referer, `Origin` (derived from the referer) exactly when that origin is not
/// empty, and no other header.
pub proof fn lemma_upstream_headers_forwarded(cookies: Seq<char>, referer: Seq<char>)
    ensures
        cookies.len() > 0 <==> upstream_headers_for(cookies, referer).contains(("Cookie"@, cookies)),
        referer.len() > 0 <==> upstream_headers_for(cookies, referer).contains(("Referer"@, referer)),
        origin_of(referer).len() > 0 <==> upstream_headers_for(cookies, referer).contains(
            ("Origin"@, origin_of(referer)),
        ),
        forall|i: int|
            0 <= i < upstream_headers_for(cookies, referer).len() ==> {
                let h = #[trigger] upstream_headers_for(cookies, referer)[i];
                h == ("Cookie"@, cookies) && cookies.len() > 0 || h == ("Referer"@, referer)
                    && referer.len() > 0 || h == ("Origin"@, origin_of(referer)) && origin_of(referer).len() > 0
            },
{
    let hs = upstream_headers_for(cookies, referer);
    let o = origin_of(referer);
    reveal_strlit("Cookie");
    reveal_strlit("Referer");
    reveal_strlit("Origin");
    assert("Cookie"@.len() == 6 && "Referer"@.len() == 7);
    assert("Cookie"@[0] == 'C' && "Origin"@[0] == 'O');
    assert("Cookie"@ != "Referer"@);
    assert("Cookie"@ != "Origin"@);
    assert("Referer"@ != "Origin"@);
    let c = if cookies.len() > 0 { seq![("Cookie"@, cookies)] } else { Seq::empty() };
    let r = if referer.len() > 0 { seq![("Referer"@, referer)] } else { Seq::empty() };
    let g = if o.len() > 0 { seq![("Origin"@, o)] } else { Seq::empty() };
    assert(hs == c + r + g);
    assert forall|i: int| 0 <= i < hs.len() implies {
        let h = #[trigger] hs[i];
        h == ("Cookie"@, cookies) && cookies.len() > 0 || h == ("Referer"@, referer) && referer.len() > 0
            || h == ("Origin"@, o) && o.len() > 0
    } by {
        if i < c.len() {
            assert(hs[i] == c[i]);
        } else if i < c.len() + r.len() {
            assert(hs[i] == r[i - c.len()]);
        } else {
            assert(hs[i] == g[i - c.len() - r.len()]);
        }
    }
    if cookies.len() > 0 {
        assert(hs[0] == ("Cookie"@, cookies));
    }
    if referer.len() > 0 {
        assert(hs[c.len() as int] == ("Referer"@, referer));
    }
    if o.len() > 0 {
        assert(hs[(c.len() + r.len()) as int] == ("Origin"@, o));
    }
    if hs.contains(("Cookie"@, cookies)) {
        let i = choose|i: int| 0 <= i < hs.len() && hs[i] == ("Cookie"@, cookies);
        let h = hs[i];
    }
    if hs.contains(("Referer"@, referer)) {
        let i = choose|i: int| 0 <= i < hs.len() && hs[i] == ("Referer"@, referer);
        let h = hs[i];
    }
    if hs.contains(("Origin"@, o)) {
        let i = choose|i: int| 0 <= i < hs.len() && hs[i] == ("Origin"@, o);
        let h = hs[i];
    }
}

/// The headers the proxy adds to an upstream request (see `upstream_headers_for`).
pub fn upstream_headers(cookies: &str, referer: &str) -> (hs: Vec<Header>)
    ensures
        hs@.map_values(|h: Header| header_view(h)) == upstream_headers_for(cookies@, referer@),
{
    let origin = request_origin(referer);
    let mut hs: Vec<Header> = Vec::new();
    let ghost mut expect: Seq<(Seq<char>, Seq<char>)> = Seq::empty();
    if !cookies.is_empty() {
        hs.push(Header { name: String::from_str("Cookie"), value: String::from_str(cookies) });
        proof {
            expect = expect.push(("Cookie"@, cookies@));
        }
    }
    assert(hs@.map_values(|h: Header| header_view(h)) =~= expect);
    if !referer.is_empty() {
        hs.push(Header { name: String::from_str("Referer"), value: String::from_str(referer) });
        proof {
            expect = expect.push(("Referer"@, referer@));
        }
    }
    assert(hs@.map_values(|h: Header| header_view(h)) =~= expect);
    if !origin.as_str().is_empty() {
        hs.push(Header { name: String::from_str("Origin"), value: origin });
        proof {
            expect = expect.push(("Origin"@, origin_of(referer@)));
        }
    }
    assert(hs@.map_values(|h: Header| header_view(h)) =~= expect);
    assert(expect =~= upstream_headers_for(cookies@, referer@));
    hs
}

/// `mpegurl`
pub open spec fn mpegurl() -> Seq<char> {
    seq!['m', 'p', 'e', 'g', 'u', 'r', 'l']
}

/// A response is an HLS playlist when its content type mentions `mpegurl` in any
/// ASCII case, or when the requested URL mentions `.m3u8`.
pub open spec fn is_playlist(content_type: Seq<char>, url: Seq<char>) -> bool {
    find_from(content_type, mpegurl(), 0, true) is Some || contains(url, ".m3u8"@)
}

/// Whether the proxy rewrites a response as an HLS playlist (see `is_playlist`).
pub fn is_playlist_response(content_type: &str, url: &str) -> (b: bool)
    ensures
        b == is_playlist(content_type@, url@),
{
    let ct = chars_of(content_type);
    let needle = vec!['m', 'p', 'e', 'g', 'u', 'r', 'l'];
    assert(needle@ == mpegurl());
    let by_type = match find_from_exec(ct.as_slice(), needle.as_slice(), 0, true) {
        Some(_) => true,
        None => false,
    };
    if by_type {
        return true;
    }
    let u = chars_of(url);
    let ext = chars_of(".m3u8");
    match find_from_exec(u.as_slice(), ext.as_slice(), 0, false) {
        Some(_) => true,
        None => false,
    }
}

/// The headers of the answer to a CORS preflight (`OPTIONS`) request: any
/// origin, `GET` and `OPTIONS`, any header, private-network access allowed
/// (Chrome's Private Network Access asks for it before a public page fetches from
/// a private address), and a one-day cache.
pub open spec fn preflight_headers_spec() -> Seq<(Seq<char>, Seq<char>)> {
    seq![
        ("access-control-allow-origin"@, "*"@),
        ("access-control-allow-methods"@, "GET, OPTIONS"@),
        ("access-control-allow-headers"@, "*"@),
        ("access-control-allow-private-network"@, "true"@),
        ("access-control-max-age"@, "86400"@),
    ]
}

/// A header built from two texts.
fn header(name: &str, value: &str) -> (h: Header)
    ensures
        header_view(h) == (name@, value@),
{
    Header { name: String::from_str(name), value: String::from_str(value) }
}

/// The headers of the answer to a CORS preflight request (see `preflight_headers_spec`).
pub fn preflight_headers() -> (hs: Vec<Header>)
    ensures
        hs@.map_values(|h: Header| header_view(h)) == preflight_headers_spec(),
{
    let mut hs: Vec<Header> = Vec::new();
    hs.push(header("access-control-allow-origin", "*"));
    hs.push(header("access-control-allow-methods", "GET, OPTIONS"));
    hs.push(header("access-control-allow-headers", "*"));
    hs.push(header("access-control-allow-private-network", "true"));
    hs.push(header("access-control-max-age", "86400"));
    assert(hs@.map_values(|h: Header| header_view(h)) =~= preflight_headers_spec());
    hs
}

/// The headers of a proxied response: its content type (`application/x-mpegURL`
/// for a rewritten playlist, else the upstream content type), then any origin
/// and private-network access allowed, so the receiver's player may read it.
pub open spec fn response_headers_spec(playlist: bool, upstream_type: Seq<char>) -> Seq<(Seq<char>, Seq<char>)> {
    seq![
        ("content-type"@, if playlist { "application/x-mpegURL"@ } else { upstream_type }),
        ("access-control-allow-origin"@, "*"@),
        ("access-control-allow-private-network"@, "true"@),
    ]
}

/// The headers of a proxied response (see `response_headers_spec`).
pub fn response_headers(playlist: bool, upstream_type: &str) -> (hs: Vec<Header>)
    ensures
        hs@.map_values(|h: Header| header_view(h)) == response_headers_spec(playlist, upstream_type@),
{
    let mut hs: Vec<Header> = Vec::new();
    if playlist {
        hs.push(header("content-type", "application/x-mpegURL"));
    } else {
        hs.push(header("content-type", upstream_type));
    }
    hs.push(header("access-control-allow-origin", "*"));
    hs.push(header("access-control-allow-private-network", "true"));
    assert(hs@.map_values(|h: Header| header_view(h)) =~= response_headers_spec(playlist, upstream_type@));
    hs
}

/// The decimal digits of `n`, most significant first.
pub open spec fn decimal(n: nat) -> Seq<char>
    decreases n,
{
    if n < 10 {
        seq![((48 + n) as u8) as char]
    } else {
        decimal(n / 10) + seq![((48 + n % 10) as u8) as char]
    }
}

/// Appends the decimal digits of `n` to `out`.
fn push_decimal(out: &mut Vec<char>, n: u16)
    ensures
        final(out)@ == old(out)@ + decimal(n as nat),
    decreases n,
{
    if n >= 10 {
        push_decimal(out, n / 10);
    }
    let d: u8 = (n % 10) as u8;
    out.push((48 + d) as char);
}

/// The base URL of the proxy, as the receiver reaches it: `http://{ip}:{port}`.
pub open spec fn proxy_base_for(ip: Seq<char>, port: u16) -> Seq<char> {
    "http://"@ + ip + seq![':'] + decimal(port as nat)
}

/// The base URL of the proxy at address `ip` and `port` (see `proxy_base_for`).
pub fn proxy_base_url(ip: &str, port: u16) -> (base: String)
    ensures
        base@ == proxy_base_for(ip@, port),
{
    let mut out = chars_of("http://");
    let ipc = chars_of(ip);
    push_all(&mut out, ipc.as_slice());
    out.push(':');
    push_decimal(&mut out, port);
    assert(out@ =~= proxy_base_for(ip@, port));
    string_from_chars(out.as_slice())
}

} // verus!
