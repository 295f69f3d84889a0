use topos_host::attributes::{force_subtitle_autoselect, set_attribute};
use topos_host::links::{link_for_reference, proxy_url};
use topos_host::playlist::{rewrite_m3u8, rewrite_tag_uris};

const PROXY: &str = "http://192.168.1.5:7070";
const BASE: &str = "https://cdn.example/path/index.m3u8";

#[test]
fn autoselect_replaces_existing_values() {
    let line = "#EXT-X-MEDIA:TYPE=SUBTITLES,GROUP-ID=\"subs\",NAME=\"English\",DEFAULT=NO,AUTOSELECT=NO,URI=\"en.m3u8\"";
    assert_eq!(
        force_subtitle_autoselect(line),
        "#EXT-X-MEDIA:TYPE=SUBTITLES,GROUP-ID=\"subs\",NAME=\"English\",DEFAULT=YES,AUTOSELECT=YES,URI=\"en.m3u8\""
    );
}

#[test]
fn autoselect_inserts_missing_attributes_before_first_comma() {
    let line = "#EXT-X-MEDIA:TYPE=SUBTITLES,NAME=\"E\"";
    assert_eq!(
        force_subtitle_autoselect(line),
        "#EXT-X-MEDIA:TYPE=SUBTITLES,AUTOSELECT=YES,DEFAULT=YES,NAME=\"E\""
    );
}

#[test]
fn autoselect_appends_when_line_has_no_comma() {
    assert_eq!(force_subtitle_autoselect("#X"), "#X,AUTOSELECT=YES,DEFAULT=YES");
}

#[test]
fn autoselect_matches_attribute_names_in_any_case() {
    assert_eq!(
        force_subtitle_autoselect("#M:default=no,autoselect=no"),
        "#M:default=YES,autoselect=YES"
    );
}

#[test]
fn set_attribute_value_runs_to_end_of_line() {
    assert_eq!(set_attribute("#M:A=1,DEFAULT=NO", "DEFAULT", "YES"), "#M:A=1,DEFAULT=YES");
}

#[test]
fn set_attribute_is_idempotent() {
    for line in ["#M:A=1,DEFAULT=NO,B=2", "#M:A=1", "#M", "#M:default=x"] {
        let once = set_attribute(line, "DEFAULT", "YES");
        let twice = set_attribute(&once, "DEFAULT", "YES");
        assert_eq!(once, twice);
    }
}

#[test]
fn autoselect_is_stable_on_a_forced_line() {
    let once = force_subtitle_autoselect("#EXT-X-MEDIA:TYPE=SUBTITLES,NAME=\"E\"");
    assert_eq!(force_subtitle_autoselect(&once), once);
}

#[test]
fn proxy_url_percent_encodes_utf8_bytes() {
    assert_eq!(
        proxy_url(PROXY, "a b/é~-._"),
        "http://192.168.1.5:7070/proxy?url=a%20b%2F%C3%A9~-._"
    );
}

#[test]
fn tag_uri_absolute_is_proxied() {
    let line = "#EXT-X-KEY:METHOD=AES-128,URI=\"https://k.example/key\"";
    assert_eq!(
        rewrite_tag_uris(line, BASE, PROXY),
        "#EXT-X-KEY:METHOD=AES-128,URI=\"http://192.168.1.5:7070/proxy?url=https%3A%2F%2Fk.example%2Fkey\""
    );
}

#[test]
fn tag_uri_relative_is_resolved_against_base() {
    let line = "#EXT-X-MAP:URI=\"init.mp4\",BYTERANGE=\"100@0\"";
    assert_eq!(
        rewrite_tag_uris(line, BASE, PROXY),
        "#EXT-X-MAP:URI=\"http://192.168.1.5:7070/proxy?url=https%3A%2F%2Fcdn.example%2Fpath%2Finit.mp4\",BYTERANGE=\"100@0\""
    );
}

#[test]
fn tag_uri_without_closing_quote_is_left_alone() {
    assert_eq!(rewrite_tag_uris("#X:URI=\"abc", BASE, PROXY), "#X:URI=\"abc");
}

#[test]
fn tag_without_uri_is_unchanged() {
    assert_eq!(rewrite_tag_uris("#EXTINF:4.0,", BASE, PROXY), "#EXTINF:4.0,");
}

#[test]
fn playlist_lines_are_rewritten_and_joined() {
    let body = "#EXTM3U\r\nseg1.ts\n\n  \n#EXT-X-ENDLIST\n";
    assert_eq!(
        rewrite_m3u8(body, BASE, PROXY),
        "#EXTM3U\nhttp://192.168.1.5:7070/proxy?url=https%3A%2F%2Fcdn.example%2Fpath%2Fseg1.ts\n\n  \n#EXT-X-ENDLIST"
    );
}

#[test]
fn playlist_subtitle_media_is_proxied_and_forced() {
    let body = "#EXT-X-MEDIA:TYPE=SUBTITLES,URI=\"subs.m3u8\"";
    assert_eq!(
        rewrite_m3u8(body, BASE, PROXY),
        "#EXT-X-MEDIA:TYPE=SUBTITLES,AUTOSELECT=YES,DEFAULT=YES,URI=\"http://192.168.1.5:7070/proxy?url=https%3A%2F%2Fcdn.example%2Fpath%2Fsubs.m3u8\""
    );
}

#[test]
fn playlist_absolute_uri_is_not_joined() {
    assert_eq!(
        rewrite_m3u8("http://other.example/a.ts", BASE, PROXY),
        "http://192.168.1.5:7070/proxy?url=http%3A%2F%2Fother.example%2Fa.ts"
    );
}

#[test]
fn playlist_with_unparsable_base_keeps_reference() {
    assert_eq!(
        rewrite_m3u8("seg.ts", "not a url", PROXY),
        "http://192.168.1.5:7070/proxy?url=seg.ts"
    );
}

#[test]
fn empty_playlist_stays_empty() {
    assert_eq!(rewrite_m3u8("", BASE, PROXY), "");
}

#[test]
fn playlist_keeps_line_count() {
    let body = "#EXTM3U\na.ts\nb.ts\n#EXT-X-ENDLIST";
    let out = rewrite_m3u8(body, BASE, PROXY);
    assert_eq!(out.lines().count(), body.lines().count());
}

#[test]
fn lone_carriage_return_at_end_is_kept() {
    assert_eq!(rewrite_m3u8("#A\r", BASE, PROXY), "#A\r");
}

#[test]
fn link_for_reference_uses_resolution_outcome() {
    assert_eq!(
        link_for_reference("seg.ts", Some("https://c.example/seg.ts"), "http://h:1"),
        "http://h:1/proxy?url=https%3A%2F%2Fc.example%2Fseg.ts"
    );
    assert_eq!(link_for_reference("seg.ts", None, "http://h:1"), "http://h:1/proxy?url=seg.ts");
    assert_eq!(
        link_for_reference("https://a.example/x", Some("https://ignored/"), "http://h:1"),
        "http://h:1/proxy?url=https%3A%2F%2Fa.example%2Fx"
    );
}

#[test]
fn line_splitting_agrees_with_std_lines() {
    let bodies = [
        "",
        "\n",
        "\n\n",
        "#A",
        "#A\n",
        "#A\r\n#B",
        "#A\r\n#B\r\n",
        "#A\r",
        "#A\r\r\n#B",
        "#A\n\n#B\n\n",
        "\r\n",
        "  \n\t\n#C",
    ];
    for body in bodies {
        let expected = body.lines().collect::<Vec<_>>().join("\n");
        assert_eq!(rewrite_m3u8(body, BASE, PROXY), expected, "body {:?}", body);
    }
}

#[test]
fn output_line_i_is_input_line_i_rewritten() {
    let body = "#EXTM3U\n#EXTINF:4,\nseg1.ts\n#EXTINF:4,\nhttps://o.example/seg2.ts\n";
    let out = rewrite_m3u8(body, BASE, PROXY);
    let pieces: Vec<&str> = out.split('\n').collect();
    assert_eq!(pieces.len(), body.lines().count());
    assert_eq!(pieces[2], proxy_url(PROXY, "https://cdn.example/path/seg1.ts"));
    assert_eq!(pieces[4], proxy_url(PROXY, "https://o.example/seg2.ts"));
    assert_eq!(pieces[1], "#EXTINF:4,");
}
