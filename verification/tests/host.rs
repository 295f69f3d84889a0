use topos_host::cast::{plan_cast, stream_content_type, subtitle_language};
use topos_host::devices::{
    add_device, device_address, resolved_device, scan_goes_on, scan_wait_ms, Device, ScanEvent,
    ServiceAddress,
};
use topos_host::host::{
    active_media_session, player_state_label, HostAction, HostCommand, HostState, MediaControl,
    PlayerState,
};
use topos_host::proxy::{
    is_playlist_response, origin_from_parts, preflight_headers, proxy_base_url, request_origin,
    response_headers, upstream_headers,
};

fn cast_cmd(cookies: &str, referer: &str) -> HostCommand {
    HostCommand::CastStream {
        url: "https://v.example/master.m3u8".to_string(),
        device_id: "tv-1".to_string(),
        device_ip: "10.0.0.2".to_string(),
        device_port: 8009,
        title: "Living room".to_string(),
        cookies: cookies.to_string(),
        referer: referer.to_string(),
        subtitle_url: String::new(),
    }
}

#[test]
fn subtitle_language_codes() {
    assert_eq!(subtitle_language("https://x.example/subs/spa-42.vtt"), "es");
    assert_eq!(subtitle_language("https://x.example/eng.vtt"), "en");
    assert_eq!(subtitle_language("https://x.example/ger-1.vtt"), "de");
    assert_eq!(subtitle_language("https://x.example/chi.vtt"), "zh");
    assert_eq!(subtitle_language("https://x.example/nld-1.vtt"), "nld");
    assert_eq!(subtitle_language("https://x.example/pt-BR.vtt"), "pt");
    assert_eq!(subtitle_language("no-slash.vtt"), "no");
    assert_eq!(subtitle_language(""), "");
    assert_eq!(subtitle_language("https://x.example/dir/"), "");
}

#[test]
fn content_types() {
    assert_eq!(stream_content_type("https://a/b.m3u8?t=1"), "application/x-mpegURL");
    assert_eq!(stream_content_type("https://a/b.mpd"), "application/dash+xml");
    assert_eq!(stream_content_type("https://a/b.mp4"), "video/mp4");
}

#[test]
fn cast_plan_with_and_without_subtitles() {
    let p = plan_cast("https://a/b.m3u8", "http://h:7070", "");
    assert_eq!(p.content_type, "application/x-mpegURL");
    assert_eq!(p.proxy_url, "http://h:7070/proxy?url=https%3A%2F%2Fa%2Fb.m3u8");
    assert!(p.subtitle.is_none());
    let q = plan_cast("https://a/b.mpd", "http://h:7070", "https://a/s/fra-3.vtt");
    let t = q.subtitle.unwrap();
    assert_eq!(t.proxy_url, "http://h:7070/proxy?url=https%3A%2F%2Fa%2Fs%2Ffra-3.vtt");
    assert_eq!(t.language, "fr");
}

#[test]
fn origin_from_referer() {
    assert_eq!(request_origin("https://www.site.example/watch?v=1"), "https://www.site.example");
    assert_eq!(request_origin(""), "");
    assert_eq!(request_origin("data:text/plain,x"), "data://");
}

#[test]
fn headers_sent_upstream() {
    let hs = upstream_headers("a=1", "https://site.example/p");
    let got: Vec<(String, String)> = hs.into_iter().map(|h| (h.name, h.value)).collect();
    assert_eq!(
        got,
        vec![
            ("Cookie".to_string(), "a=1".to_string()),
            ("Referer".to_string(), "https://site.example/p".to_string()),
            ("Origin".to_string(), "https://site.example".to_string()),
        ]
    );
    assert!(upstream_headers("", "").is_empty());
    let only_cookie = upstream_headers("c", "");
    assert_eq!(only_cookie.len(), 1);
    assert_eq!(only_cookie[0].name, "Cookie");
}

#[test]
fn playlist_detection() {
    assert!(is_playlist_response("Application/VND.Apple.MPEGURL", "https://a/x"));
    assert!(is_playlist_response("video/mp2t", "https://a/x.m3u8?t=1"));
    assert!(!is_playlist_response("video/mp2t", "https://a/x.ts"));
    assert!(!is_playlist_response("", ""));
}

#[test]
fn preflight_allows_private_network() {
    let hs = preflight_headers();
    assert_eq!(hs.len(), 5);
    assert!(hs
        .iter()
        .any(|h| h.name == "access-control-allow-private-network" && h.value == "true"));
    assert_eq!(hs[4].value, "86400");
}

#[test]
fn proxy_base_formatting() {
    assert_eq!(proxy_base_url("192.168.1.5", 7070), "http://192.168.1.5:7070");
    assert_eq!(proxy_base_url("127.0.0.1", 0), "http://127.0.0.1:0");
    assert_eq!(proxy_base_url("h", 65535), "http://h:65535");
}

#[test]
fn device_address_prefers_ipv4() {
    let addrs = vec![
        ServiceAddress { is_ipv4: false, text: "fe80::1".to_string() },
        ServiceAddress { is_ipv4: true, text: "10.0.0.7".to_string() },
        ServiceAddress { is_ipv4: true, text: "10.0.0.8".to_string() },
    ];
    assert_eq!(device_address(&addrs), "10.0.0.7");
    assert_eq!(device_address(&addrs[..1]), "fe80::1");
    assert_eq!(device_address(&[]), "");
}

#[test]
fn resolved_device_names() {
    let addrs = vec![ServiceAddress { is_ipv4: true, text: "10.0.0.7".to_string() }];
    let d = resolved_device("tv._googlecast._tcp.local.", "tv.local.", Some("Living room"), &addrs, 8009);
    assert_eq!(d.id, "tv._googlecast._tcp.local.");
    assert_eq!(d.name, "Living room");
    assert_eq!(d.ip, "10.0.0.7");
    assert_eq!(d.port, 8009);
    let e = resolved_device("tv._googlecast._tcp.local.", "tv.local.", None, &addrs, 8009);
    assert_eq!(e.name, "tv.local.");
}

#[test]
fn devices_are_listed_once() {
    let mk = |id: &str, name: &str| Device {
        id: id.to_string(),
        name: name.to_string(),
        ip: String::new(),
        port: 8009,
    };
    let mut ds = Vec::new();
    add_device(&mut ds, mk("a", "first"));
    add_device(&mut ds, mk("b", "second"));
    add_device(&mut ds, mk("a", "again"));
    assert_eq!(ds.len(), 2);
    assert_eq!(ds[0].name, "first");
    assert_eq!(ds[1].id, "b");
}

#[test]
fn controls_without_session_do_nothing() {
    let mut st = HostState::new();
    for cmd in [HostCommand::PauseCast, HostCommand::PlayCast, HostCommand::SeekCast, HostCommand::QueryCastState, HostCommand::StopCast] {
        assert!(matches!(st.handle(cmd), HostAction::Nothing));
    }
    assert!(!st.is_casting());
}

#[test]
fn cast_then_control_then_stop() {
    let mut st = HostState::new();
    match st.handle(cast_cmd("k=v", "https://site.example/")) {
        HostAction::StartCast { device, url, subtitle_url } => {
            assert_eq!(device.id, "tv-1");
            assert_eq!(device.name, "Living room");
            assert_eq!(device.ip, "10.0.0.2");
            assert_eq!(device.port, 8009);
            assert_eq!(url, "https://v.example/master.m3u8");
            assert_eq!(subtitle_url, "");
        }
        _ => panic!("expected a cast to start"),
    }
    assert_eq!(st.cookies(), "k=v");
    assert_eq!(st.referer(), "https://site.example/");
    st.cast_finished(Some("sess-1".to_string()));
    assert!(st.is_casting());
    match st.handle(HostCommand::PauseCast) {
        HostAction::Control { device, session_id, control } => {
            assert_eq!(device.id, "tv-1");
            assert_eq!(session_id, "sess-1");
            assert!(control == MediaControl::Pause);
        }
        _ => panic!("expected a control"),
    }
    match st.handle(HostCommand::StopCast) {
        HostAction::StopCast { device, session_id } => {
            assert_eq!(device.ip, "10.0.0.2");
            assert_eq!(session_id, "sess-1");
        }
        _ => panic!("expected a stop"),
    }
    assert!(!st.is_casting());
    assert!(matches!(st.handle(HostCommand::PlayCast), HostAction::Nothing));
}

#[test]
fn empty_cookies_keep_stored_ones_and_failed_cast_leaves_no_session() {
    let mut st = HostState::new();
    st.handle(cast_cmd("k=v", "https://r.example/"));
    st.cast_finished(Some("s".to_string()));
    st.handle(cast_cmd("", ""));
    assert_eq!(st.cookies(), "k=v");
    assert_eq!(st.referer(), "https://r.example/");
    st.cast_finished(None);
    assert!(!st.is_casting());
}

#[test]
fn player_state_labels() {
    assert_eq!(player_state_label(Some(PlayerState::Playing)), "PLAYING");
    assert_eq!(player_state_label(Some(PlayerState::Paused)), "PAUSED");
    assert_eq!(player_state_label(Some(PlayerState::Buffering)), "BUFFERING");
    assert_eq!(player_state_label(Some(PlayerState::Idle)), "IDLE");
    assert_eq!(player_state_label(None), "UNKNOWN");
}

#[test]
fn origin_from_parsed_parts() {
    assert_eq!(
        origin_from_parts(Some(("https".to_string(), Some("a.example".to_string())))),
        "https://a.example"
    );
    assert_eq!(origin_from_parts(Some(("data".to_string(), None))), "data://");
    assert_eq!(origin_from_parts(None), "");
}

#[test]
fn proxied_response_headers() {
    let p: Vec<(String, String)> =
        response_headers(true, "text/plain").into_iter().map(|h| (h.name, h.value)).collect();
    assert_eq!(p[0], ("content-type".to_string(), "application/x-mpegURL".to_string()));
    assert_eq!(p.len(), 3);
    let q = response_headers(false, "video/mp2t");
    assert_eq!(q[0].value, "video/mp2t");
    assert_eq!(q[2].name, "access-control-allow-private-network");
}

#[test]
fn media_session_is_first_status_entry() {
    assert_eq!(active_media_session(&[7, 9]), Some(7));
    assert_eq!(active_media_session(&[]), None);
}

#[test]
fn scan_window_and_stop_rule() {
    assert_eq!(scan_wait_ms(0), Some(3000));
    assert_eq!(scan_wait_ms(2999), Some(1));
    assert_eq!(scan_wait_ms(3000), None);
    assert_eq!(scan_wait_ms(u64::MAX), None);
    assert!(scan_goes_on(&ScanEvent::Resolved));
    assert!(scan_goes_on(&ScanEvent::Other));
    assert!(!scan_goes_on(&ScanEvent::Failed));
}
