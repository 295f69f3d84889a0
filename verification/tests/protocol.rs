use topos_host::framing::{cast_frame, native_message_frame, native_message_length, raw_load_frames};
use topos_host::protobuf::{build_cast_message, cast_connect_msg, pb_int32, pb_string, varint_encode};

fn varint_decode(bytes: &[u8]) -> u64 {
    let mut v: u64 = 0;
    for (i, b) in bytes.iter().enumerate() {
        v |= ((b & 0x7f) as u64) << (7 * i);
    }
    v
}

#[test]
fn varint_examples() {
    assert_eq!(varint_encode(0), vec![0x00]);
    assert_eq!(varint_encode(1), vec![0x01]);
    assert_eq!(varint_encode(127), vec![0x7f]);
    assert_eq!(varint_encode(128), vec![0x80, 0x01]);
    assert_eq!(varint_encode(300), vec![0xac, 0x02]);
}

#[test]
fn varint_of_max_u64_takes_ten_bytes() {
    let e = varint_encode(u64::MAX);
    assert_eq!(e.len(), 10);
    assert_eq!(e[9], 0x01);
    assert!(e[..9].iter().all(|b| *b == 0xff));
}

#[test]
fn varint_roundtrip_and_shape() {
    for v in [0u64, 1, 127, 128, 255, 300, 16383, 16384, 1 << 35, u64::MAX - 1, u64::MAX] {
        let e = varint_encode(v);
        assert_eq!(varint_decode(&e), v);
        assert!(e.len() >= 1 && e.len() <= 10);
        assert!(e[..e.len() - 1].iter().all(|b| *b >= 0x80));
        assert!(*e.last().unwrap() < 0x80);
    }
}

#[test]
fn pb_fields() {
    assert_eq!(pb_int32(1, 0), vec![0x08, 0x00]);
    assert_eq!(pb_string(2, "ab"), vec![0x12, 0x02, b'a', b'b']);
    assert_eq!(pb_string(6, "é"), vec![0x32, 0x02, 0xc3, 0xa9]);
    let mut neg = vec![0x28];
    neg.extend(vec![0xff; 9]);
    neg.push(0x01);
    assert_eq!(pb_int32(5, -1), neg);
}

#[test]
fn pb_field_key_shift_drops_high_bits() {
    // 0x2000_0001 << 3 keeps only the low 32 bits: 8, then wire type 2.
    assert_eq!(pb_string(0x2000_0001, ""), vec![0x0a, 0x00]);
}

#[test]
fn cast_message_layout() {
    assert_eq!(
        build_cast_message("s", "d", "n", "p"),
        vec![0x08, 0x00, 0x12, 0x01, b's', 0x1a, 0x01, b'd', 0x22, 0x01, b'n', 0x28, 0x00, 0x32, 0x01, b'p']
    );
}

#[test]
fn connect_message_uses_connection_namespace() {
    let ns = "urn:x-cast:com.google.cast.tp.connection";
    let payload = r#"{"type":"CONNECT","userAgent":"Topos/1.0"}"#;
    assert_eq!(
        cast_connect_msg("sender-0", "receiver-0"),
        build_cast_message("sender-0", "receiver-0", ns, payload)
    );
}

#[test]
fn native_frame_has_little_endian_length() {
    assert_eq!(native_message_frame("hi"), vec![2, 0, 0, 0, b'h', b'i']);
    let long = "x".repeat(258);
    let f = native_message_frame(&long);
    assert_eq!(&f[..4], &[2, 1, 0, 0]);
    assert_eq!(f.len(), 262);
}

#[test]
fn native_length_reads_little_endian() {
    assert_eq!(native_message_length(&[2, 0, 0, 0]), 2);
    assert_eq!(native_message_length(&[0, 1, 0, 0]), 256);
    assert_eq!(native_message_length(&[0x78, 0x56, 0x34, 0x12]), 0x1234_5678);
}

#[test]
fn native_frame_roundtrip() {
    for msg in ["", "{\"type\":\"SCAN_DEVICES\"}", "ñandú"] {
        let f = native_message_frame(msg);
        let header = [f[0], f[1], f[2], f[3]];
        assert_eq!(native_message_length(&header) as usize, msg.len());
        assert_eq!(&f[4..], msg.as_bytes());
    }
}

#[test]
fn cast_frame_has_big_endian_length() {
    assert_eq!(cast_frame(&[1, 2, 3]), vec![0, 0, 0, 3, 1, 2, 3]);
    let big = vec![7u8; 0x0102];
    assert_eq!(&cast_frame(&big)[..4], &[0, 0, 1, 2]);
}

#[test]
fn raw_load_sends_two_connects_then_load() {
    let frames = raw_load_frames("web-5", "{\"type\":\"LOAD\"}");
    assert_eq!(frames.len(), 3);
    assert_eq!(frames[0], cast_frame(&cast_connect_msg("sender-0", "receiver-0")));
    assert_eq!(frames[1], cast_frame(&cast_connect_msg("sender-0", "web-5")));
    assert_eq!(
        frames[2],
        cast_frame(&build_cast_message(
            "sender-0",
            "web-5",
            "urn:x-cast:com.google.cast.media",
            "{\"type\":\"LOAD\"}"
        ))
    );
}

fn decode_fields(mut s: &[u8]) -> Vec<(u64, u64, Vec<u8>)> {
    fn read(s: &[u8]) -> (u64, usize) {
        let mut v = 0u64;
        for (i, b) in s.iter().enumerate() {
            v |= ((b & 0x7f) as u64) << (7 * i);
            if *b < 0x80 {
                return (v, i + 1);
            }
        }
        panic!("truncated varint");
    }
    let mut out = Vec::new();
    while !s.is_empty() {
        let (key, n) = read(s);
        s = &s[n..];
        let (v, m) = read(s);
        s = &s[m..];
        if key % 8 == 2 {
            out.push((key / 8, 2, s[..v as usize].to_vec()));
            s = &s[v as usize..];
        } else {
            out.push((key / 8, 0, v.to_le_bytes()[..1].to_vec()));
        }
    }
    out
}

#[test]
fn cast_message_decodes_into_its_fields() {
    let msg = build_cast_message("sender-0", "web-5", "urn:x-cast:com.google.cast.media", "{\"a\":1}");
    let fields = decode_fields(&msg);
    assert_eq!(fields.len(), 6);
    assert_eq!(fields[0], (1, 0, vec![0]));
    assert_eq!(fields[1], (2, 2, b"sender-0".to_vec()));
    assert_eq!(fields[2], (3, 2, b"web-5".to_vec()));
    assert_eq!(fields[3], (4, 2, b"urn:x-cast:com.google.cast.media".to_vec()));
    assert_eq!(fields[4], (5, 0, vec![0]));
    assert_eq!(fields[5], (6, 2, b"{\"a\":1}".to_vec()));
}

#[test]
fn different_ids_give_different_messages() {
    assert_ne!(build_cast_message("a", "bc", "n", "p"), build_cast_message("ab", "c", "n", "p"));
}
