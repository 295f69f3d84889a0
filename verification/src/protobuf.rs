//! Hand-rolled protobuf encoding of the Cast channel's `CastMessage`: base-128
//! varints, field keys, and the message itself.

use vstd::prelude::*;
use vstd::utf8::encode_utf8;

verus! {

broadcast use vstd::string::group_string_axioms;

/// The base-128 varint encoding of `v`: seven bits per byte, least significant
/// group first, the high bit set on every byte but the last.
pub open spec fn varint(v: nat) -> Seq<u8>
    decreases v,
{
    if v < 128 {
        seq![v as u8]
    } else {
        seq![(v % 128 + 128) as u8] + varint(v / 128)
    }
}

/// The number a byte string stands for, read as base-128 groups, least
/// significant first (the high bit of each byte ignored).
pub open spec fn varint_value(bytes: Seq<u8>) -> nat
    decreases bytes.len(),
{
    if bytes.len() == 0 {
        0
    } else {
        (bytes[0] % 128) as nat + 128 * varint_value(bytes.drop_first())
    }
}

/// A well-formed varint: at least one byte, the continuation bit set on every
/// byte but the last, and clear on the last.
pub open spec fn is_varint(bytes: Seq<u8>) -> bool {
    &&& bytes.len() >= 1
    &&& forall|i: int| 0 <= i < bytes.len() - 1 ==> #[trigger] bytes[i] >= 128
    &&& bytes.last() < 128
}

/// Reading back a varint gives the number that was encoded.
pub proof fn lemma_varint_roundtrip(v: nat)
    ensures
        varint_value(varint(v)) == v,
    decreases v,
{
    let s = varint(v);
    if v >= 128 {
        lemma_varint_roundtrip(v / 128);
        assert(s.drop_first() =~= varint(v / 128));
        assert(s[0] == (v % 128 + 128) as u8);
        assert(s[0] % 128 == v % 128);
        assert(varint_value(s) == (s[0] % 128) as nat + 128 * varint_value(s.drop_first()));
        assert(v == v % 128 + 128 * (v / 128));
    } else {
        assert(s.drop_first() =~= Seq::<u8>::empty());
        assert(varint_value(s.drop_first()) == 0);
        assert(s[0] == v as u8);
        assert(varint_value(s) == (s[0] % 128) as nat + 128 * varint_value(s.drop_first()));
    }
}

/// Every varint is well formed.
pub proof fn lemma_varint_well_formed(v: nat)
    ensures
        is_varint(varint(v)),
    decreases v,
{
    if v >= 128 {
        lemma_varint_well_formed(v / 128);
        let s = varint(v);
        let t = varint(v / 128);
        assert(s == seq![(v % 128 + 128) as u8] + t);
        assert forall|i: int| 0 <= i < s.len() - 1 implies #[trigger] s[i] >= 128 by {
            if i > 0 {
                assert(s[i] == t[i - 1]);
            }
        }
    }
}

/// The encoding of a number below `2^(7k)` takes at most `k` bytes; so a `u64`
/// takes at most ten.
pub proof fn lemma_varint_len(v: nat, k: nat)
    requires
        k >= 1,
        v < vstd::arithmetic::power2::pow2(7 * k),
    ensures
        varint(v).len() <= k,
    decreases k,
{
    vstd::arithmetic::power2::lemma_pow2_unfold(7 * k);
    if v >= 128 {
        assert(k >= 2) by {
            if k == 1 {
                vstd::arithmetic::power2::lemma2_to64();
            }
        }
        let m = (k - 1) as nat;
        assert(vstd::arithmetic::power2::pow2(7 * k) == 128 * vstd::arithmetic::power2::pow2(7 * m)) by {
            vstd::arithmetic::power2::lemma_pow2_adds(7, 7 * m);
            vstd::arithmetic::power2::lemma2_to64();
        }
        assert(v / 128 < vstd::arithmetic::power2::pow2(7 * m)) by (nonlinear_arith)
            requires
                v < 128 * vstd::arithmetic::power2::pow2(7 * m),
        ;
        lemma_varint_len(v / 128, m);
    }
}

/// A `u64` takes at most ten varint bytes.
pub proof fn lemma_varint_u64_len(v: u64)
    ensures
        varint(v as nat).len() <= 10,
{
    vstd::arithmetic::power2::lemma2_to64_rest();
    vstd::arithmetic::power2::lemma_pow2_strictly_increases(64, 70);
    lemma_varint_len(v as nat, 10);
}

/// Encodes `v` as a base-128 varint.
pub fn varint_encode(v: u64) -> (out: Vec<u8>)
    ensures
        out@ == varint(v as nat),
{
    let mut out: Vec<u8> = Vec::new();
    let mut v = v;
    let ghost whole = varint(v as nat);
    loop
        invariant_except_break
            out@ + varint(v as nat) == whole,
        ensures
            out@ == whole,
        decreases v,
    {
        let low = v & 0x7f;
        let ghost before = v;
        assert(v & 0x7f == v % 128) by (bit_vector);
        assert(v >> 7 == v / 128) by (bit_vector);
        let mut b = low as u8;
        v = v >> 7;
        if v != 0 {
            assert(b < 128 ==> (b | 0x80) == b + 128) by (bit_vector);
            b = b | 0x80;
        }
        out.push(b);
        if v == 0 {
            assert(before < 128);
            assert(varint(before as nat) == seq![b]);
            assert(out@ =~= whole);
            break;
        }
        assert(varint(before as nat) == seq![b] + varint(v as nat));
    }
    out
}

/// The key of a protobuf field: the field number shifted left by three (in 32
/// bits) with the wire type in the low bits.
pub open spec fn field_key(field: u32, wire: nat) -> nat {
    ((field as nat * 8) % 0x1_0000_0000) + wire
}

/// A length-delimited field (wire type 2) holding `bytes`.
pub open spec fn string_field(field: u32, bytes: Seq<u8>) -> Seq<u8> {
    varint(field_key(field, 2)) + varint(bytes.len()) + bytes
}

/// A varint field (wire type 0) holding `v`, sign-extended to 64 bits.
pub open spec fn int32_field(field: u32, v: i32) -> Seq<u8> {
    varint(field_key(field, 0)) + varint((v as u64) as nat)
}

/// Appends `b` to `out`.
pub fn push_bytes(out: &mut Vec<u8>, b: &[u8])
    ensures
        final(out)@ == old(out)@ + b@,
{
    let ghost start = out@;
    let mut k: usize = 0;
    while k < b.len()
        invariant
            k <= b@.len(),
            out@ == start + b@.take(k as int),
        decreases b@.len() - k,
    {
        out.push(b[k]);
        assert(b@.take(k + 1) == b@.take(k as int).push(b@[k as int]));
        k = k + 1;
    }
    assert(b@.take(b@.len() as int) == b@);
}

/// Encodes a length-delimited (string) protobuf field.
pub fn pb_string(field: u32, s: &str) -> (out: Vec<u8>)
    ensures
        out@ == string_field(field, encode_utf8(s@)),
{
    let shifted = field << 3;
    let tag = shifted | 2;
    assert((field << 3) as u64 == ((field as u64) * 8) % 0x1_0000_0000) by (bit_vector);
    assert(tag == shifted + 2) by (bit_vector)
        requires
            shifted == field << 3,
            tag == shifted | 2,
    ;
    let mut out = varint_encode(tag as u64);
    let bytes = s.as_bytes();
    let len = varint_encode(bytes.len() as u64);
    push_bytes(&mut out, len.as_slice());
    push_bytes(&mut out, bytes);
    out
}

/// Encodes a varint (int32) protobuf field.
pub fn pb_int32(field: u32, v: i32) -> (out: Vec<u8>)
    ensures
        out@ == int32_field(field, v),
{
    let tag = field << 3;
    assert((field << 3) as u64 == ((field as u64) * 8) % 0x1_0000_0000) by (bit_vector);
    let mut out = varint_encode(tag as u64);
    let value = varint_encode(#[verifier::truncate] (v as u64));
    push_bytes(&mut out, value.as_slice());
    out
}

/// A `CastMessage`: protocol version `CASTV2_1_0` (field 1), source id (2),
/// destination id (3), namespace (4), payload type `STRING` (5), and the UTF-8
/// payload (6).
pub open spec fn cast_message(source: Seq<u8>, dest: Seq<u8>, ns: Seq<u8>, payload: Seq<u8>) -> Seq<u8> {
    int32_field(1, 0) + string_field(2, source) + string_field(3, dest) + string_field(4, ns)
        + int32_field(5, 0) + string_field(6, payload)
}

/// Serialises a `CastMessage` with a string payload.
pub fn build_cast_message(source: &str, dest: &str, ns: &str, payload: &str) -> (msg: Vec<u8>)
    ensures
        msg@ == cast_message(
            encode_utf8(source@),
            encode_utf8(dest@),
            encode_utf8(ns@),
            encode_utf8(payload@),
        ),
{
    let mut msg: Vec<u8> = Vec::new();
    let f1 = pb_int32(1, 0);
    push_bytes(&mut msg, f1.as_slice());
    let f2 = pb_string(2, source);
    push_bytes(&mut msg, f2.as_slice());
    let f3 = pb_string(3, dest);
    push_bytes(&mut msg, f3.as_slice());
    let f4 = pb_string(4, ns);
    push_bytes(&mut msg, f4.as_slice());
    let f5 = pb_int32(5, 0);
    push_bytes(&mut msg, f5.as_slice());
    let f6 = pb_string(6, payload);
    push_bytes(&mut msg, f6.as_slice());
    msg
}

/// The namespace of the Cast virtual-connection channel.
pub open spec fn connection_namespace() -> Seq<char> {
    "urn:x-cast:com.google.cast.tp.connection"@
}

/// The payload that opens a virtual connection.
pub open spec fn connect_payload() -> Seq<char> {
    "{\"type\":\"CONNECT\",\"userAgent\":\"Topos/1.0\"}"@
}

/// The `CONNECT` message that opens a virtual connection from `source` to `dest`.
pub fn cast_connect_msg(source: &str, dest: &str) -> (msg: Vec<u8>)
    ensures
        msg@ == cast_message(
            encode_utf8(source@),
            encode_utf8(dest@),
            encode_utf8(connection_namespace()),
            encode_utf8(connect_payload()),
        ),
{
    build_cast_message(
        source,
        dest,
        "urn:x-cast:com.google.cast.tp.connection",
        "{\"type\":\"CONNECT\",\"userAgent\":\"Topos/1.0\"}",
    )
}

/// Reads a varint at the front of `s`: the number and how many bytes it took;
/// `None` when `s` ends before a byte without the continuation bit.
pub open spec fn read_varint(s: Seq<u8>) -> Option<(nat, nat)>
    decreases s.len(),
{
    if s.len() == 0 {
        None
    } else if s[0] < 128 {
        Some((s[0] as nat, 1))
    } else {
        match read_varint(s.drop_first()) {
            Some((v, n)) => Some(((s[0] % 128) as nat + 128 * v, n + 1)),
            None => None,
        }
    }
}

/// One decoded protobuf field: its number, its wire type, its value (the number
/// of a varint field, the length of a length-delimited one) and its bytes (empty
/// for a varint field).
pub type DecodedField = (nat, nat, nat, Seq<u8>);

/// Reads one field (varint or length-delimited) at the front of `s`, and how
/// many bytes it took.
pub open spec fn read_field(s: Seq<u8>) -> Option<(DecodedField, nat)> {
    match read_varint(s) {
        None => None,
        Some((key, n)) => {
            let rest = s.skip(n as int);
            let field = key / 8;
            let wire = key % 8;
            match read_varint(rest) {
                None => None,
                Some((v, m)) => if wire == 0 {
                    Some(((field, 0nat, v, Seq::empty()), n + m))
                } else if wire == 2 && m + v <= rest.len() {
                    Some(((field, 2nat, v, rest.subrange(m as int, (m + v) as int)), n + m + v))
                } else {
                    None
                },
            }
        },
    }
}

/// Decodes a protobuf message into its fields, in order; `None` when some
/// field cannot be read.
pub open spec fn decode_fields(s: Seq<u8>) -> Option<Seq<DecodedField>>
    decreases s.len(),
{
    if s.len() == 0 {
        Some(Seq::empty())
    } else {
        match read_field(s) {
            Some((f, used)) => if 0 < used && used <= s.len() {
                match decode_fields(s.skip(used as int)) {
                    Some(fs) => Some(seq![f] + fs),
                    None => None,
                }
            } else {
                None
            },
            None => None,
        }
    }
}

/// A varint followed by anything reads back as its number and its length.
pub proof fn lemma_read_varint(v: nat, rest: Seq<u8>)
    ensures
        read_varint(varint(v) + rest) == Some((v, varint(v).len())),
    decreases v,
{
    let s = varint(v) + rest;
    if v < 128 {
        assert(s[0] == v as u8);
    } else {
        lemma_read_varint(v / 128, rest);
        assert(s.drop_first() =~= varint(v / 128) + rest);
        assert(s[0] == (v % 128 + 128) as u8);
        assert(s[0] % 128 == v % 128);
    }
}

/// A varint field reads back as its number and value.
pub proof fn lemma_read_int32_field(field: u32, v: i32, rest: Seq<u8>)
    requires
        field < 0x2000_0000,
    ensures
        read_field(int32_field(field, v) + rest) == Some(
            ((field as nat, 0nat, (v as u64) as nat, Seq::<u8>::empty()), int32_field(field, v).len()),
        ),
{
    let k = field_key(field, 0);
    let x = (v as u64) as nat;
    assert(k == field as nat * 8);
    let s = int32_field(field, v) + rest;
    assert(s =~= varint(k) + (varint(x) + rest));
    lemma_read_varint(k, varint(x) + rest);
    assert(s.skip(varint(k).len() as int) =~= varint(x) + rest);
    lemma_read_varint(x, rest);
    assert(k / 8 == field as nat);
    assert(k % 8 == 0);
}

/// A length-delimited field reads back as its number and bytes.
pub proof fn lemma_read_string_field(field: u32, bytes: Seq<u8>, rest: Seq<u8>)
    requires
        field < 0x2000_0000,
    ensures
        read_field(string_field(field, bytes) + rest) == Some(
            ((field as nat, 2nat, bytes.len(), bytes), string_field(field, bytes).len()),
        ),
{
    let k = field_key(field, 2);
    let l = bytes.len();
    assert(k == field as nat * 8 + 2);
    let s = string_field(field, bytes) + rest;
    let after_key = varint(l) + bytes + rest;
    assert(s =~= varint(k) + after_key);
    lemma_read_varint(k, after_key);
    assert(s.skip(varint(k).len() as int) =~= after_key);
    assert(after_key =~= varint(l) + (bytes + rest));
    lemma_read_varint(l, bytes + rest);
    let m = varint(l).len();
    assert(after_key.subrange(m as int, (m + l) as int) =~= bytes);
    assert(k / 8 == field as nat);
    assert(k % 8 == 2);
}

/// Decoding a message that starts with a field read as `f` gives `f`, then the
/// decoding of the rest.
proof fn lemma_decode_cons(head: Seq<u8>, rest: Seq<u8>, f: DecodedField)
    requires
        head.len() > 0,
        read_field(head + rest) == Some((f, head.len())),
    ensures
        decode_fields(head + rest) == match decode_fields(rest) {
            Some(fs) => Some(seq![f] + fs),
            None => None,
        },
{
    assert((head + rest).skip(head.len() as int) =~= rest);
}

/// The fields a `CastMessage` decodes into, in order.
pub open spec fn cast_message_fields(source: Seq<u8>, dest: Seq<u8>, ns: Seq<u8>, payload: Seq<u8>) -> Seq<DecodedField> {
    seq![
        (1nat, 0nat, 0nat, Seq::empty()),
        (2nat, 2nat, source.len(), source),
        (3nat, 2nat, dest.len(), dest),
        (4nat, 2nat, ns.len(), ns),
        (5nat, 0nat, 0nat, Seq::empty()),
        (6nat, 2nat, payload.len(), payload),
    ]
}

/// A `CastMessage` decodes, as a protobuf stream, into exactly its six fields in
/// order: protocol version 0, source, destination, namespace, payload type 0 and
/// payload, with nothing left over.
pub proof fn lemma_cast_message_decodes(source: Seq<u8>, dest: Seq<u8>, ns: Seq<u8>, payload: Seq<u8>)
    ensures
        decode_fields(cast_message(source, dest, ns, payload)) == Some(
            cast_message_fields(source, dest, ns, payload),
        ),
{
    let f1 = int32_field(1, 0);
    let f2 = string_field(2, source);
    let f3 = string_field(3, dest);
    let f4 = string_field(4, ns);
    let f5 = int32_field(5, 0);
    let f6 = string_field(6, payload);
    let r6 = f6;
    let r5 = f5 + r6;
    let r4 = f4 + r5;
    let r3 = f3 + r4;
    let r2 = f2 + r3;
    let r1 = f1 + r2;
    assert(cast_message(source, dest, ns, payload) =~= r1);
    let e = Seq::<u8>::empty();
    lemma_varint_well_formed(field_key(1, 0));
    lemma_varint_well_formed(field_key(2, 2));
    lemma_varint_well_formed(field_key(3, 2));
    lemma_varint_well_formed(field_key(4, 2));
    lemma_varint_well_formed(field_key(5, 0));
    lemma_varint_well_formed(field_key(6, 2));
    assert(decode_fields(e) == Some(Seq::<DecodedField>::empty()));
    lemma_read_string_field(6, payload, e);
    assert(r6 + e =~= r6);
    lemma_decode_cons(f6, e, (6nat, 2nat, payload.len(), payload));
    lemma_read_int32_field(5, 0, r6);
    lemma_decode_cons(f5, r6, (5nat, 0nat, 0nat, Seq::empty()));
    lemma_read_string_field(4, ns, r5);
    lemma_decode_cons(f4, r5, (4nat, 2nat, ns.len(), ns));
    lemma_read_string_field(3, dest, r4);
    lemma_decode_cons(f3, r4, (3nat, 2nat, dest.len(), dest));
    lemma_read_string_field(2, source, r3);
    lemma_decode_cons(f2, r3, (2nat, 2nat, source.len(), source));
    lemma_read_int32_field(1, 0, r2);
    lemma_decode_cons(f1, r2, (1nat, 0nat, 0nat, Seq::empty()));
    assert(seq![(6nat, 2nat, payload.len(), payload)] + Seq::<DecodedField>::empty() =~= seq![(6nat, 2nat, payload.len(), payload)]);
    assert(decode_fields(r1) == Some(cast_message_fields(source, dest, ns, payload)));
}

/// Different ids, namespaces or payloads never give the same `CastMessage`:
/// the message determines all four texts.
pub proof fn lemma_cast_message_injective(
    source: Seq<char>,
    dest: Seq<char>,
    ns: Seq<char>,
    payload: Seq<char>,
    source2: Seq<char>,
    dest2: Seq<char>,
    ns2: Seq<char>,
    payload2: Seq<char>,
)
    requires
        cast_message(encode_utf8(source), encode_utf8(dest), encode_utf8(ns), encode_utf8(payload))
            == cast_message(encode_utf8(source2), encode_utf8(dest2), encode_utf8(ns2), encode_utf8(payload2)),
    ensures
        source == source2,
        dest == dest2,
        ns == ns2,
        payload == payload2,
{
    lemma_cast_message_decodes(encode_utf8(source), encode_utf8(dest), encode_utf8(ns), encode_utf8(payload));
    lemma_cast_message_decodes(encode_utf8(source2), encode_utf8(dest2), encode_utf8(ns2), encode_utf8(payload2));
    let a = cast_message_fields(encode_utf8(source), encode_utf8(dest), encode_utf8(ns), encode_utf8(payload));
    let b = cast_message_fields(encode_utf8(source2), encode_utf8(dest2), encode_utf8(ns2), encode_utf8(payload2));
    assert(a == b);
    assert(a[1] == b[1]);
    assert(a[2] == b[2]);
    assert(a[3] == b[3]);
    assert(a[5] == b[5]);
    vstd::utf8::encode_utf8_decode_utf8(source);
    vstd::utf8::encode_utf8_decode_utf8(source2);
    vstd::utf8::encode_utf8_decode_utf8(dest);
    vstd::utf8::encode_utf8_decode_utf8(dest2);
    vstd::utf8::encode_utf8_decode_utf8(ns);
    vstd::utf8::encode_utf8_decode_utf8(ns2);
    vstd::utf8::encode_utf8_decode_utf8(payload);
    vstd::utf8::encode_utf8_decode_utf8(payload2);
}

} // verus!
