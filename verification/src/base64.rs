//! Standard base64 (RFC 4648 alphabet, `=` padding) for snapshot memory.
use vstd::prelude::*;
use vstd::utf8::*;
use vstd::string::StringSliceAdditionalSpecFns;

verus! {

/// ASCII code of `=`, the padding character.
pub open spec fn pad_byte() -> u8 {
    61u8
}

/// The character of the base64 alphabet that encodes the 6-bit value `v`.
pub open spec fn b64_char(v: u8) -> u8 {
    if v < 26 {
        (v + 65) as u8
    } else if v < 52 {
        (v - 26 + 97) as u8
    } else if v < 62 {
        (v - 52 + 48) as u8
    } else if v == 62 {
        43u8
    } else {
        47u8
    }
}

/// The 6-bit value that an alphabet character stands for, or `None`
/// for a byte outside the alphabet (padding included).
pub open spec fn b64_val_spec(c: u8) -> Option<u8> {
    if 65 <= c <= 90 {
        Some((c - 65) as u8)
    } else if 97 <= c <= 122 {
        Some((c - 97 + 26) as u8)
    } else if 48 <= c <= 57 {
        Some((c - 48 + 52) as u8)
    } else if c == 43 {
        Some(62u8)
    } else if c == 47 {
        Some(63u8)
    } else {
        None
    }
}

/// The four output characters of one group of one to three input bytes.
pub open spec fn encode_group(g: Seq<u8>) -> Seq<u8> {
    let b0 = g[0];
    let b1: u8 = if g.len() > 1 { g[1] } else { 0 };
    let b2: u8 = if g.len() > 2 { g[2] } else { 0 };
    seq![
        b64_char(b0 >> 2),
        b64_char(((b0 & 3) << 4) | (b1 >> 4)),
        if g.len() > 1 { b64_char(((b1 & 15) << 2) | (b2 >> 6)) } else { pad_byte() },
        if g.len() > 2 { b64_char(b2 & 63) } else { pad_byte() },
    ]
}

/// Base64 encoding of `s`, group by group of three bytes.
pub open spec fn b64_encode_spec(s: Seq<u8>) -> Seq<u8>
    decreases s.len(),
{
    if s.len() == 0 {
        seq![]
    } else if s.len() <= 3 {
        encode_group(s)
    } else {
        encode_group(s.take(3)) + b64_encode_spec(s.skip(3))
    }
}

/// Decoding of one four-character group. A `=` in the third or fourth
/// place counts as the value 0 and drops the output byte it would end.
pub open spec fn decode_group(c: Seq<u8>) -> Option<Seq<u8>> {
    let v2o: Option<u8> = if c[2] == pad_byte() { Some(0u8) } else { b64_val_spec(c[2]) };
    let v3o: Option<u8> = if c[3] == pad_byte() { Some(0u8) } else { b64_val_spec(c[3]) };
    match (b64_val_spec(c[0]), b64_val_spec(c[1]), v2o, v3o) {
        (Some(v0), Some(v1), Some(v2), Some(v3)) => Some(
            seq![(v0 << 2) | (v1 >> 4)]
            + (if c[2] != pad_byte() { seq![(v1 << 4) | (v2 >> 2)] } else { Seq::<u8>::empty() })
            + (if c[3] != pad_byte() { seq![(v2 << 6) | v3] } else { Seq::<u8>::empty() }),
        ),
        _ => None,
    }
}

/// Decoding of a sequence of whole four-character groups.
pub open spec fn decode_groups(b: Seq<u8>) -> Option<Seq<u8>>
    decreases b.len(),
{
    if b.len() < 4 {
        if b.len() == 0 { Some(Seq::<u8>::empty()) } else { None }
    } else {
        match (decode_group(b.take(4)), decode_groups(b.skip(4))) {
            (Some(x), Some(y)) => Some(x + y),
            _ => None,
        }
    }
}

/// Base64 decoding of the bytes `b`: `None` unless the length is a
/// multiple of four and every group decodes.
pub open spec fn b64_decode_spec(b: Seq<u8>) -> Option<Seq<u8>> {
    if b.len() % 4 != 0 {
        None
    } else {
        decode_groups(b)
    }
}

/// The characters whose codes are the bytes of `b`.
pub open spec fn ascii_chars(b: Seq<u8>) -> Seq<char> {
    b.map_values(|x: u8| x as char)
}

/// The bytes of an optional vector, as a value.
pub open spec fn opt_bytes(o: Option<Vec<u8>>) -> Option<Seq<u8>> {
    match o {
        Some(v) => Some(v@),
        None => None,
    }
}

/// The RFC 4648 base64 alphabet, in value order.
pub open spec fn rfc4648_alphabet() -> Seq<char> {
    "ABCDEFGHIJKLMNOPQRSTUVWXYZabcdefghijklmnopqrstuvwxyz0123456789+/"@
}

/// The encoder writes the 6-bit value `v` as the `v`-th character of the
/// RFC 4648 alphabet, and the decoder reads that character back as `v`.
pub proof fn lemma_b64_alphabet(v: u8)
    requires
        v < 64,
    ensures
        rfc4648_alphabet().len() == 64,
        b64_char(v) as char == rfc4648_alphabet()[v as int],
        b64_val_spec(b64_char(v)) == Some(v),
{
    reveal_strlit("ABCDEFGHIJKLMNOPQRSTUVWXYZabcdefghijklmnopqrstuvwxyz0123456789+/");
    assert(b64_char(v) as char == rfc4648_alphabet()[v as int]) by {
        if v == 0 {} else if v == 1 {} else if v == 2 {} else if v == 3 {} else if v == 4 {} else if v == 5 {} else if v == 6 {} else if v == 7 {} else if v == 8 {} else if v == 9 {} else if v == 10 {} else if v == 11 {} else if v == 12 {} else if v == 13 {} else if v == 14 {} else if v == 15 {} else if v == 16 {} else if v == 17 {} else if v == 18 {} else if v == 19 {} else if v == 20 {} else if v == 21 {} else if v == 22 {} else if v == 23 {} else if v == 24 {} else if v == 25 {} else if v == 26 {} else if v == 27 {} else if v == 28 {} else if v == 29 {} else if v == 30 {} else if v == 31 {} else if v == 32 {} else if v == 33 {} else if v == 34 {} else if v == 35 {} else if v == 36 {} else if v == 37 {} else if v == 38 {} else if v == 39 {} else if v == 40 {} else if v == 41 {} else if v == 42 {} else if v == 43 {} else if v == 44 {} else if v == 45 {} else if v == 46 {} else if v == 47 {} else if v == 48 {} else if v == 49 {} else if v == 50 {} else if v == 51 {} else if v == 52 {} else if v == 53 {} else if v == 54 {} else if v == 55 {} else if v == 56 {} else if v == 57 {} else if v == 58 {} else if v == 59 {} else if v == 60 {} else if v == 61 {} else if v == 62 {} else {}
    }
}

/// The decoder accepts exactly the 64 alphabet characters: a byte it
/// reads as `v` is the `v`-th character of the RFC 4648 alphabet.
pub proof fn lemma_b64_val_alphabet(c: u8)
    ensures
        b64_val_spec(c) matches Some(v) ==> v < 64 && rfc4648_alphabet()[v as int] == c as char,
{
    if let Some(v) = b64_val_spec(c) {
        lemma_b64_alphabet(v);
        assert(b64_char(v) == c);
    }
}

/// The 6-bit value that the decoder gives an encoded character (0 for
/// a byte outside the alphabet).
pub open spec fn sextet(c: u8) -> int {
    match b64_val_spec(c) {
        Some(v) => v as int,
        None => 0,
    }
}

/// Each group's characters carry the group's bits, most significant
/// first, six per character: three bytes fill four characters; two
/// bytes fill three, the last with two zero bits, and one `=`; one byte
/// fills two, the last with four zero bits, and two `=`.
pub proof fn lemma_b64_group_bits(g: Seq<u8>)
    requires
        1 <= g.len() <= 3,
    ensures
        ({
            let e = encode_group(g);
            &&& e.len() == 4
            &&& (forall|i: int| 0 <= i < 4 && e[i] != pad_byte() ==> is_b64_alphabet(#[trigger] e[i]))
            &&& (g.len() == 3 ==> sextet(e[0]) * 262144 + sextet(e[1]) * 4096 + sextet(e[2]) * 64 + sextet(e[3])
                == g[0] * 65536 + g[1] * 256 + g[2] && e[3] != pad_byte())
            &&& (g.len() == 2 ==> sextet(e[0]) * 4096 + sextet(e[1]) * 64 + sextet(e[2]) == (g[0] * 256 + g[1]) * 4
                && e[2] != pad_byte() && e[3] == pad_byte())
            &&& (g.len() == 1 ==> sextet(e[0]) * 64 + sextet(e[1]) == g[0] * 16
                && e[1] != pad_byte() && e[2] == pad_byte() && e[3] == pad_byte())
        }),
{
    let b0 = g[0];
    let b1: u8 = if g.len() > 1 { g[1] } else { 0 };
    let b2: u8 = if g.len() > 2 { g[2] } else { 0 };
    let x0 = b0 >> 2;
    let x1 = ((b0 & 3) << 4) | (b1 >> 4);
    let x2 = ((b1 & 15) << 2) | (b2 >> 6);
    let x3 = b2 & 63;
    assert(x0 < 64 && x1 < 64 && x2 < 64 && x3 < 64) by (bit_vector)
        requires x0 == b0 >> 2, x1 == ((b0 & 3) << 4) | (b1 >> 4), x2 == ((b1 & 15) << 2) | (b2 >> 6), x3 == b2 & 63;
    lemma_b64_alphabet(x0);
    lemma_b64_alphabet(x1);
    lemma_b64_alphabet(x2);
    lemma_b64_alphabet(x3);
    assert(x0 * 262144 + x1 * 4096 + x2 * 64 + x3 == b0 * 65536 + b1 * 256 + b2) by (bit_vector)
        requires x0 == b0 >> 2, x1 == ((b0 & 3) << 4) | (b1 >> 4), x2 == ((b1 & 15) << 2) | (b2 >> 6), x3 == b2 & 63;
    assert(b2 == 0 ==> x0 * 4096 + x1 * 64 + x2 == (b0 * 256 + b1) * 4) by (bit_vector)
        requires x0 == b0 >> 2, x1 == ((b0 & 3) << 4) | (b1 >> 4), x2 == ((b1 & 15) << 2) | (b2 >> 6);
    assert(b1 == 0 && b2 == 0 ==> x0 * 64 + x1 == b0 * 16) by (bit_vector)
        requires x0 == b0 >> 2, x1 == ((b0 & 3) << 4) | (b1 >> 4);
    assert(b64_val_spec(pad_byte()) is None);
}

/// `String::push`: appends the character `c` to `s`.
#[verifier::external_body]
pub(crate) fn string_push(s: &mut String, c: char)
    ensures
        final(s)@ == old(s)@.push(c),
{
    s.push(c);
}

fn b64_char_exec(v: u8) -> (c: u8)
    requires
        v < 64,
    ensures
        c == b64_char(v),
{
    if v < 26 {
        v + 65
    } else if v < 52 {
        v - 26 + 97
    } else if v < 62 {
        v - 52 + 48
    } else if v == 62 {
        43
    } else {
        47
    }
}

/// Encodes `src` as base64 text.
pub fn b64_encode(src: &[u8]) -> (out: String)
    ensures
        out@ == ascii_chars(b64_encode_spec(src@)),
{
    let mut out = String::new();
    let n = src.len();
    let mut i: usize = 0;
    proof {
        assert(src@.skip(0) =~= src@);
    }
    while i < n
        invariant
            n == src@.len(),
            i <= n,
            ascii_chars(b64_encode_spec(src@)) =~= out@ + ascii_chars(b64_encode_spec(src@.skip(i as int))),
        decreases n - i,
    {
        let ghost rest = src@.skip(i as int);
        let len = n - i;
        let b0 = src[i];
        let b1: u8 = if len > 1 { src[i + 1] } else { 0 };
        let b2: u8 = if len > 2 { src[i + 2] } else { 0 };
        assert((b0 >> 2) < 64 && (((b0 & 3) << 4) | (b1 >> 4)) < 64 && (((b1 & 15) << 2) | (b2 >> 6)) < 64 && (b2 & 63) < 64) by (bit_vector);
        let c0 = b64_char_exec(b0 >> 2);
        let c1 = b64_char_exec(((b0 & 3) << 4) | (b1 >> 4));
        let c2 = if len > 1 { b64_char_exec(((b1 & 15) << 2) | (b2 >> 6)) } else { 61 };
        let c3 = if len > 2 { b64_char_exec(b2 & 63) } else { 61 };
        let ghost group = if len <= 3 { rest } else { rest.take(3) };
        let ghost next = if len <= 3 { Seq::<u8>::empty() } else { rest.skip(3) };
        proof {
            assert(group.len() == if len <= 3 { len as int } else { 3 });
            assert(group[0] == b0);
            assert(group.len() > 1 ==> group[1] == b1);
            assert(group.len() > 2 ==> group[2] == b2);
            assert(encode_group(group) =~= seq![c0, c1, c2, c3]);
            if len > 3 {
                assert(b64_encode_spec(rest) == encode_group(group) + b64_encode_spec(next));
                assert(next =~= src@.skip(i + 3));
            } else {
                assert(b64_encode_spec(rest) == encode_group(group));
            }
            assert(ascii_chars(encode_group(group) + b64_encode_spec(next)) =~= ascii_chars(encode_group(group)) + ascii_chars(b64_encode_spec(next)));
        }
        string_push(&mut out, c0 as char);
        string_push(&mut out, c1 as char);
        string_push(&mut out, c2 as char);
        string_push(&mut out, c3 as char);
        if len > 3 {
            i = i + 3;
        } else {
            i = n;
            proof {
                assert(src@.skip(n as int) =~= Seq::<u8>::empty());
                assert(b64_encode_spec(Seq::<u8>::empty()) =~= Seq::<u8>::empty());
                assert(ascii_chars(Seq::<u8>::empty()) =~= Seq::<char>::empty());
            }
        }
    }
    proof {
        assert(src@.skip(n as int) =~= Seq::<u8>::empty());
        assert(ascii_chars(Seq::<u8>::empty()) =~= Seq::<char>::empty());
    }
    out
}

/// The 6-bit value of a base64 alphabet character.
pub fn b64_val(c: u8) -> (r: Option<u8>)
    ensures
        r == b64_val_spec(c),
{
    if 65 <= c && c <= 90 {
        Some(c - 65)
    } else if 97 <= c && c <= 122 {
        Some(c - 97 + 26)
    } else if 48 <= c && c <= 57 {
        Some(c - 48 + 52)
    } else if c == 43 {
        Some(62)
    } else if c == 47 {
        Some(63)
    } else {
        None
    }
}

/// Decodes base64 text; `None` where the text is not base64.
pub fn b64_decode(src: &str) -> (r: Option<Vec<u8>>)
    ensures
        opt_bytes(r) == b64_decode_spec(src.spec_bytes()),
{
    let bytes = src.as_bytes();
    let n = bytes.len();
    if n % 4 != 0 {
        return None;
    }
    let mut out: Vec<u8> = Vec::new();
    let mut i: usize = 0;
    proof {
        assert(bytes@.skip(0) =~= bytes@);
    }
    while i < n
        invariant
            n == bytes@.len(),
            bytes@ == src.spec_bytes(),
            n % 4 == 0,
            i <= n,
            i % 4 == 0,
            b64_decode_spec(bytes@) == match decode_groups(bytes@.skip(i as int)) {
                Some(rest) => Some(out@ + rest),
                None => None::<Seq<u8>>,
            },
        decreases n - i,
    {
        let ghost rest = bytes@.skip(i as int);
        let ghost group = rest.take(4);
        proof {
            assert(rest.skip(4) =~= bytes@.skip(i + 4));
            assert(group[0] == bytes[i as int] && group[1] == bytes[i + 1] && group[2] == bytes[i + 2] && group[3] == bytes[i + 3]);
        }
        let c0 = bytes[i];
        let c1 = bytes[i + 1];
        let c2 = bytes[i + 2];
        let c3 = bytes[i + 3];
        let v0 = match b64_val(c0) {
            Some(v) => v,
            None => {
                proof {
                    assert(decode_group(group) is None);
                    lemma_groups_fail(rest);
                }
                return None;
            }
        };
        let v1 = match b64_val(c1) {
            Some(v) => v,
            None => {
                proof {
                    assert(decode_group(group) is None);
                    lemma_groups_fail(rest);
                }
                return None;
            }
        };
        let v2 = if c2 == 61 {
            0
        } else {
            match b64_val(c2) {
                Some(v) => v,
                None => {
                    proof {
                        assert(decode_group(group) is None);
                        lemma_groups_fail(rest);
                    }
                    return None;
                }
            }
        };
        let v3 = if c3 == 61 {
            0
        } else {
            match b64_val(c3) {
                Some(v) => v,
                None => {
                    proof {
                        assert(decode_group(group) is None);
                        lemma_groups_fail(rest);
                    }
                    return None;
                }
            }
        };
        let ghost before = out@;
        out.push((v0 << 2) | (v1 >> 4));
        if c2 != 61 {
            out.push((v1 << 4) | (v2 >> 2));
        }
        if c3 != 61 {
            out.push((v2 << 6) | v3);
        }
        proof {
            let g = decode_group(group).unwrap();
            assert(out@ =~= before + g);
            match decode_groups(bytes@.skip(i + 4)) {
                Some(r) => {
                    assert(before + (g + r) =~= out@ + r);
                }
                None => {}
            }
        }
        i = i + 4;
    }
    proof {
        assert(bytes@.skip(n as int) =~= Seq::<u8>::empty());
        assert(out@ + Seq::<u8>::empty() =~= out@);
    }
    Some(out)
}

proof fn lemma_groups_fail(b: Seq<u8>)
    requires
        b.len() >= 4,
        decode_group(b.take(4)) is None,
    ensures
        decode_groups(b) is None,
{
}

/// The bit identities of one base64 group: the four 6-bit values that
/// encode `b0 b1 b2` give the three bytes back.
proof fn lemma_group_bits(b0: u8, b1: u8, b2: u8)
    ensures
        (b0 >> 2) < 64,
        (((b0 & 3) << 4) | (b1 >> 4)) < 64,
        (((b1 & 15) << 2) | (b2 >> 6)) < 64,
        (b2 & 63) < 64,
        ((b0 >> 2) << 2) | ((((b0 & 3) << 4) | (b1 >> 4)) >> 4) == b0,
        ((((b0 & 3) << 4) | (b1 >> 4)) << 4) | ((((b1 & 15) << 2) | (b2 >> 6)) >> 2) == b1,
        ((((b1 & 15) << 2) | (b2 >> 6)) << 6) | (b2 & 63) == b2,
        ((((b0 & 3) << 4) | (0u8 >> 4)) << 4) | (0u8 >> 2) == 0,
        ((((b1 & 15) << 2) | (0u8 >> 6)) << 6) | 0u8 == 0,
{
    assert(
        (b0 >> 2) < 64
        && (((b0 & 3) << 4) | (b1 >> 4)) < 64
        && (((b1 & 15) << 2) | (b2 >> 6)) < 64
        && (b2 & 63) < 64
        && ((b0 >> 2) << 2) | ((((b0 & 3) << 4) | (b1 >> 4)) >> 4) == b0
        && ((((b0 & 3) << 4) | (b1 >> 4)) << 4) | ((((b1 & 15) << 2) | (b2 >> 6)) >> 2) == b1
        && ((((b1 & 15) << 2) | (b2 >> 6)) << 6) | (b2 & 63) == b2
        && ((((b0 & 3) << 4) | (0u8 >> 4)) << 4) | (0u8 >> 2) == 0
        && ((((b1 & 15) << 2) | (0u8 >> 6)) << 6) | 0u8 == 0
    ) by (bit_vector);
}

proof fn lemma_char_val(v: u8)
    requires
        v < 64,
    ensures
        b64_val_spec(b64_char(v)) == Some(v),
        b64_char(v) != pad_byte(),
        b64_char(v) < 128,
{
}

proof fn lemma_group_roundtrip(g: Seq<u8>)
    requires
        1 <= g.len() <= 3,
    ensures
        encode_group(g).len() == 4,
        decode_group(encode_group(g)) == Some(g),
        forall|k: int| 0 <= k < 4 ==> #[trigger] encode_group(g)[k] < 128,
{
    let b0 = g[0];
    let b1: u8 = if g.len() > 1 { g[1] } else { 0 };
    let b2: u8 = if g.len() > 2 { g[2] } else { 0 };
    lemma_group_bits(b0, b1, b2);
    lemma_char_val(b0 >> 2);
    lemma_char_val(((b0 & 3) << 4) | (b1 >> 4));
    lemma_char_val(((b1 & 15) << 2) | (b2 >> 6));
    lemma_char_val(b2 & 63);
    let e = encode_group(g);
    let d = decode_group(e).unwrap();
    if g.len() == 1 {
        assert(d =~= g);
    } else if g.len() == 2 {
        assert(d =~= g);
    } else {
        assert(d =~= g);
    }
}

proof fn lemma_encode_roundtrip_bytes(s: Seq<u8>)
    ensures
        b64_encode_spec(s).len() % 4 == 0,
        decode_groups(b64_encode_spec(s)) == Some(s),
        forall|k: int| 0 <= k < b64_encode_spec(s).len() ==> #[trigger] b64_encode_spec(s)[k] < 128,
    decreases s.len(),
{
    let e = b64_encode_spec(s);
    if s.len() == 0 {
    } else if s.len() <= 3 {
        lemma_group_roundtrip(s);
        assert(e.skip(4) =~= Seq::<u8>::empty());
        assert(e.take(4) =~= e);
        assert(decode_groups(e.skip(4)) == Some(Seq::<u8>::empty()));
        assert(s + Seq::<u8>::empty() =~= s);
    } else {
        let g = s.take(3);
        let r = s.skip(3);
        lemma_group_roundtrip(g);
        lemma_encode_roundtrip_bytes(r);
        let eg = encode_group(g);
        let er = b64_encode_spec(r);
        assert(e == eg + er);
        assert(e.take(4) =~= eg);
        assert(e.skip(4) =~= er);
        assert(g + r =~= s);
        assert forall|k: int| 0 <= k < e.len() implies #[trigger] e[k] < 128 by {
            if k < 4 {
                assert(e[k] == eg[k]);
            } else {
                assert(e[k] == er[k - 4]);
            }
        }
    }
}

/// The byte `c` is one of the 64 characters of the base64 alphabet.
pub open spec fn is_b64_alphabet(c: u8) -> bool {
    b64_val_spec(c) is Some
}

/// Number of `=` that end the encoding of `n` bytes.
pub open spec fn pad_count(n: nat) -> nat {
    ((3 - n % 3) % 3) as nat
}

proof fn lemma_b64_char_alphabet(v: u8)
    requires
        v < 64,
    ensures
        is_b64_alphabet(b64_char(v)),
{
}

proof fn lemma_group_shape(g: Seq<u8>)
    requires
        1 <= g.len() <= 3,
    ensures
        encode_group(g).len() == 4,
        forall|i: int| 0 <= i < 4 - pad_count(g.len()) ==> is_b64_alphabet(#[trigger] encode_group(g)[i]),
        forall|i: int| 4 - pad_count(g.len()) <= i < 4 ==> #[trigger] encode_group(g)[i] == pad_byte(),
{
    let b0 = g[0];
    let b1: u8 = if g.len() > 1 { g[1] } else { 0 };
    let b2: u8 = if g.len() > 2 { g[2] } else { 0 };
    assert((b0 >> 2) < 64 && (((b0 & 3) << 4) | (b1 >> 4)) < 64 && (((b1 & 15) << 2) | (b2 >> 6)) < 64 && (b2 & 63) < 64) by (bit_vector);
    lemma_b64_char_alphabet(b0 >> 2);
    lemma_b64_char_alphabet(((b0 & 3) << 4) | (b1 >> 4));
    lemma_b64_char_alphabet(((b1 & 15) << 2) | (b2 >> 6));
    lemma_b64_char_alphabet(b2 & 63);
}

/// The encoding of `s` is four characters for every started group of
/// three bytes; all of them are alphabet characters but the last
/// `pad_count(s.len())`, which are `=`.
pub proof fn lemma_b64_encode_shape(s: Seq<u8>)
    ensures
        b64_encode_spec(s).len() == 4 * ((s.len() + 2) / 3),
        forall|i: int| 0 <= i < b64_encode_spec(s).len() - pad_count(s.len())
            ==> is_b64_alphabet(#[trigger] b64_encode_spec(s)[i]),
        forall|i: int| b64_encode_spec(s).len() - pad_count(s.len()) <= i < b64_encode_spec(s).len()
            ==> #[trigger] b64_encode_spec(s)[i] == pad_byte(),
    decreases s.len(),
{
    if s.len() == 0 {
    } else if s.len() <= 3 {
        lemma_group_shape(s);
    } else {
        let g = s.take(3);
        let r = s.skip(3);
        lemma_group_shape(g);
        lemma_b64_encode_shape(r);
        let e = b64_encode_spec(s);
        let eg = encode_group(g);
        let er = b64_encode_spec(r);
        assert(e == eg + er);
        assert(pad_count(r.len()) == pad_count(s.len()));
        assert forall|i: int| 0 <= i < e.len() - pad_count(s.len()) implies is_b64_alphabet(#[trigger] e[i]) by {
            if i < 4 {
                assert(e[i] == eg[i]);
            } else {
                assert(e[i] == er[i - 4]);
            }
        }
        assert forall|i: int| e.len() - pad_count(s.len()) <= i < e.len() implies #[trigger] e[i] == pad_byte() by {
            assert(e[i] == er[i - 4]);
        }
    }
}

/// Encoding a whole number of groups and then the rest gives the
/// encoding of the whole: base64 works group by group.
pub proof fn lemma_b64_encode_concat(a: Seq<u8>, b: Seq<u8>)
    requires
        a.len() % 3 == 0,
    ensures
        b64_encode_spec(a + b) == b64_encode_spec(a) + b64_encode_spec(b),
    decreases a.len(),
{
    if a.len() == 0 {
        assert(a + b =~= b);
        assert(b64_encode_spec(a) + b64_encode_spec(b) =~= b64_encode_spec(b));
    } else if b.len() == 0 {
        assert(a + b =~= a);
        assert(b64_encode_spec(a) + b64_encode_spec(b) =~= b64_encode_spec(a));
    } else {
        let ab = a + b;
        assert(ab.take(3) =~= a.take(3));
        assert(ab.skip(3) =~= a.skip(3) + b);
        lemma_b64_encode_concat(a.skip(3), b);
        if a.len() == 3 {
            assert(a.take(3) =~= a);
            assert(a.skip(3) =~= Seq::<u8>::empty());
            assert(a.skip(3) + b =~= b);
        }
        assert(b64_encode_spec(ab) =~= b64_encode_spec(a) + b64_encode_spec(b));
    }
}

/// Decoding what `b64_encode` produced gives the input back: the text is
/// ASCII, so its UTF-8 bytes are its characters, and every group decodes
/// to the bytes it was made from.
pub proof fn lemma_b64_roundtrip(data: Seq<u8>)
    ensures
        b64_decode_spec(encode_utf8(ascii_chars(b64_encode_spec(data)))) == Some(data),
{
    let e = b64_encode_spec(data);
    lemma_encode_roundtrip_bytes(data);
    let cs = ascii_chars(e);
    assert(is_ascii_chars(cs)) by {
        assert forall|i: int| 0 <= i < cs.len() implies '\0' <= #[trigger] cs[i] <= '\u{7f}' by {
            assert(e[i] < 128);
            assert(cs[i] == e[i] as char);
        }
    }
    is_ascii_chars_encode_utf8(cs);
    let u = encode_utf8(cs);
    assert forall|i: int| 0 <= i < e.len() implies u[i] == e[i] by {
        assert(cs[i] as u8 == u[i]);
        assert(cs[i] == e[i] as char);
        assert(e[i] < 128);
    }
    assert(u =~= e);
}

} // verus!
