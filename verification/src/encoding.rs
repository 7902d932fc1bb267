//! Pure argument encoding: the canonical, length-prefixed, deterministic
//! binary form in which scalar and vector arguments reach a command.
//!
//! Integers are fixed-width little-endian; byte strings and vectors are
//! prefixed with their length as a canonical ULEB128 integer; an option
//! is one tag byte followed by the payload when present.  Encoding is
//! done by the serialization library; decoding and validation are this
//! crate's own, proved against the same grammar, so a malformed buffer
//! is rejected exactly where the grammar says it is malformed.

use vstd::prelude::*;

verus! {

/// The eight little-endian bytes of a 64-bit integer.
pub open spec fn u64_le_bytes(x: u64) -> Seq<u8> {
    seq![
        (x & 0xff) as u8,
        ((x >> 8) & 0xff) as u8,
        ((x >> 16) & 0xff) as u8,
        ((x >> 24) & 0xff) as u8,
        ((x >> 32) & 0xff) as u8,
        ((x >> 40) & 0xff) as u8,
        ((x >> 48) & 0xff) as u8,
        ((x >> 56) & 0xff) as u8,
    ]
}

/// The 64-bit integer read from eight little-endian bytes.
pub open spec fn u64_from_le(b: Seq<u8>) -> u64
    recommends
        b.len() == 8,
{
    (b[0] as u64) | (b[1] as u64) << 8 | (b[2] as u64) << 16 | (b[3] as u64) << 24
        | (b[4] as u64) << 32 | (b[5] as u64) << 40 | (b[6] as u64) << 48 | (b[7] as u64) << 56
}

/// The canonical ULEB128 bytes of an integer: seven value bits per byte,
/// least significant first, the high bit marking continuation.
pub open spec fn uleb_bytes(n: nat) -> Seq<u8>
    decreases n,
{
    if n < 0x80 {
        seq![n as u8]
    } else {
        seq![(n % 0x80 + 0x80) as u8] + uleb_bytes(n / 0x80)
    }
}

/// One hundred twenty-eight to the given power: the range of values a
/// ULEB128 run of that many bytes can carry.
pub open spec fn pow128(d: nat) -> nat
    decreases d,
{
    if d == 0 {
        1
    } else {
        128 * pow128((d - 1) as nat)
    }
}

/// Reads a ULEB128 run of at most `depth` further bytes at `pos`: the
/// decoded value and the position after it.  A run that exhausts the
/// buffer or the byte budget fails, as does a non-canonical run whose
/// final seven-bit digit is zero without being the only digit.
pub open spec fn uleb_parse(b: Seq<u8>, pos: int, depth: nat) -> Option<(nat, int)>
    decreases depth,
{
    if depth == 0 || pos < 0 || pos >= b.len() {
        None
    } else {
        let byte = b[pos];
        if byte < 0x80 {
            if depth < 5 && byte == 0 {
                None
            } else {
                Some((byte as nat, pos + 1))
            }
        } else {
            match uleb_parse(b, pos + 1, (depth - 1) as nat) {
                None => None,
                Some((rest, end)) => Some(((byte - 0x80) as nat + 128 * rest, end)),
            }
        }
    }
}

/// Reads one canonical ULEB128 integer at `pos`: at most five bytes, and
/// a decoded value that must fit in 32 bits.
pub open spec fn uleb_decode(b: Seq<u8>, pos: int) -> Option<(nat, int)> {
    match uleb_parse(b, pos, 5) {
        None => None,
        Some((n, end)) => if n <= 0xffff_ffff {
            Some((n, end))
        } else {
            None
        },
    }
}

/// A parsed ULEB128 run of `depth` bytes stays under the range those
/// bytes can carry.
pub proof fn lemma_uleb_parse_bound(b: Seq<u8>, pos: int, depth: nat)
    ensures
        uleb_parse(b, pos, depth) matches Some(p) ==> p.0 < pow128(depth)
            && pos < p.1 <= b.len(),
    decreases depth,
{
    if depth > 0 && 0 <= pos < b.len() {
        lemma_uleb_parse_bound(b, pos + 1, (depth - 1) as nat);
        if b[pos] >= 0x80 {
            match uleb_parse(b, pos + 1, (depth - 1) as nat) {
                Some(p) => {
                    assert((b[pos] - 0x80) as nat + 128 * p.0
                        < 128 * pow128((depth - 1) as nat)) by {
                        assert(p.0 < pow128((depth - 1) as nat));
                        assert(p.0 + 1 <= pow128((depth - 1) as nat));
                    }
                },
                None => {},
            }
        } else {
            assert(pow128(depth) >= 128) by {
                assert(pow128((depth - 1) as nat) >= 1) by {
                    lemma_pow128_pos((depth - 1) as nat);
                }
            }
        }
    }
}

/// Powers of one hundred twenty-eight are positive.
pub proof fn lemma_pow128_pos(d: nat)
    ensures
        pow128(d) >= 1,
    decreases d,
{
    if d > 0 {
        lemma_pow128_pos((d - 1) as nat);
    }
}

/// Reads one canonical ULEB128 integer from the buffer.
pub fn uleb_read(bytes: &Vec<u8>, pos: usize) -> (r: Option<(u64, usize)>)
    requires
        pos <= bytes@.len(),
    ensures
        uleb_decode(bytes@, pos as int) matches Some(p)
            ==> r matches Some(q) && q.0 as nat == p.0 && q.1 as int == p.1,
        uleb_decode(bytes@, pos as int) is None ==> r is None,
{
    proof {
        lemma_uleb_parse_bound(bytes@, pos as int, 5);
    }
    match uleb_read_rec(bytes, pos, 5) {
        Some((n, end)) => {
            if n <= 0xffff_ffff {
                Some((n, end))
            } else {
                None
            }
        },
        None => None,
    }
}

/// Reads a ULEB128 run of at most `depth` further bytes.
fn uleb_read_rec(bytes: &Vec<u8>, pos: usize, depth: u8) -> (r: Option<(u64, usize)>)
    requires
        pos <= bytes@.len(),
        depth <= 5,
    ensures
        uleb_parse(bytes@, pos as int, depth as nat) matches Some(p)
            ==> r matches Some(q) && q.0 as nat == p.0 && q.1 as int == p.1,
        uleb_parse(bytes@, pos as int, depth as nat) is None ==> r is None,
    decreases depth,
{
    if depth == 0 || pos >= bytes.len() {
        return None;
    }
    let byte = bytes[pos];
    if byte < 0x80 {
        if depth < 5 && byte == 0 {
            None
        } else {
            Some((byte as u64, pos + 1))
        }
    } else {
        proof {
            lemma_uleb_parse_bound(bytes@, pos as int + 1, (depth - 1) as nat);
        }
        match uleb_read_rec(bytes, pos + 1, depth - 1) {
            None => None,
            Some((rest, end)) => {
                proof {
                    assert(pow128((depth - 1) as nat) <= pow128(4)) by {
                        lemma_pow128_mono((depth - 1) as nat, 4);
                    }
                    assert(pow128(4) == 0x1000_0000) by {
                        reveal_with_fuel(pow128, 5);
                    }
                }
                Some(((byte - 0x80) as u64 + 128 * rest, end))
            },
        }
    }
}

/// Powers of one hundred twenty-eight grow with the exponent.
pub proof fn lemma_pow128_mono(a: nat, c: nat)
    requires
        a <= c,
    ensures
        pow128(a) <= pow128(c),
    decreases c,
{
    if a < c {
        lemma_pow128_mono(a, (c - 1) as nat);
        lemma_pow128_pos((c - 1) as nat);
    }
}

/// A canonical ULEB128 encoding parses back to the encoded value, with
/// the rest of the buffer untouched.
pub proof fn lemma_uleb_parse_encoded(n: nat, b: Seq<u8>, pos: int, depth: nat)
    requires
        depth <= 5,
        n < pow128(depth),
        depth < 5 ==> n > 0,
        0 <= pos,
        pos + uleb_bytes(n).len() <= b.len(),
        b.subrange(pos, pos + uleb_bytes(n).len() as int) == uleb_bytes(n),
    ensures
        uleb_parse(b, pos, depth) == Some((n, pos + uleb_bytes(n).len())),
    decreases depth,
{
    let e = uleb_bytes(n);
    assert(b[pos] == e[0]) by {
        assert(b.subrange(pos, pos + e.len() as int)[0] == b[pos]);
    }
    if n < 0x80 {
        assert(e == seq![n as u8]);
        assert(b[pos] == n as u8);
        assert(depth >= 1) by {
            if depth == 0 {
                assert(pow128(0) == 1);
            }
        }
    } else {
        assert(b[pos] == (n % 0x80 + 0x80) as u8);
        let tail = uleb_bytes(n / 0x80);
        assert(e == seq![(n % 0x80 + 0x80) as u8] + tail);
        assert(b.subrange(pos + 1, pos + 1 + tail.len() as int) =~= tail) by {
            assert forall|i: int| 0 <= i < tail.len() implies
                b.subrange(pos + 1, pos + 1 + tail.len() as int)[i] == tail[i] by {
                assert(b.subrange(pos, pos + e.len() as int)[i + 1] == e[i + 1]);
            }
        }
        assert(depth >= 1) by {
            if depth == 0 {
                assert(pow128(0) == 1);
            }
        }
        assert(n / 0x80 < pow128((depth - 1) as nat)) by {
            if n / 0x80 >= pow128((depth - 1) as nat) {
                assert(n >= 0x80 * pow128((depth - 1) as nat)) by {
                    assert(n >= 0x80 * (n / 0x80));
                    assert(0x80 * (n / 0x80) >= 0x80 * pow128((depth - 1) as nat))
                        by (nonlinear_arith)
                        requires
                            n / 0x80 >= pow128((depth - 1) as nat),
                    ;
                }
            }
        }
        lemma_uleb_parse_encoded(n / 0x80, b, pos + 1, (depth - 1) as nat);
        assert(uleb_parse(b, pos, depth)
            == Some(((b[pos] - 0x80) as nat + 128 * (n / 0x80), pos + 1 + tail.len())));
        assert((n % 0x80) + 128 * (n / 0x80) == n) by {
            vstd::arithmetic::div_mod::lemma_fundamental_div_mod(n as int, 0x80);
        }
    }
}

/// A canonical ULEB128 length prefix decodes back to the encoded value.
pub proof fn lemma_uleb_decode_encoded(n: nat, b: Seq<u8>, pos: int)
    requires
        n <= 0xffff_ffff,
        0 <= pos,
        pos + uleb_bytes(n).len() <= b.len(),
        b.subrange(pos, pos + uleb_bytes(n).len() as int) == uleb_bytes(n),
    ensures
        uleb_decode(b, pos) == Some((n, pos + uleb_bytes(n).len())),
{
    assert(n < pow128(5)) by {
        reveal_with_fuel(pow128, 6);
    }
    lemma_uleb_parse_encoded(n, b, pos, 5);
}

/// Relies on bcs::to_bytes for a 64-bit integer: eight little-endian
/// bytes, and serialization of a plain integer cannot fail.
#[verifier::external_body]
fn bcs_u64_bytes(x: u64) -> (r: Vec<u8>)
    ensures
        r@ == u64_le_bytes(x),
{
    bcs::to_bytes(&x).unwrap()
}

/// Relies on bcs::to_bytes for a byte vector: a canonical ULEB128 length
/// prefix followed by the bytes themselves.  The library refuses
/// sequences longer than its maximum sequence length, so those are
/// excluded here and serialization cannot fail.
#[verifier::external_body]
fn bcs_byte_vec_bytes(v: &Vec<u8>) -> (r: Vec<u8>)
    requires
        v@.len() <= 0x7fff_ffff,
    ensures
        r@ == uleb_bytes(v@.len()) + v@,
{
    bcs::to_bytes(v).unwrap()
}

/// Encodes a 64-bit integer argument in its canonical binary form.
pub fn encode_pure_u64(x: u64) -> (r: Vec<u8>)
    ensures
        r@ == u64_le_bytes(x),
{
    bcs_u64_bytes(x)
}

/// Encodes a byte-string argument in its canonical binary form: length
/// prefix, then bytes.  A string longer than the encoding's maximum
/// sequence length has no canonical form and is refused.
pub fn encode_pure_bytes(v: &Vec<u8>) -> (r: Option<Vec<u8>>)
    ensures
        v@.len() <= 0x7fff_ffff ==> (r matches Some(b) && b@ == uleb_bytes(v@.len()) + v@),
        v@.len() > 0x7fff_ffff ==> r is None,
{
    if v.len() > 0x7fff_ffff {
        None
    } else {
        Some(bcs_byte_vec_bytes(v))
    }
}

/// Decodes a 64-bit integer argument: exactly eight little-endian bytes.
pub fn decode_pure_u64(bytes: &Vec<u8>) -> (r: Result<u64, crate::errors::CommandArgumentError>)
    ensures
        bytes@.len() == 8 ==> r == Ok::<u64, crate::errors::CommandArgumentError>(
            u64_from_le(bytes@)),
        bytes@.len() != 8 ==> r == Err::<u64, crate::errors::CommandArgumentError>(
            crate::errors::CommandArgumentError::InvalidBCSBytes),
{
    if bytes.len() != 8 {
        return Err(crate::errors::CommandArgumentError::InvalidBCSBytes);
    }
    let r = (bytes[0] as u64) | (bytes[1] as u64) << 8 | (bytes[2] as u64) << 16
        | (bytes[3] as u64) << 24 | (bytes[4] as u64) << 32 | (bytes[5] as u64) << 40
        | (bytes[6] as u64) << 48 | (bytes[7] as u64) << 56;
    Ok(r)
}

/// Integer round trip: decoding an encoded 64-bit integer returns the
/// integer.
pub proof fn lemma_u64_round_trip(x: u64)
    ensures
        u64_from_le(u64_le_bytes(x)) == x,
{
    assert((((x & 0xff) as u8) as u64) | ((((x >> 8) & 0xff) as u8) as u64) << 8
        | ((((x >> 16) & 0xff) as u8) as u64) << 16 | ((((x >> 24) & 0xff) as u8) as u64) << 24
        | ((((x >> 32) & 0xff) as u8) as u64) << 32 | ((((x >> 40) & 0xff) as u8) as u64) << 40
        | ((((x >> 48) & 0xff) as u8) as u64) << 48 | ((((x >> 56) & 0xff) as u8) as u64) << 56
        == x) by (bit_vector);
}

/// A continuation byte of a multi-byte character.
pub open spec fn is_cont_byte(x: u8) -> bool {
    0x80 <= x < 0xC0
}

/// The allowed second byte of a three-byte character, which depends on
/// the leading byte to exclude overlong forms and surrogates.
pub open spec fn valid_second_of_three(b0: u8, b1: u8) -> bool {
    if b0 == 0xE0 {
        0xA0 <= b1 < 0xC0
    } else if b0 == 0xED {
        0x80 <= b1 < 0xA0
    } else {
        is_cont_byte(b1)
    }
}

/// The allowed second byte of a four-byte character, which depends on
/// the leading byte to exclude overlong forms and values past the last
/// code point.
pub open spec fn valid_second_of_four(b0: u8, b1: u8) -> bool {
    if b0 == 0xF0 {
        0x90 <= b1 < 0xC0
    } else if b0 == 0xF4 {
        0x80 <= b1 < 0x90
    } else {
        is_cont_byte(b1)
    }
}

/// The length of the well-formed character encoding starting at `pos`,
/// or zero when none starts there.
pub open spec fn utf8_len_at(b: Seq<u8>, pos: int) -> int {
    if pos < 0 || pos >= b.len() {
        0
    } else {
        let b0 = b[pos];
        if b0 < 0x80 {
            1
        } else if b0 < 0xC2 {
            0
        } else if b0 <= 0xDF {
            if pos + 1 < b.len() && is_cont_byte(b[pos + 1]) {
                2
            } else {
                0
            }
        } else if b0 <= 0xEF {
            if pos + 2 < b.len() && valid_second_of_three(b0, b[pos + 1])
                && is_cont_byte(b[pos + 2]) {
                3
            } else {
                0
            }
        } else if b0 <= 0xF4 {
            if pos + 3 < b.len() && valid_second_of_four(b0, b[pos + 1])
                && is_cont_byte(b[pos + 2]) && is_cont_byte(b[pos + 3]) {
                4
            } else {
                0
            }
        } else {
            0
        }
    }
}

/// The bytes in `pos..end` are a well-formed character sequence.
pub open spec fn utf8_valid_range(b: Seq<u8>, pos: int, end: int) -> bool
    decreases end - pos,
{
    if pos == end {
        true
    } else if pos > end {
        false
    } else {
        let l = utf8_len_at(b, pos);
        l > 0 && pos + l <= end && utf8_valid_range(b, pos + l, end)
    }
}

/// The bytes in `pos..end` are all seven-bit.
pub open spec fn ascii_range(b: Seq<u8>, pos: int, end: int) -> bool {
    forall|i: int| pos <= i < end ==> b[i] < 0x80
}

/// Computes the length of the character encoding starting at `pos`.
fn utf8_step(bytes: &Vec<u8>, pos: usize) -> (l: usize)
    requires
        pos < bytes@.len(),
    ensures
        l as int == utf8_len_at(bytes@, pos as int),
{
    let b0 = bytes[pos];
    if b0 < 0x80 {
        1
    } else if b0 < 0xC2 {
        0
    } else if b0 <= 0xDF {
        if bytes.len() - pos > 1 && bytes[pos + 1] >= 0x80 && bytes[pos + 1] < 0xC0 {
            2
        } else {
            0
        }
    } else if b0 <= 0xEF {
        if bytes.len() - pos > 2 {
            let b1 = bytes[pos + 1];
            let b2 = bytes[pos + 2];
            let second_ok: bool = if b0 == 0xE0 {
                0xA0 <= b1 && b1 < 0xC0
            } else if b0 == 0xED {
                0x80 <= b1 && b1 < 0xA0
            } else {
                0x80 <= b1 && b1 < 0xC0
            };
            if second_ok && 0x80 <= b2 && b2 < 0xC0 {
                3
            } else {
                0
            }
        } else {
            0
        }
    } else if b0 <= 0xF4 {
        if bytes.len() - pos > 3 {
            let b1 = bytes[pos + 1];
            let b2 = bytes[pos + 2];
            let b3 = bytes[pos + 3];
            let second_ok: bool = if b0 == 0xF0 {
                0x90 <= b1 && b1 < 0xC0
            } else if b0 == 0xF4 {
                0x80 <= b1 && b1 < 0x90
            } else {
                0x80 <= b1 && b1 < 0xC0
            };
            if second_ok && 0x80 <= b2 && b2 < 0xC0 && 0x80 <= b3 && b3 < 0xC0 {
                4
            } else {
                0
            }
        } else {
            0
        }
    } else {
        0
    }
}

/// Checks that the bytes in `start..end` are a well-formed character
/// sequence.
pub fn check_utf8_range(bytes: &Vec<u8>, start: usize, end: usize) -> (r: bool)
    requires
        start <= end,
        end <= bytes@.len(),
    ensures
        r == utf8_valid_range(bytes@, start as int, end as int),
{
    let mut cur: usize = start;
    while cur < end
        invariant
            start <= cur <= end <= bytes@.len(),
            utf8_valid_range(bytes@, start as int, end as int)
                == utf8_valid_range(bytes@, cur as int, end as int),
        decreases end - cur,
    {
        let l = utf8_step(bytes, cur);
        if l == 0 || l > end - cur {
            return false;
        }
        cur = cur + l;
    }
    true
}

/// Checks that the bytes in `start..end` are all seven-bit.
pub fn check_ascii_range(bytes: &Vec<u8>, start: usize, end: usize) -> (r: bool)
    requires
        start <= end,
        end <= bytes@.len(),
    ensures
        r == ascii_range(bytes@, start as int, end as int),
{
    let mut cur: usize = start;
    while cur < end
        invariant
            start <= cur <= end <= bytes@.len(),
            forall|i: int| start <= i < cur ==> bytes@[i] < 0x80,
        decreases end - cur,
    {
        if bytes[cur] >= 0x80 {
            return false;
        }
        cur = cur + 1;
    }
    true
}

/// Which validity rule a string argument must meet.
#[derive(Clone, Copy, Debug, PartialEq, Eq, Structural)]
pub enum StrKind {
    Ascii,
    Utf8,
}

/// The declared layout of a pure argument: what shape its bytes must
/// decode as.
#[derive(Clone, Copy, Debug, PartialEq, Eq, Structural)]
pub enum PureLayout {
    U64,
    U64Vector,
    Str(StrKind),
    StrVector(StrKind),
    StrOption(StrKind),
    StrOptionVector(StrKind),
    StrOptionVectorOption(StrKind),
}

/// Whether the bytes in `pos..end` satisfy the string kind.
pub open spec fn str_ok(k: StrKind, b: Seq<u8>, pos: int, end: int) -> bool {
    match k {
        StrKind::Ascii => ascii_range(b, pos, end),
        StrKind::Utf8 => utf8_valid_range(b, pos, end),
    }
}

/// The end of one string value at `pos`: a canonical length prefix within
/// the sequence-length cap, followed by that many bytes satisfying the
/// string kind.
pub open spec fn str_end(k: StrKind, b: Seq<u8>, pos: int) -> Option<int> {
    match uleb_decode(b, pos) {
        None => None,
        Some(p) => if p.0 > 0x7fff_ffff {
            None
        } else if p.1 + p.0 > b.len() {
            None
        } else if str_ok(k, b, p.1, p.1 + p.0) {
            Some(p.1 + p.0)
        } else {
            None
        },
    }
}

/// The end of one optional string value at `pos`: a zero tag byte, or a
/// one tag byte followed by a string value.
pub open spec fn opt_str_end(k: StrKind, b: Seq<u8>, pos: int) -> Option<int> {
    if pos < 0 || pos >= b.len() {
        None
    } else if b[pos] == 0 {
        Some(pos + 1)
    } else if b[pos] == 1 {
        str_end(k, b, pos + 1)
    } else {
        None
    }
}

/// The end of `count` consecutive string values starting at `pos`.
pub open spec fn str_seq_end(k: StrKind, b: Seq<u8>, pos: int, count: nat) -> Option<int>
    decreases count,
{
    if count == 0 {
        Some(pos)
    } else {
        match str_end(k, b, pos) {
            None => None,
            Some(p) => str_seq_end(k, b, p, (count - 1) as nat),
        }
    }
}

/// The end of `count` consecutive optional string values starting at
/// `pos`.
pub open spec fn opt_str_seq_end(k: StrKind, b: Seq<u8>, pos: int, count: nat) -> Option<int>
    decreases count,
{
    if count == 0 {
        Some(pos)
    } else {
        match opt_str_end(k, b, pos) {
            None => None,
            Some(p) => opt_str_seq_end(k, b, p, (count - 1) as nat),
        }
    }
}

/// The end of one vector of optional strings at `pos`: a length prefix
/// within the cap, then that many optional string values.
pub open spec fn opt_str_vec_end(k: StrKind, b: Seq<u8>, pos: int) -> Option<int> {
    match uleb_decode(b, pos) {
        None => None,
        Some(p) => if p.0 > 0x7fff_ffff {
            None
        } else {
            opt_str_seq_end(k, b, p.1, p.0)
        },
    }
}

/// The end of one value of the given layout at `pos`, or nothing when no
/// well-formed value starts there.
pub open spec fn layout_end(layout: PureLayout, b: Seq<u8>, pos: int) -> Option<int> {
    match layout {
        PureLayout::U64 => if 0 <= pos && pos + 8 <= b.len() {
            Some(pos + 8)
        } else {
            None
        },
        PureLayout::U64Vector => match uleb_decode(b, pos) {
            None => None,
            Some(p) => if p.0 > 0x7fff_ffff {
                None
            } else if p.1 + 8 * p.0 > b.len() {
                None
            } else {
                Some(p.1 + 8 * p.0)
            },
        },
        PureLayout::Str(k) => str_end(k, b, pos),
        PureLayout::StrVector(k) => match uleb_decode(b, pos) {
            None => None,
            Some(p) => if p.0 > 0x7fff_ffff {
                None
            } else {
                str_seq_end(k, b, p.1, p.0)
            },
        },
        PureLayout::StrOption(k) => opt_str_end(k, b, pos),
        PureLayout::StrOptionVector(k) => opt_str_vec_end(k, b, pos),
        PureLayout::StrOptionVectorOption(k) => if pos < 0 || pos >= b.len() {
            None
        } else if b[pos] == 0 {
            Some(pos + 1)
        } else if b[pos] == 1 {
            opt_str_vec_end(k, b, pos + 1)
        } else {
            None
        },
    }
}

/// A buffer is a well-formed pure argument of the layout exactly when one
/// value of the layout spans the whole buffer.
pub open spec fn pure_ok(layout: PureLayout, b: Seq<u8>) -> bool {
    layout_end(layout, b, 0) == Some(b.len() as int)
}

/// Checks one string value at `pos`.
fn str_check(k: StrKind, bytes: &Vec<u8>, pos: usize) -> (r: Option<usize>)
    requires
        pos <= bytes@.len(),
    ensures
        str_end(k, bytes@, pos as int) matches Some(p)
            ==> (r matches Some(q) && q as int == p && pos < q <= bytes@.len()),
        str_end(k, bytes@, pos as int) is None ==> r is None,
{
    proof {
        lemma_uleb_parse_bound(bytes@, pos as int, 5);
    }
    match uleb_read(bytes, pos) {
        None => None,
        Some((n, p1)) => {
            if n > 0x7fff_ffff {
                return None;
            }
            let n = n as usize;
            if n > bytes.len() - p1 {
                return None;
            }
            let ok = match k {
                StrKind::Ascii => check_ascii_range(bytes, p1, p1 + n),
                StrKind::Utf8 => check_utf8_range(bytes, p1, p1 + n),
            };
            if ok {
                Some(p1 + n)
            } else {
                None
            }
        },
    }
}

/// Checks one optional string value at `pos`.
fn opt_str_check(k: StrKind, bytes: &Vec<u8>, pos: usize) -> (r: Option<usize>)
    requires
        pos <= bytes@.len(),
    ensures
        opt_str_end(k, bytes@, pos as int) matches Some(p)
            ==> (r matches Some(q) && q as int == p && pos < q <= bytes@.len()),
        opt_str_end(k, bytes@, pos as int) is None ==> r is None,
{
    if pos >= bytes.len() {
        return None;
    }
    if bytes[pos] == 0 {
        Some(pos + 1)
    } else if bytes[pos] == 1 {
        str_check(k, bytes, pos + 1)
    } else {
        None
    }
}

/// Checks `count` consecutive string values starting at `pos`.
fn str_seq_check(k: StrKind, bytes: &Vec<u8>, pos: usize, count: u64) -> (r: Option<usize>)
    requires
        pos <= bytes@.len(),
    ensures
        str_seq_end(k, bytes@, pos as int, count as nat) matches Some(p)
            ==> (r matches Some(q) && q as int == p && pos <= q <= bytes@.len()),
        str_seq_end(k, bytes@, pos as int, count as nat) is None ==> r is None,
{
    let mut cur: usize = pos;
    let mut j: u64 = 0;
    while j < count
        invariant
            pos <= cur <= bytes@.len(),
            j <= count,
            str_seq_end(k, bytes@, pos as int, count as nat)
                == str_seq_end(k, bytes@, cur as int, (count - j) as nat),
        decreases count - j,
    {
        match str_check(k, bytes, cur) {
            None => {
                return None;
            },
            Some(p) => {
                cur = p;
            },
        }
        j = j + 1;
    }
    Some(cur)
}

/// Checks `count` consecutive optional string values starting at `pos`.
fn opt_str_seq_check(k: StrKind, bytes: &Vec<u8>, pos: usize, count: u64) -> (r: Option<usize>)
    requires
        pos <= bytes@.len(),
    ensures
        opt_str_seq_end(k, bytes@, pos as int, count as nat) matches Some(p)
            ==> (r matches Some(q) && q as int == p && pos <= q <= bytes@.len()),
        opt_str_seq_end(k, bytes@, pos as int, count as nat) is None ==> r is None,
{
    let mut cur: usize = pos;
    let mut j: u64 = 0;
    while j < count
        invariant
            pos <= cur <= bytes@.len(),
            j <= count,
            opt_str_seq_end(k, bytes@, pos as int, count as nat)
                == opt_str_seq_end(k, bytes@, cur as int, (count - j) as nat),
        decreases count - j,
    {
        match opt_str_check(k, bytes, cur) {
            None => {
                return None;
            },
            Some(p) => {
                cur = p;
            },
        }
        j = j + 1;
    }
    Some(cur)
}

/// Checks one vector of optional strings at `pos`.
fn opt_str_vec_check(k: StrKind, bytes: &Vec<u8>, pos: usize) -> (r: Option<usize>)
    requires
        pos <= bytes@.len(),
    ensures
        opt_str_vec_end(k, bytes@, pos as int) matches Some(p)
            ==> (r matches Some(q) && q as int == p && pos <= q <= bytes@.len()),
        opt_str_vec_end(k, bytes@, pos as int) is None ==> r is None,
{
    proof {
        lemma_uleb_parse_bound(bytes@, pos as int, 5);
    }
    match uleb_read(bytes, pos) {
        None => None,
        Some((n, p1)) => {
            if n > 0x7fff_ffff {
                return None;
            }
            opt_str_seq_check(k, bytes, p1, n)
        },
    }
}

/// Checks that a buffer is a well-formed pure argument of the declared
/// layout; a malformed buffer is reported as invalid encoded bytes.
pub fn check_pure(layout: PureLayout, bytes: &Vec<u8>) -> (r: Result<(), crate::errors::CommandArgumentError>)
    ensures
        pure_ok(layout, bytes@) ==> r == Ok::<(), crate::errors::CommandArgumentError>(()),
        !pure_ok(layout, bytes@) ==> r == Err::<(), crate::errors::CommandArgumentError>(
            crate::errors::CommandArgumentError::InvalidBCSBytes),
{
    let end: Option<usize> = match layout {
        PureLayout::U64 => {
            if bytes.len() >= 8 {
                Some(8)
            } else {
                None
            }
        },
        PureLayout::U64Vector => {
            proof {
                lemma_uleb_parse_bound(bytes@, 0, 5);
            }
            match uleb_read(bytes, 0) {
                None => None,
                Some((n, p1)) => {
                    if n > 0x7fff_ffff {
                        None
                    } else {
                        let n = n as usize;
                        if (n as u64) * 8 > (bytes.len() - p1) as u64 {
                            None
                        } else {
                            Some(p1 + 8 * n)
                        }
                    }
                },
            }
        },
        PureLayout::Str(k) => str_check(k, bytes, 0),
        PureLayout::StrVector(k) => {
            proof {
                lemma_uleb_parse_bound(bytes@, 0, 5);
            }
            match uleb_read(bytes, 0) {
                None => None,
                Some((n, p1)) => {
                    if n > 0x7fff_ffff {
                        None
                    } else {
                        str_seq_check(k, bytes, p1, n)
                    }
                },
            }
        },
        PureLayout::StrOption(k) => opt_str_check(k, bytes, 0),
        PureLayout::StrOptionVector(k) => opt_str_vec_check(k, bytes, 0),
        PureLayout::StrOptionVectorOption(k) => {
            if bytes.len() == 0 {
                None
            } else if bytes[0] == 0 {
                Some(1)
            } else if bytes[0] == 1 {
                opt_str_vec_check(k, bytes, 1)
            } else {
                None
            }
        },
    };
    match end {
        Some(e) => {
            if e == bytes.len() {
                Ok(())
            } else {
                Err(crate::errors::CommandArgumentError::InvalidBCSBytes)
            }
        },
        None => Err(crate::errors::CommandArgumentError::InvalidBCSBytes),
    }
}

/// An encoded byte string validates as a string argument exactly when its
/// payload satisfies the string kind: the length prefix always parses
/// back and spans the rest of the buffer.
pub proof fn lemma_encoded_str_checks(k: StrKind, v: Seq<u8>, b: Seq<u8>)
    requires
        v.len() <= 0x7fff_ffff,
        b == uleb_bytes(v.len()) + v,
    ensures
        pure_ok(PureLayout::Str(k), b)
            == str_ok(k, b, uleb_bytes(v.len()).len() as int, b.len() as int),
{
    let plen = uleb_bytes(v.len()).len() as int;
    assert(b.subrange(0, plen) =~= uleb_bytes(v.len()));
    lemma_uleb_decode_encoded(v.len(), b, 0);
}

} // verus!
