//! Primitive binary encode and decode operations.
//!
//! The generated code's runtime convention needs, per scalar type, an
//! "encode value into a buffer" and a "decode value from a buffer"
//! primitive over the CBOR wire format. Every item is written into the
//! caller's buffer at its start; each call returns the number of bytes
//! written or read, or `-1` when the buffer is too small or the input does
//! not hold the expected item.

use vstd::prelude::*;
use vstd::pervasive::VecAdditionalExecFns;
use vstd::string::StringSliceAdditionalSpecFns;
use vstd::utf8::encode_utf8;

verus! {

broadcast use {vstd::std_specs::vec::group_vec_axioms, vstd::seq::group_seq_axioms};

/// The wire head of one item: the major type in the three top bits, and the
/// value in the shortest of the five argument forms.
pub open spec fn cbor_head(major: u8, v: u64) -> Seq<u8>
    recommends
        major < 8,
{
    let t = major * 32;
    if v <= 0x17 {
        seq![(t + v) as u8]
    } else if v <= 0xff {
        seq![(t + 24) as u8, v as u8]
    } else if v <= 0xffff {
        seq![(t + 25) as u8, (v / 0x100) as u8, (v % 0x100) as u8]
    } else if v <= 0xffff_ffff {
        seq![
            (t + 26) as u8,
            (v / 0x100_0000) as u8,
            ((v / 0x1_0000) % 0x100) as u8,
            ((v / 0x100) % 0x100) as u8,
            (v % 0x100) as u8,
        ]
    } else {
        seq![
            (t + 27) as u8,
            (v / 0x100_0000_0000_0000) as u8,
            ((v / 0x1_0000_0000_0000) % 0x100) as u8,
            ((v / 0x100_0000_0000) % 0x100) as u8,
            ((v / 0x1_0000_0000) % 0x100) as u8,
            ((v / 0x100_0000) % 0x100) as u8,
            ((v / 0x1_0000) % 0x100) as u8,
            ((v / 0x100) % 0x100) as u8,
            (v % 0x100) as u8,
        ]
    }
}

/// The encoding of an unsigned integer.
pub open spec fn enc_uint(v: u64) -> Seq<u8> {
    cbor_head(0, v)
}

/// The encoding of a signed integer: non-negative values use the unsigned
/// form; a negative value `v` encodes `-1 - v` under the negative major type.
pub open spec fn enc_int(v: i64) -> Seq<u8> {
    if v >= 0 {
        cbor_head(0, v as u64)
    } else {
        cbor_head(1, (-1 - v) as u64)
    }
}

/// The encoding of a boolean.
pub open spec fn enc_bool_spec(b: bool) -> Seq<u8> {
    if b {
        seq![0xf5u8]
    } else {
        seq![0xf4u8]
    }
}

/// The encoding of a simple value.
pub open spec fn enc_simple_spec(x: u8) -> Seq<u8> {
    if x < 0x14 {
        seq![(0xe0 + x) as u8]
    } else {
        seq![0xf8u8, x]
    }
}

/// The encoding of a byte string: its head, then the bytes themselves.
pub open spec fn enc_bytes_spec(b: Seq<u8>) -> Seq<u8> {
    cbor_head(2, b.len() as u64) + b
}

/// The encoding of a text string: its head, then its UTF-8 bytes.
pub open spec fn enc_str_spec(s: Seq<char>) -> Seq<u8> {
    cbor_head(3, encode_utf8(s).len() as u64) + encode_utf8(s)
}

/// What every encode call guarantees: the buffer keeps its length; if the
/// encoding fits, it overwrites the buffer's start and its length is
/// returned; if not, the call returns `-1` and leaves the buffer unchanged.
pub open spec fn enc_post(old_dst: Seq<u8>, new_dst: Seq<u8>, r: i32, enc: Seq<u8>) -> bool {
    &&& new_dst.len() == old_dst.len()
    &&& (enc.len() <= old_dst.len() ==> r == enc.len() as i32 && new_dst == enc + old_dst.skip(
        enc.len() as int,
    ))
    &&& (enc.len() > old_dst.len() ==> r == -1 && new_dst == old_dst)
}

/// The bytes of one item head.
fn head_bytes(major: u8, v: u64) -> (r: Vec<u8>)
    requires
        major < 8,
    ensures
        r@ == cbor_head(major, v),
        r@.len() <= 9,
{
    let t: u8 = major * 32;
    let mut out: Vec<u8> = Vec::new();
    if v <= 0x17 {
        out.push(t + (v as u8));
    } else if v <= 0xff {
        out.push(t + 24);
        out.push(v as u8);
    } else if v <= 0xffff {
        out.push(t + 25);
        out.push((v / 0x100) as u8);
        out.push((v % 0x100) as u8);
    } else if v <= 0xffff_ffff {
        out.push(t + 26);
        out.push((v / 0x100_0000) as u8);
        out.push(((v / 0x1_0000) % 0x100) as u8);
        out.push(((v / 0x100) % 0x100) as u8);
        out.push((v % 0x100) as u8);
    } else {
        out.push(t + 27);
        out.push((v / 0x100_0000_0000_0000) as u8);
        out.push(((v / 0x1_0000_0000_0000) % 0x100) as u8);
        out.push(((v / 0x100_0000_0000) % 0x100) as u8);
        out.push(((v / 0x1_0000_0000) % 0x100) as u8);
        out.push(((v / 0x100_0000) % 0x100) as u8);
        out.push(((v / 0x1_0000) % 0x100) as u8);
        out.push(((v / 0x100) % 0x100) as u8);
        out.push((v % 0x100) as u8);
    }
    proof {
        assert(out@ =~= cbor_head(major, v));
    }
    out
}

/// Overwrite the start of `dst` with `bytes`, if it fits.
fn write_into(dst: &mut Vec<u8>, bytes: &Vec<u8>) -> (r: i32)
    requires
        bytes@.len() <= 0x7fff_ffff,
    ensures
        enc_post(old(dst)@, final(dst)@, r, bytes@),
{
    if bytes.len() > dst.len() {
        return -1;
    }
    let n = bytes.len();
    let mut i: usize = 0;
    while i < n
        invariant
            n == bytes@.len(),
            n <= dst@.len(),
            dst@.len() == old(dst)@.len(),
            0 <= i <= n,
            forall|j: int| 0 <= j < i ==> dst@[j] == bytes@[j],
            forall|j: int| i <= j < dst@.len() ==> dst@[j] == old(dst)@[j],
        decreases n - i,
    {
        dst.set(i, bytes[i]);
        i = i + 1;
    }
    proof {
        assert(dst@ =~= bytes@ + old(dst)@.skip(n as int));
    }
    n as i32
}

/// Encode an unsigned 1-byte integer.
pub fn mcbor_enc_u8(dst: &mut Vec<u8>, val: u8) -> (r: i32)
    ensures
        enc_post(old(dst)@, final(dst)@, r, enc_uint(val as u64)),
{
    let b = head_bytes(0, val as u64);
    write_into(dst, &b)
}

/// Encode a signed 1-byte integer.
pub fn mcbor_enc_i8(dst: &mut Vec<u8>, val: i8) -> (r: i32)
    ensures
        enc_post(old(dst)@, final(dst)@, r, enc_int(val as i64)),
{
    if val >= 0 {
        let b = head_bytes(0, val as u64);
        write_into(dst, &b)
    } else {
        let n: i64 = -1 - (val as i64);
        let b = head_bytes(1, n as u64);
        write_into(dst, &b)
    }
}

/// Encode an unsigned 2-byte integer.
pub fn mcbor_enc_u16(dst: &mut Vec<u8>, val: u16) -> (r: i32)
    ensures
        enc_post(old(dst)@, final(dst)@, r, enc_uint(val as u64)),
{
    let b = head_bytes(0, val as u64);
    write_into(dst, &b)
}

/// Encode a signed 2-byte integer.
pub fn mcbor_enc_i16(dst: &mut Vec<u8>, val: i16) -> (r: i32)
    ensures
        enc_post(old(dst)@, final(dst)@, r, enc_int(val as i64)),
{
    if val >= 0 {
        let b = head_bytes(0, val as u64);
        write_into(dst, &b)
    } else {
        let n: i64 = -1 - (val as i64);
        let b = head_bytes(1, n as u64);
        write_into(dst, &b)
    }
}

/// Encode an unsigned 4-byte integer.
pub fn mcbor_enc_u32(dst: &mut Vec<u8>, val: u32) -> (r: i32)
    ensures
        enc_post(old(dst)@, final(dst)@, r, enc_uint(val as u64)),
{
    let b = head_bytes(0, val as u64);
    write_into(dst, &b)
}

/// Encode a signed 4-byte integer.
pub fn mcbor_enc_i32(dst: &mut Vec<u8>, val: i32) -> (r: i32)
    ensures
        enc_post(old(dst)@, final(dst)@, r, enc_int(val as i64)),
{
    if val >= 0 {
        let b = head_bytes(0, val as u64);
        write_into(dst, &b)
    } else {
        let n: i64 = -1 - (val as i64);
        let b = head_bytes(1, n as u64);
        write_into(dst, &b)
    }
}

/// Encode an unsigned 8-byte integer.
pub fn mcbor_enc_u64(dst: &mut Vec<u8>, val: u64) -> (r: i32)
    ensures
        enc_post(old(dst)@, final(dst)@, r, enc_uint(val)),
{
    let b = head_bytes(0, val);
    write_into(dst, &b)
}

/// Encode a signed 8-byte integer.
pub fn mcbor_enc_i64(dst: &mut Vec<u8>, val: i64) -> (r: i32)
    ensures
        enc_post(old(dst)@, final(dst)@, r, enc_int(val)),
{
    if val >= 0 {
        let b = head_bytes(0, val as u64);
        write_into(dst, &b)
    } else {
        let n: u64 = if val == i64::MIN {
            0x7fff_ffff_ffff_ffff
        } else {
            (-1 - val) as u64
        };
        let b = head_bytes(1, n);
        proof {
            if val == i64::MIN {
                assert((-1 - (val as int)) as u64 == 0x7fff_ffff_ffff_ffffu64);
            }
        }
        write_into(dst, &b)
    }
}

/// Encode a boolean.
pub fn mcbor_enc_bool(dst: &mut Vec<u8>, val: bool) -> (r: i32)
    ensures
        enc_post(old(dst)@, final(dst)@, r, enc_bool_spec(val)),
{
    let mut b: Vec<u8> = Vec::new();
    if val {
        b.push(0xf5);
    } else {
        b.push(0xf4);
    }
    proof {
        assert(b@ =~= enc_bool_spec(val));
    }
    write_into(dst, &b)
}

/// Encode the null marker.
pub fn mcbor_enc_null(dst: &mut Vec<u8>) -> (r: i32)
    ensures
        enc_post(old(dst)@, final(dst)@, r, seq![0xf6u8]),
{
    let mut b: Vec<u8> = Vec::new();
    b.push(0xf6);
    proof {
        assert(b@ =~= seq![0xf6u8]);
    }
    write_into(dst, &b)
}

/// Encode the undefined marker.
pub fn mcbor_enc_undefined(dst: &mut Vec<u8>) -> (r: i32)
    ensures
        enc_post(old(dst)@, final(dst)@, r, seq![0xf7u8]),
{
    let mut b: Vec<u8> = Vec::new();
    b.push(0xf7);
    proof {
        assert(b@ =~= seq![0xf7u8]);
    }
    write_into(dst, &b)
}

/// Encode a simple value.
pub fn mcbor_enc_simple(dst: &mut Vec<u8>, val: u8) -> (r: i32)
    ensures
        enc_post(old(dst)@, final(dst)@, r, enc_simple_spec(val)),
{
    let mut b: Vec<u8> = Vec::new();
    if val < 0x14 {
        b.push(0xe0 + val);
    } else {
        b.push(0xf8);
        b.push(val);
    }
    proof {
        assert(b@ =~= enc_simple_spec(val));
    }
    write_into(dst, &b)
}

/// Begin encoding an array of `len` elements: only the head is written.
pub fn mcbor_enc_array(dst: &mut Vec<u8>, len: u32) -> (r: i32)
    ensures
        enc_post(old(dst)@, final(dst)@, r, cbor_head(4, len as u64)),
{
    let b = head_bytes(4, len as u64);
    write_into(dst, &b)
}

/// Begin encoding a map of `len` entries: only the head is written.
pub fn mcbor_enc_map(dst: &mut Vec<u8>, len: u32) -> (r: i32)
    ensures
        enc_post(old(dst)@, final(dst)@, r, cbor_head(5, len as u64)),
{
    let b = head_bytes(5, len as u64);
    write_into(dst, &b)
}

/// The encoded length of a byte string.
pub fn mcbor_enc_bytes_len(src: &Vec<u8>) -> (r: u32)
    requires
        src@.len() + 9 <= 0xffff_ffff,
    ensures
        r == enc_bytes_spec(src@).len(),
{
    let head = head_bytes(2, src.len() as u64);
    (head.len() as u32) + (src.len() as u32)
}

/// Encode a byte string: its head, then the bytes themselves.
pub fn mcbor_enc_bytes(dst: &mut Vec<u8>, src: &Vec<u8>) -> (r: i32)
    requires
        src@.len() + 9 <= 0x7fff_ffff,
    ensures
        enc_post(old(dst)@, final(dst)@, r, enc_bytes_spec(src@)),
{
    let mut b = head_bytes(2, src.len() as u64);
    let mut i: usize = 0;
    let ghost head = b@;
    while i < src.len()
        invariant
            0 <= i <= src@.len(),
            b@ == head + src@.subrange(0, i as int),
        decreases src@.len() - i,
    {
        b.push(src[i]);
        i = i + 1;
        proof {
            assert(b@ =~= head + src@.subrange(0, i as int));
        }
    }
    proof {
        assert(src@.subrange(0, src@.len() as int) =~= src@);
        assert(b@ == enc_bytes_spec(src@));
    }
    write_into(dst, &b)
}

/// The encoded length of a text string.
pub fn mcbor_enc_str_len(src: &str) -> (r: u32)
    requires
        src@.len() <= encode_utf8(src@).len(),
        encode_utf8(src@).len() + 9 <= 0xffff_ffff,
    ensures
        r == enc_str_spec(src@).len(),
{
    let bytes = src.as_bytes();
    let head = head_bytes(3, bytes.len() as u64);
    (head.len() as u32) + (bytes.len() as u32)
}

/// Encode a text string: its head, then its UTF-8 bytes.
pub fn mcbor_enc_str(dst: &mut Vec<u8>, src: &str) -> (r: i32)
    requires
        encode_utf8(src@).len() + 9 <= 0x7fff_ffff,
    ensures
        enc_post(old(dst)@, final(dst)@, r, enc_str_spec(src@)),
{
    let bytes = src.as_bytes();
    let mut b = head_bytes(3, bytes.len() as u64);
    let mut i: usize = 0;
    let ghost head = b@;
    while i < bytes.len()
        invariant
            bytes@ == encode_utf8(src@),
            0 <= i <= bytes@.len(),
            b@ == head + bytes@.subrange(0, i as int),
        decreases bytes@.len() - i,
    {
        b.push(bytes[i]);
        i = i + 1;
        proof {
            assert(b@ =~= head + bytes@.subrange(0, i as int));
        }
    }
    proof {
        assert(bytes@.subrange(0, bytes@.len() as int) =~= bytes@);
        assert(b@ == enc_str_spec(src@));
    }
    write_into(dst, &b)
}

/// The head of the item at the start of the input: its major type, its
/// value, and how many bytes the head took. `None` when the input is too
/// short or the head form is reserved or indefinite.
pub open spec fn dec_head(src: Seq<u8>) -> Option<(u8, u64, int)> {
    if src.len() == 0 {
        None
    } else {
        let major = src[0] / 32;
        let info = src[0] % 32;
        if info <= 23 {
            Some((major, info as u64, 1))
        } else if info == 24 {
            if src.len() >= 2 {
                Some((major, src[1] as u64, 2))
            } else {
                None
            }
        } else if info == 25 {
            if src.len() >= 3 {
                Some((major, (src[1] as u64 * 0x100 + src[2] as u64) as u64, 3))
            } else {
                None
            }
        } else if info == 26 {
            if src.len() >= 5 {
                Some(
                    (
                        major,
                        (src[1] as u64 * 0x100_0000 + src[2] as u64 * 0x1_0000 + src[3] as u64
                            * 0x100 + src[4] as u64) as u64,
                        5,
                    ),
                )
            } else {
                None
            }
        } else if info == 27 {
            if src.len() >= 9 {
                Some(
                    (
                        major,
                        (src[1] as u64 * 0x100_0000_0000_0000 + src[2] as u64 * 0x1_0000_0000_0000
                            + src[3] as u64 * 0x100_0000_0000 + src[4] as u64 * 0x1_0000_0000
                            + src[5] as u64 * 0x100_0000 + src[6] as u64 * 0x1_0000 + src[7] as u64
                            * 0x100 + src[8] as u64) as u64,
                        9,
                    ),
                )
            } else {
                None
            }
        } else {
            None
        }
    }
}

/// Read the head of the item at the start of `src`.
fn read_head(src: &Vec<u8>) -> (r: Option<(u8, u64, usize)>)
    ensures
        match r {
            Some(h) => dec_head(src@) == Some((h.0, h.1, h.2 as int)),
            None => dec_head(src@) is None,
        },
{
    if src.len() == 0 {
        return None;
    }
    let b0 = src[0];
    let major = b0 / 32;
    let info = b0 % 32;
    if info <= 23 {
        Some((major, info as u64, 1))
    } else if info == 24 {
        if src.len() >= 2 {
            Some((major, src[1] as u64, 2))
        } else {
            None
        }
    } else if info == 25 {
        if src.len() >= 3 {
            Some((major, (src[1] as u64) * 0x100 + (src[2] as u64), 3))
        } else {
            None
        }
    } else if info == 26 {
        if src.len() >= 5 {
            Some(
                (
                    major,
                    (src[1] as u64) * 0x100_0000 + (src[2] as u64) * 0x1_0000 + (src[3] as u64)
                        * 0x100 + (src[4] as u64),
                    5,
                ),
            )
        } else {
            None
        }
    } else if info == 27 {
        if src.len() >= 9 {
            Some(
                (
                    major,
                    (src[1] as u64) * 0x100_0000_0000_0000 + (src[2] as u64) * 0x1_0000_0000_0000
                        + (src[3] as u64) * 0x100_0000_0000 + (src[4] as u64) * 0x1_0000_0000 + (
                    src[5] as u64) * 0x100_0000 + (src[6] as u64) * 0x1_0000 + (src[7] as u64)
                        * 0x100 + (src[8] as u64),
                    9,
                ),
            )
        } else {
            None
        }
    } else {
        None
    }
}

/// Decode a boolean: one byte, the false or the true marker.
pub fn mcbor_dec_bool(dst: &mut bool, src: &Vec<u8>) -> (r: i32)
    ensures
        src@.len() >= 1 && src@[0] == 0xf4 ==> r == 1 && *final(dst) == false,
        src@.len() >= 1 && src@[0] == 0xf5 ==> r == 1 && *final(dst) == true,
        src@.len() == 0 || (src@[0] != 0xf4 && src@[0] != 0xf5) ==> r == -1 && *final(dst)
            == *old(dst),
{
    if src.len() >= 1 && src[0] == 0xf4 {
        *dst = false;
        1
    } else if src.len() >= 1 && src[0] == 0xf5 {
        *dst = true;
        1
    } else {
        -1
    }
}

/// Decode an array head, returning the element count: `0` for an
/// indefinite-length array, `-1` when the item is not an array.
pub fn mcbor_dec_array(src: &Vec<u8>) -> (r: i32)
    ensures
        src@.len() >= 1 && src@[0] == 0x9f ==> r == 0,
        src@.len() >= 1 && src@[0] / 32 == 4 && src@[0] % 32 != 31 ==> match dec_head(src@) {
            Some(h) => r == h.1 as i32,
            None => r == -1,
        },
        src@.len() == 0 || (src@.len() >= 1 && src@[0] / 32 != 4) ==> r == -1,
{
    dec_group_head(src, 4)
}

/// Decode a map head, returning the entry count: `0` for an
/// indefinite-length map, `-1` when the item is not a map.
pub fn mcbor_dec_map(src: &Vec<u8>) -> (r: i32)
    ensures
        src@.len() >= 1 && src@[0] == 0xbf ==> r == 0,
        src@.len() >= 1 && src@[0] / 32 == 5 && src@[0] % 32 != 31 ==> match dec_head(src@) {
            Some(h) => r == h.1 as i32,
            None => r == -1,
        },
        src@.len() == 0 || (src@.len() >= 1 && src@[0] / 32 != 5) ==> r == -1,
{
    dec_group_head(src, 5)
}

/// Decode the head of a container item of the given major type.
fn dec_group_head(src: &Vec<u8>, major: u8) -> (r: i32)
    requires
        major == 4 || major == 5,
    ensures
        src@.len() >= 1 && src@[0] / 32 == major && src@[0] % 32 == 31 ==> r == 0,
        src@.len() >= 1 && src@[0] / 32 == major && src@[0] % 32 != 31 ==> match dec_head(src@) {
            Some(h) => r == h.1 as i32,
            None => r == -1,
        },
        src@.len() == 0 || (src@.len() >= 1 && src@[0] / 32 != major) ==> r == -1,
{
    if src.len() == 0 {
        return -1;
    }
    if src[0] / 32 != major {
        return -1;
    }
    if src[0] % 32 == 31 {
        return 0;
    }
    match read_head(src) {
        Some(h) => {
            #[verifier::truncate]
            let v = h.1 as i32;
            v
        },
        None => -1,
    }
}

/// Decode a byte string into the caller's buffer, returning how many bytes
/// the string held; `-1` when the item is not a byte string or the buffer
/// cannot hold it.
pub fn mcbor_dec_bytes(dst: &mut Vec<u8>, src: &Vec<u8>) -> (r: i32)
    ensures
        final(dst)@.len() == old(dst)@.len(),
        match dec_head(src@) {
            Some(h) => {
                if h.0 == 2 && h.1 + h.2 <= src@.len() && h.1 <= old(dst)@.len() && h.1
                    <= 0x7fff_ffff {
                    r == h.1 as i32 && final(dst)@ == src@.subrange(h.2, h.2 + h.1 as int) + old(
                        dst,
                    )@.skip(h.1 as int)
                } else {
                    r == -1 && final(dst)@ == old(dst)@
                }
            },
            None => r == -1 && final(dst)@ == old(dst)@,
        },
{
    match read_head(src) {
        None => -1,
        Some((major, len, head_len)) => {
            if major != 2 {
                return -1;
            }
            if len > 0x7fff_ffff {
                return -1;
            }
            let len = len as usize;
            if src.len() - head_len < len {
                return -1;
            }
            if len > dst.len() {
                return -1;
            }
            let mut i: usize = 0;
            while i < len
                invariant
                    0 <= i <= len,
                    head_len + len <= src@.len(),
                    src@.len() <= usize::MAX,
                    len <= dst@.len(),
                    dst@.len() == old(dst)@.len(),
                    forall|j: int| 0 <= j < i ==> dst@[j] == src@[head_len + j],
                    forall|j: int| i <= j < dst@.len() ==> dst@[j] == old(dst)@[j],
                decreases len - i,
            {
                proof {
                    assert(head_len + i < src@.len());
                }
                dst.set(i, src[head_len + i]);
                i = i + 1;
            }
            proof {
                assert(dst@ =~= src@.subrange(head_len as int, head_len + len) + old(dst)@.skip(
                    len as int,
                ));
            }
            len as i32
        },
    }
}

/// Relies on `core::str::from_utf8`: it accepts a byte sequence exactly
/// when the bytes are valid UTF-8.
#[verifier::external_body]
fn is_valid_utf8(b: &Vec<u8>) -> (r: bool)
    ensures
        r == vstd::utf8::valid_utf8(b@),
{
    core::str::from_utf8(b).is_ok()
}

/// Decode a text string into the caller's buffer, returning how many bytes
/// the text held; `-1` when the item is not a text string, the payload is
/// not valid UTF-8, or the buffer cannot hold it.
pub fn mcbor_dec_str(dst: &mut Vec<u8>, src: &Vec<u8>) -> (r: i32)
    ensures
        final(dst)@.len() == old(dst)@.len(),
        match dec_head(src@) {
            Some(h) => {
                if h.0 == 3 && h.1 + h.2 <= src@.len() && h.1 <= old(dst)@.len() && h.1
                    <= 0x7fff_ffff && vstd::utf8::valid_utf8(
                    src@.subrange(h.2, h.2 + h.1 as int),
                ) {
                    r == h.1 as i32 && final(dst)@ == src@.subrange(h.2, h.2 + h.1 as int) + old(
                        dst,
                    )@.skip(h.1 as int)
                } else {
                    r == -1 && final(dst)@ == old(dst)@
                }
            },
            None => r == -1 && final(dst)@ == old(dst)@,
        },
{
    match read_head(src) {
        None => -1,
        Some((major, len, head_len)) => {
            if major != 3 {
                return -1;
            }
            if len > 0x7fff_ffff {
                return -1;
            }
            let len = len as usize;
            if src.len() - head_len < len {
                return -1;
            }
            if len > dst.len() {
                return -1;
            }
            let mut payload: Vec<u8> = Vec::new();
            let mut i: usize = 0;
            while i < len
                invariant
                    0 <= i <= len,
                    head_len + len <= src@.len(),
                    src@.len() <= usize::MAX,
                    payload@ == src@.subrange(head_len as int, head_len + i),
                decreases len - i,
            {
                proof {
                    assert(head_len + i < src@.len());
                }
                payload.push(src[head_len + i]);
                i = i + 1;
                proof {
                    assert(payload@ =~= src@.subrange(head_len as int, head_len + i));
                }
            }
            if !is_valid_utf8(&payload) {
                return -1;
            }
            let mut i: usize = 0;
            while i < len
                invariant
                    0 <= i <= len,
                    len <= dst@.len(),
                    len == payload@.len(),
                    dst@.len() == old(dst)@.len(),
                    forall|j: int| 0 <= j < i ==> dst@[j] == payload@[j],
                    forall|j: int| i <= j < dst@.len() ==> dst@[j] == old(dst)@[j],
                decreases len - i,
            {
                dst.set(i, payload[i]);
                i = i + 1;
            }
            proof {
                assert(dst@ =~= payload@ + old(dst)@.skip(len as int));
            }
            len as i32
        },
    }
}

} // verus!
