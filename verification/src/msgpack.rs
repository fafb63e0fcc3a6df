//! Compact binary wire encoding, MessagePack-compatible.
//!
//! The low-level writers append one value each to a byte buffer, always
//! choosing the minimal-width form for its numeric range: small
//! unsigned values become a single positive-fixint byte, small negative
//! values a single negative-fixint byte, and wider values a one-byte
//! tag followed by big-endian payload bytes.  Strings are emitted as a
//! length header followed by their UTF-8 bytes, and struct values as a
//! map header followed by name/value pairs (see [`crate::peek`] for the
//! traversal that drives this).

use crate::error::Error;
use crate::peek::Peek;
use crate::shape::FieldDesc;
use crate::shape::Identity;
use crate::shape::Kind;
use crate::shape::TypeDesc;
use crate::shape::desc_wf;
use crate::shape::field_wf;
use crate::shape::fields_supported;
use crate::shape::fields_wf;
use crate::shape::lemma_fields_supported_index;
use crate::shape::lemma_fields_wf_index;
use crate::shape::supported;
use crate::value::Value;
use crate::value::children_of;
use crate::value::wf_value;
use vstd::prelude::*;
use vstd::string::StringSliceAdditionalSpecFns;

verus! {

/// The two big-endian bytes of a value in `0 .. 2^16`.
pub open spec fn be2(v: int) -> Seq<u8> {
    seq![(v / 0x100) as u8, (v % 0x100) as u8]
}

/// The four big-endian bytes of a value in `0 .. 2^32`.
pub open spec fn be4(v: int) -> Seq<u8> {
    seq![
        (v / 0x1000000) as u8,
        ((v / 0x10000) % 0x100) as u8,
        ((v / 0x100) % 0x100) as u8,
        (v % 0x100) as u8,
    ]
}

/// The eight big-endian bytes of a value in `0 .. 2^64`.
pub open spec fn be8(v: int) -> Seq<u8> {
    seq![
        (v / 0x100000000000000) as u8,
        ((v / 0x1000000000000) % 0x100) as u8,
        ((v / 0x10000000000) % 0x100) as u8,
        ((v / 0x100000000) % 0x100) as u8,
        ((v / 0x1000000) % 0x100) as u8,
        ((v / 0x10000) % 0x100) as u8,
        ((v / 0x100) % 0x100) as u8,
        (v % 0x100) as u8,
    ]
}

/// Minimal-width encoding of an unsigned integer below `2^64`:
/// positive fixint, then tags `0xcc`, `0xcd`, `0xce`, `0xcf` with 1, 2,
/// 4 and 8 payload bytes.
pub open spec fn enc_uint(v: int) -> Seq<u8> {
    if v <= 0x7f {
        seq![v as u8]
    } else if v <= 0xff {
        seq![0xcc, v as u8]
    } else if v <= 0xffff {
        seq![0xcd] + be2(v)
    } else if v <= 0xffffffff {
        seq![0xce] + be4(v)
    } else {
        seq![0xcf] + be8(v)
    }
}

/// Minimal-width encoding of a signed integer in `-2^63 .. 2^64`: a
/// non-negative value is encoded exactly as the unsigned ranges
/// prescribe (shared positive fixint), a negative one as negative
/// fixint, then tags `0xd0`, `0xd1`, `0xd2`, `0xd3` with two's
/// complement payload bytes.
pub open spec fn enc_sint(v: int) -> Seq<u8> {
    if v >= 0 {
        enc_uint(v)
    } else if v >= -32 {
        seq![(v + 0x100) as u8]
    } else if v >= -0x80 {
        seq![0xd0, (v + 0x100) as u8]
    } else if v >= -0x8000 {
        seq![0xd1] + be2(v + 0x10000)
    } else if v >= -0x80000000 {
        seq![0xd2] + be4(v + 0x100000000)
    } else {
        seq![0xd3] + be8(v + 0x10000000000000000)
    }
}

/// The header announcing a string of the given UTF-8 byte length:
/// fixstr, then tags `0xd9`, `0xda`, `0xdb` with a 1, 2 or 4 byte
/// length field.
pub open spec fn str_header(blen: int) -> Seq<u8> {
    if blen <= 31 {
        seq![(0xa0 + blen) as u8]
    } else if blen <= 0xff {
        seq![0xd9, blen as u8]
    } else if blen <= 0xffff {
        seq![0xda] + be2(blen)
    } else {
        seq![0xdb] + be4(blen)
    }
}

/// The encoding of a string: its length header, then its UTF-8 bytes.
pub open spec fn enc_str(s: Seq<char>) -> Seq<u8> {
    str_header(vstd::utf8::encode_utf8(s).len() as int) + vstd::utf8::encode_utf8(s)
}

/// The header announcing a map of the given number of entries: fixmap,
/// then tags `0xde`, `0xdf` with a 2 or 4 byte length field.
pub open spec fn enc_map_len(n: int) -> Seq<u8> {
    if n <= 15 {
        seq![(0x80 + n) as u8]
    } else if n <= 0xffff {
        seq![0xde] + be2(n)
    } else {
        seq![0xdf] + be4(n)
    }
}

fn push2(out: &mut Vec<u8>, tag: u8, n: u16)
    ensures
        final(out)@ == old(out)@ + seq![tag] + be2(n as int),
{
    out.push(tag);
    out.push((n / 0x100) as u8);
    out.push((n % 0x100) as u8);
    proof {
        assert(out@ =~= old(out)@ + seq![tag] + be2(n as int));
    }
}

fn push4(out: &mut Vec<u8>, tag: u8, n: u32)
    ensures
        final(out)@ == old(out)@ + seq![tag] + be4(n as int),
{
    out.push(tag);
    out.push((n / 0x1000000) as u8);
    out.push(((n / 0x10000) % 0x100) as u8);
    out.push(((n / 0x100) % 0x100) as u8);
    out.push((n % 0x100) as u8);
    proof {
        assert(out@ =~= old(out)@ + seq![tag] + be4(n as int));
    }
}

fn push8(out: &mut Vec<u8>, tag: u8, n: u64)
    ensures
        final(out)@ == old(out)@ + seq![tag] + be8(n as int),
{
    out.push(tag);
    out.push((n / 0x100000000000000) as u8);
    out.push(((n / 0x1000000000000) % 0x100) as u8);
    out.push(((n / 0x10000000000) % 0x100) as u8);
    out.push(((n / 0x100000000) % 0x100) as u8);
    out.push(((n / 0x1000000) % 0x100) as u8);
    out.push(((n / 0x10000) % 0x100) as u8);
    out.push(((n / 0x100) % 0x100) as u8);
    out.push((n % 0x100) as u8);
    proof {
        assert(out@ =~= old(out)@ + seq![tag] + be8(n as int));
    }
}

/// Appends the minimal-width encoding of a `u8`.
pub fn write_u8(out: &mut Vec<u8>, n: u8)
    ensures
        final(out)@ == old(out)@ + enc_uint(n as int),
{
    if n <= 0x7f {
        out.push(n);
        proof {
            assert(out@ =~= old(out)@ + enc_uint(n as int));
        }
    } else {
        out.push(0xcc);
        out.push(n);
        proof {
            assert(out@ =~= old(out)@ + enc_uint(n as int));
        }
    }
}

/// Appends the minimal-width encoding of a `u16`.
pub fn write_u16(out: &mut Vec<u8>, n: u16)
    ensures
        final(out)@ == old(out)@ + enc_uint(n as int),
{
    if n <= 0xff {
        write_u8(out, n as u8);
    } else {
        push2(out, 0xcd, n);
    }
}

/// Appends the minimal-width encoding of a `u32`.
pub fn write_u32(out: &mut Vec<u8>, n: u32)
    ensures
        final(out)@ == old(out)@ + enc_uint(n as int),
{
    if n <= 0xffff {
        write_u16(out, n as u16);
    } else {
        push4(out, 0xce, n);
    }
}

/// Appends the minimal-width encoding of a `u64`.
pub fn write_u64(out: &mut Vec<u8>, n: u64)
    ensures
        final(out)@ == old(out)@ + enc_uint(n as int),
{
    if n <= 0xffffffff {
        write_u32(out, n as u32);
    } else {
        push8(out, 0xcf, n);
    }
}

/// Appends the minimal-width encoding of an `i8`.
pub fn write_i8(out: &mut Vec<u8>, n: i8)
    ensures
        final(out)@ == old(out)@ + enc_sint(n as int),
{
    if n >= 0 {
        out.push(n as u8);
        proof {
            assert(out@ =~= old(out)@ + enc_sint(n as int));
        }
    } else if n >= -32 {
        out.push(((n as i16) + 0x100) as u8);
        proof {
            assert(out@ =~= old(out)@ + enc_sint(n as int));
        }
    } else {
        out.push(0xd0);
        out.push(((n as i16) + 0x100) as u8);
        proof {
            assert(out@ =~= old(out)@ + enc_sint(n as int));
        }
    }
}

/// Appends the minimal-width encoding of an `i16`.
pub fn write_i16(out: &mut Vec<u8>, n: i16)
    ensures
        final(out)@ == old(out)@ + enc_sint(n as int),
{
    if n >= 0 {
        write_u16(out, n as u16);
    } else if n >= -0x80 {
        write_i8(out, n as i8);
    } else {
        push2(out, 0xd1, ((n as i32) + 0x10000) as u16);
    }
}

/// Appends the minimal-width encoding of an `i32`.
pub fn write_i32(out: &mut Vec<u8>, n: i32)
    ensures
        final(out)@ == old(out)@ + enc_sint(n as int),
{
    if n >= 0 {
        write_u32(out, n as u32);
    } else if n >= -0x8000 {
        write_i16(out, n as i16);
    } else {
        push4(out, 0xd2, ((n as i64) + 0x100000000) as u32);
    }
}

/// Appends the minimal-width encoding of an `i64`.
pub fn write_i64(out: &mut Vec<u8>, n: i64)
    ensures
        final(out)@ == old(out)@ + enc_sint(n as int),
{
    if n >= 0 {
        write_u64(out, n as u64);
    } else if n >= -0x80000000 {
        write_i32(out, n as i32);
    } else {
        push8(out, 0xd3, ((n as i128) + 0x10000000000000000) as u64);
    }
}

/// Appends a map header for the given number of entries.
pub fn write_map_len(out: &mut Vec<u8>, len: usize)
    requires
        len <= 0xffffffff,
    ensures
        final(out)@ == old(out)@ + enc_map_len(len as int),
{
    if len <= 15 {
        out.push(0x80 + (len as u8));
        proof {
            assert(out@ =~= old(out)@ + enc_map_len(len as int));
        }
    } else if len <= 0xffff {
        push2(out, 0xde, len as u16);
    } else {
        push4(out, 0xdf, len as u32);
    }
}

/// Appends a string: length header, then UTF-8 bytes.
pub fn write_str(out: &mut Vec<u8>, s: &str)
    requires
        s.spec_bytes().len() <= 0xffffffff,
    ensures
        final(out)@ == old(out)@ + enc_str(s@),
{
    let bytes = s.as_bytes();
    let len = bytes.len();
    if len <= 31 {
        out.push(0xa0 + (len as u8));
        proof {
            assert(out@ =~= old(out)@ + str_header(len as int));
        }
    } else if len <= 0xff {
        out.push(0xd9);
        out.push(len as u8);
        proof {
            assert(out@ =~= old(out)@ + str_header(len as int));
        }
    } else if len <= 0xffff {
        push2(out, 0xda, len as u16);
    } else {
        push4(out, 0xdb, len as u32);
    }
    out.extend_from_slice(bytes);
    proof {
        assert(out@ =~= old(out)@ + enc_str(s@));
    }
}

/// The bytes a well-formed, supported value encodes to: a scalar maps
/// to its minimal-width encoding, a struct to a map header for the
/// declared field count followed, in descriptor order, by each field's
/// wire name and the recursive encoding of its child.
pub open spec fn wire_bytes(v: Value, d: TypeDesc) -> Seq<u8>
    decreases v,
{
    match v {
        Value::Str(s) => enc_str(s@),
        Value::U8(n) => enc_uint(n as int),
        Value::U16(n) => enc_uint(n as int),
        Value::U32(n) => enc_uint(n as int),
        Value::U64(n) => enc_uint(n as int),
        Value::I8(n) => enc_sint(n as int),
        Value::I16(n) => enc_sint(n as int),
        Value::I32(n) => enc_sint(n as int),
        Value::I64(n) => enc_sint(n as int),
        Value::Record(cs) => enc_map_len(d.fields@.len() as int) + fields_wire_bytes(
            cs@,
            d.fields@,
        ),
        Value::Hidden => Seq::empty(),
    }
}

/// The name/value pairs of a struct's encoding, in field order.
pub open spec fn fields_wire_bytes(cs: Seq<Value>, fs: Seq<FieldDesc>) -> Seq<u8>
    decreases cs,
{
    if cs.len() == 0 || fs.len() == 0 {
        Seq::empty()
    } else {
        fields_wire_bytes(cs.drop_last(), fs.drop_last()) + enc_str(fs.last().wire_name@)
            + wire_bytes(cs.last(), fs.last().shape)
    }
}

/// A non-negative value is encoded identically whether it is viewed as
/// signed or unsigned: the positive-fixint range and the wider
/// unsigned forms are shared.
pub proof fn lemma_nonneg_enc_agree(v: int)
    requires
        v >= 0,
    ensures
        enc_sint(v) == enc_uint(v),
{
}

/// The minimal-width guarantee for unsigned values: each documented
/// range is emitted in exactly its own form — a lone positive-fixint
/// byte up to 127, then a tag byte (`0xcc`, `0xcd`, `0xce`, `0xcf`)
/// followed by exactly 1, 2, 4 or 8 payload bytes.
pub proof fn lemma_minimal_width_uint(v: int)
    requires
        0 <= v < 0x10000000000000000,
    ensures
        v <= 0x7f ==> enc_uint(v) == seq![v as u8],
        0x80 <= v <= 0xff ==> enc_uint(v) == seq![0xcc, v as u8] && enc_uint(v)[0] == 0xcc,
        0x100 <= v <= 0xffff ==> enc_uint(v).len() == 3 && enc_uint(v)[0] == 0xcd,
        0x10000 <= v <= 0xffffffff ==> enc_uint(v).len() == 5 && enc_uint(v)[0] == 0xce,
        0x100000000 <= v ==> enc_uint(v).len() == 9 && enc_uint(v)[0] == 0xcf,
{
}

/// The minimal-width guarantee for signed values: negative fixint in a
/// lone byte down to -32, then a tag byte (`0xd0`, `0xd1`, `0xd2`,
/// `0xd3`) followed by exactly 1, 2, 4 or 8 two's complement payload
/// bytes; non-negative values share the unsigned forms.
pub proof fn lemma_minimal_width_sint(v: int)
    requires
        -0x8000000000000000 <= v < 0x10000000000000000,
    ensures
        v >= 0 ==> enc_sint(v) == enc_uint(v),
        -32 <= v <= -1 ==> enc_sint(v) == seq![(v + 0x100) as u8] && enc_sint(v)[0] >= 0xe0,
        -0x80 <= v <= -33 ==> enc_sint(v).len() == 2 && enc_sint(v)[0] == 0xd0,
        -0x8000 <= v <= -0x81 ==> enc_sint(v).len() == 3 && enc_sint(v)[0] == 0xd1,
        -0x80000000 <= v <= -0x8001 ==> enc_sint(v).len() == 5 && enc_sint(v)[0] == 0xd2,
        v <= -0x80000001 ==> enc_sint(v).len() == 9 && enc_sint(v)[0] == 0xd3,
{
}

/// Re-encoding stability: the bytes a value encodes to are a function
/// of the value and its descriptor alone, so serializing the same
/// logical value twice yields byte-identical output.
pub proof fn lemma_reencode_stable(v: Value, d: TypeDesc, b1: Seq<u8>, b2: Seq<u8>)
    requires
        b1 == wire_bytes(v, d),
        b2 == wire_bytes(v, d),
    ensures
        b1 == b2,
{
}

/// A struct always encodes as a map header for its declared field
/// count followed by its fields' name/value pairs, in declaration
/// order — never reordered, filtered or repeated.
pub proof fn lemma_struct_wire_layout(v: Value, d: TypeDesc)
    requires
        d.kind == Kind::Struct,
        v is Record,
    ensures
        wire_bytes(v, d) == enc_map_len(d.fields@.len() as int) + fields_wire_bytes(
            children_of(v),
            d.fields@,
        ),
{
}

/// Extending a struct-encoding prefix by one field appends exactly
/// that field's wire name and then its child's encoding: entry `j` of
/// a struct's body stands after entries `0 .. j` and before all later
/// ones.
pub proof fn lemma_fields_wire_bytes_snoc(cs: Seq<Value>, fs: Seq<FieldDesc>, j: int)
    requires
        0 <= j < cs.len(),
        j < fs.len(),
    ensures
        fields_wire_bytes(cs.take(j + 1), fs.take(j + 1)) == fields_wire_bytes(
            cs.take(j),
            fs.take(j),
        ) + enc_str(fs[j].wire_name@) + wire_bytes(cs[j], fs[j].shape),
{
    assert(cs.take(j + 1).drop_last() =~= cs.take(j));
    assert(fs.take(j + 1).drop_last() =~= fs.take(j));
    assert(cs.take(j + 1).last() == cs[j]);
    assert(fs.take(j + 1).last() == fs[j]);
}

/// Serializes the viewed value into the buffer in MessagePack format
///
/// Exactly the descriptors with an encoding path succeed; a descriptor
/// without one — an opaque type, an unrecognized scalar identity, a
/// composite kind with no rule — is a hard unsupported-type failure,
/// never a silent fallback.  A failure at the root itself writes
/// nothing; a failure below a struct may leave a partial prefix, which
/// the caller must discard.
pub fn serialize(pv: Peek<'_>, out: &mut Vec<u8>) -> (r: Result<(), Error>)
    requires
        pv.wf(),
        desc_wf(*pv.desc),
    ensures
        r is Ok <==> supported(*pv.desc),
        r is Ok ==> final(out)@ == old(out)@ + wire_bytes(*pv.value, *pv.desc),
        r matches Err(e) ==> e == Error::UnsupportedType,
        r is Err && pv.desc.kind != Kind::Struct ==> final(out)@ == old(out)@,
        old(out)@.is_prefix_of(final(out)@),
    decreases *pv.value,
{
    match pv.shape().kind {
        Kind::Scalar => {
            match pv.shape().identity {
                Identity::Str => {
                    let s = match pv.get_str() {
                        Ok(s) => s,
                        Err(_) => vstd::pervasive::unreached(),
                    };
                    write_str(out, s.as_str());
                    Ok(())
                },
                Identity::U8 => {
                    let n = match pv.get_u8() {
                        Ok(n) => n,
                        Err(_) => vstd::pervasive::unreached(),
                    };
                    write_u8(out, n);
                    Ok(())
                },
                Identity::U16 => {
                    let n = match pv.get_u16() {
                        Ok(n) => n,
                        Err(_) => vstd::pervasive::unreached(),
                    };
                    write_u16(out, n);
                    Ok(())
                },
                Identity::U32 => {
                    let n = match pv.get_u32() {
                        Ok(n) => n,
                        Err(_) => vstd::pervasive::unreached(),
                    };
                    write_u32(out, n);
                    Ok(())
                },
                Identity::U64 => {
                    let n = match pv.get_u64() {
                        Ok(n) => n,
                        Err(_) => vstd::pervasive::unreached(),
                    };
                    write_u64(out, n);
                    Ok(())
                },
                Identity::I8 => {
                    let n = match pv.get_i8() {
                        Ok(n) => n,
                        Err(_) => vstd::pervasive::unreached(),
                    };
                    write_i8(out, n);
                    Ok(())
                },
                Identity::I16 => {
                    let n = match pv.get_i16() {
                        Ok(n) => n,
                        Err(_) => vstd::pervasive::unreached(),
                    };
                    write_i16(out, n);
                    Ok(())
                },
                Identity::I32 => {
                    let n = match pv.get_i32() {
                        Ok(n) => n,
                        Err(_) => vstd::pervasive::unreached(),
                    };
                    write_i32(out, n);
                    Ok(())
                },
                Identity::I64 => {
                    let n = match pv.get_i64() {
                        Ok(n) => n,
                        Err(_) => vstd::pervasive::unreached(),
                    };
                    write_i64(out, n);
                    Ok(())
                },
                _ => Err(Error::UnsupportedType),
            }
        },
        Kind::Struct => {
            let sp = match pv.into_struct() {
                Ok(sp) => sp,
                Err(_) => vstd::pervasive::unreached(),
            };
            let n = sp.field_count();
            let ghost cs = children_of(*pv.value);
            let ghost fs = pv.desc.fields@;
            write_map_len(out, n);
            let ghost base = out@;
            let mut j: usize = 0;
            proof {
                assert(fields_wire_bytes(cs.take(0), fs.take(0)) =~= Seq::<u8>::empty());
                assert(out@ =~= base + fields_wire_bytes(cs.take(0), fs.take(0)));
            }
            while j < n
                invariant
                    pv.wf(),
                    sp.wf(),
                    desc_wf(*pv.desc),
                    sp.value == pv.value,
                    sp.desc == pv.desc,
                    n == fs.len() <= 0xffffffff,
                    cs == children_of(*pv.value),
                    cs.len() == n,
                    fs == pv.desc.fields@,
                    0 <= j <= n,
                    base == old(out)@ + enc_map_len(fs.len() as int),
                    out@ == base + fields_wire_bytes(cs.take(j as int), fs.take(j as int)),
                    fields_supported(fs.take(j as int)),
                decreases n - j,
            {
                let (fd, child) = sp.field_at(j);
                let name = fd.wire_name.as_str();
                proof {
                    assert(fields_wf(pv.desc.fields@));
                    lemma_fields_wf_index(fs, j as int);
                    assert(name.spec_bytes() == vstd::utf8::encode_utf8(fs[j as int].wire_name@));
                }
                write_str(out, name);
                proof {
                    assert(decreases_to!(*pv.value => *child.value));
                }
                match serialize(child, out) {
                    Ok(u) => u,
                    Err(e) => {
                        proof {
                            assert(!supported(*pv.desc)) by {
                                if supported(*pv.desc) {
                                    lemma_fields_supported_index(pv.desc.fields@, j as int);
                                }
                            }
                            assert(out@.subrange(0, old(out)@.len() as int) =~= old(out)@);
                        }
                        return Err(e);
                    },
                };
                proof {
                    lemma_fields_wire_bytes_snoc(cs, fs, j as int);
                    assert(out@ =~= base + fields_wire_bytes(cs.take(j + 1), fs.take(j + 1)));
                    assert(fs.take(j + 1).drop_last() =~= fs.take(j as int));
                    assert(fs.take(j + 1).last() == fs[j as int]);
                    assert(fields_supported(fs.take(j + 1)));
                }
                j = j + 1;
            }
            proof {
                assert(cs.take(n as int) =~= cs);
                assert(fs.take(n as int) =~= fs);
                assert(supported(*pv.desc));
                assert(out@ =~= old(out)@ + wire_bytes(*pv.value, *pv.desc));
            }
            Ok(())
        },
        _ => Err(Error::UnsupportedType),
    }
}

/// Serializes a well-formed value with its descriptor to MessagePack
/// bytes: the single entry point, returning either the encoded byte
/// sequence or the classified error.
pub fn to_vec(value: &Value, desc: &TypeDesc) -> (r: Result<Vec<u8>, Error>)
    requires
        wf_value(*value, *desc),
        desc_wf(*desc),
    ensures
        r is Ok <==> supported(*desc),
        r matches Ok(b) ==> b@ == wire_bytes(*value, *desc),
        r matches Err(e) ==> e == Error::UnsupportedType,
{
    let mut buffer: Vec<u8> = Vec::new();
    let peek = Peek::new(value, desc);
    match serialize(peek, &mut buffer) {
        Ok(u) => u,
        Err(e) => {
            return Err(e);
        },
    };
    Ok(buffer)
}

} // verus!
