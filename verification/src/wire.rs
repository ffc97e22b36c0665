//! The protobuf wire format as prost reads it: field keys, varints, fixed
//! width numbers and length-delimited data, each read from the front of a
//! window of bytes.
use vstd::prelude::*;
use vstd::utf8::{decode_utf8, valid_utf8};

verus! {

/// The error type of prost's decoding functions.
#[verifier::external_type_specification]
#[verifier::external_body]
pub struct ExDecodeError(prost::DecodeError);

/// How a field's value is laid out on the wire.
#[derive(Debug, Clone, Copy, PartialEq, Eq, Structural)]
pub enum WireType {
    Varint,
    SixtyFourBit,
    LengthDelimited,
    StartGroup,
    EndGroup,
    ThirtyTwoBit,
}

/// The wire type with number `n`, for the six numbers that name one.
pub open spec fn wire_type_of(n: int) -> Option<WireType> {
    if n == 0 {
        Some(WireType::Varint)
    } else if n == 1 {
        Some(WireType::SixtyFourBit)
    } else if n == 2 {
        Some(WireType::LengthDelimited)
    } else if n == 3 {
        Some(WireType::StartGroup)
    } else if n == 4 {
        Some(WireType::EndGroup)
    } else if n == 5 {
        Some(WireType::ThirtyTwoBit)
    } else {
        None
    }
}

/// The index of the first byte at or after `i` whose high bit is clear.
pub open spec fn varint_end(w: Seq<u8>, i: nat) -> Option<nat>
    decreases w.len() - i,
{
    if i >= w.len() {
        None
    } else if w[i as int] < 128 {
        Some(i)
    } else {
        varint_end(w, i + 1)
    }
}

pub open spec fn pow128(i: nat) -> nat
    decreases i,
{
    if i == 0 {
        1
    } else {
        128 * pow128((i - 1) as nat)
    }
}

/// The number that the low seven bits of the first `n` bytes spell, least
/// significant group first.
pub open spec fn varint_sum(w: Seq<u8>, n: nat) -> nat
    decreases n,
{
    if n == 0 {
        0
    } else {
        varint_sum(w, (n - 1) as nat) + (w[n - 1] % 128) as nat * pow128((n - 1) as nat)
    }
}

/// A varint at the front of `w`: its value and length. It ends at the first
/// byte below 128, within ten bytes, and a tenth byte may only be 0 or 1.
pub open spec fn spec_varint(w: Seq<u8>) -> Option<(u64, nat)> {
    match varint_end(w, 0) {
        Some(k) => if k < 10 && (k == 9 ==> w[9] < 2) {
            Some((varint_sum(w, k + 1) as u64, k + 1))
        } else {
            None
        },
        None => None,
    }
}

/// A field key at the front of `w`: a varint no larger than `u32::MAX`
/// whose low three bits name a wire type and whose other bits are a tag of
/// at least 1.
pub open spec fn spec_key(w: Seq<u8>) -> Option<(u32, WireType, nat)> {
    match spec_varint(w) {
        Some((v, n)) => if v > u32::MAX {
            None
        } else {
            match wire_type_of((v % 8) as int) {
                Some(wt) => if v / 8 >= 1 {
                    Some(((v / 8) as u32, wt, n))
                } else {
                    None
                },
                None => None,
            }
        },
        None => None,
    }
}

/// A length prefix at the front of `w`: a varint that fits in `usize`.
pub open spec fn spec_length_delimiter(w: Seq<u8>) -> Option<(usize, nat)> {
    match spec_varint(w) {
        Some((v, n)) => if v > usize::MAX {
            None
        } else {
            Some((v as usize, n))
        },
        None => None,
    }
}

/// The little-endian number in the first four bytes.
pub open spec fn le32(w: Seq<u8>) -> u32 {
    (w[0] + 256 * w[1] + 65536 * w[2] + 16777216 * w[3]) as u32
}

/// The little-endian number in the first eight bytes.
pub open spec fn le64(w: Seq<u8>) -> u64 {
    (le32(w) + 4294967296 * le32(w.skip(4))) as u64
}

/// The zigzag decoding of a 32-bit varint.
pub open spec fn zigzag32(u: u32) -> i32 {
    if u % 2 == 0 {
        (u / 2) as i32
    } else {
        (-((u / 2) as int) - 1) as i32
    }
}

/// The zigzag decoding of a 64-bit varint.
pub open spec fn zigzag64(u: u64) -> i64 {
    if u % 2 == 0 {
        (u / 2) as i64
    } else {
        (-((u / 2) as int) - 1) as i64
    }
}

/// Length-delimited data at the front of `w`: a varint length and that many
/// bytes after it. Gives the data and the total length read.
pub open spec fn spec_delimited(w: Seq<u8>) -> Option<(Seq<u8>, nat)> {
    match spec_varint(w) {
        Some((len, n)) => if len <= w.len() - n {
            Some((w.subrange(n as int, n + len), (n + len) as nat))
        } else {
            None
        },
        None => None,
    }
}

/// A varint, a key and a length prefix each take at least one byte.
pub proof fn lemma_prefix_len(w: Seq<u8>)
    ensures
        spec_varint(w) matches Some((x, n)) ==> 1 <= n,
        spec_key(w) matches Some((t, wt, n)) ==> 1 <= n,
        spec_length_delimiter(w) matches Some((l, n)) ==> 1 <= n,
        spec_delimited(w) matches Some((d, n)) ==> 1 <= n,
{
}

/// The end of a varint lies within the bytes.
proof fn lemma_varint_end_within(w: Seq<u8>, i: nat)
    ensures
        varint_end(w, i) matches Some(k) ==> i <= k < w.len(),
    decreases w.len() - i,
{
    if i < w.len() && w[i as int] >= 128 {
        lemma_varint_end_within(w, i + 1);
    }
}

/// A varint and a key never reach past the bytes they are read from.
pub proof fn lemma_prefix_within(w: Seq<u8>)
    ensures
        spec_varint(w) matches Some((x, n)) ==> n <= w.len(),
        spec_key(w) matches Some((t, wt, n)) ==> n <= w.len(),
{
    lemma_varint_end_within(w, 0);
}

/// The end of a varint found in `w` is found alike in any bytes that begin
/// with `w`.
proof fn lemma_varint_end_prefix(w: Seq<u8>, w2: Seq<u8>, i: nat)
    requires
        w.len() <= w2.len(),
        w2.take(w.len() as int) == w,
    ensures
        varint_end(w, i) matches Some(k) ==> varint_end(w2, i) == Some(k),
    decreases w.len() - i,
{
    if i < w.len() {
        assert(w2[i as int] == w[i as int]);
        if w[i as int] >= 128 {
            lemma_varint_end_prefix(w, w2, i + 1);
        }
    }
}

/// The sum of the first `n` groups of `w` is the same in any bytes that
/// begin with `w`.
proof fn lemma_varint_sum_prefix(w: Seq<u8>, w2: Seq<u8>, n: nat)
    requires
        n <= w.len() <= w2.len(),
        w2.take(w.len() as int) == w,
    ensures
        varint_sum(w, n) == varint_sum(w2, n),
    decreases n,
{
    if n > 0 {
        assert(w2[n - 1] == w[n - 1]);
        lemma_varint_sum_prefix(w, w2, (n - 1) as nat);
    }
}

/// What is read from the front of `w` is read alike from any bytes that
/// begin with `w`.
pub proof fn lemma_reads_prefix(w: Seq<u8>, w2: Seq<u8>)
    requires
        w.len() <= w2.len(),
        w2.take(w.len() as int) == w,
    ensures
        spec_varint(w) matches Some(p) ==> spec_varint(w2) == Some(p),
        spec_key(w) matches Some(p) ==> spec_key(w2) == Some(p),
        spec_length_delimiter(w) matches Some(p) ==> spec_length_delimiter(w2) == Some(p),
        spec_delimited(w) matches Some(p) ==> spec_delimited(w2) == Some(p),
        w.len() >= 4 ==> le32(w) == le32(w2),
        w.len() >= 8 ==> le64(w) == le64(w2),
{
    lemma_varint_end_prefix(w, w2, 0);
    lemma_varint_end_within(w, 0);
    match varint_end(w, 0) {
        Some(k) => {
            lemma_varint_sum_prefix(w, w2, k + 1);
            if k == 9 {
                assert(w2[9] == w[9]);
            }
        },
        None => {},
    }
    if w.len() >= 4 {
        assert(w2[0] == w[0] && w2[1] == w[1] && w2[2] == w[2] && w2[3] == w[3]);
    }
    if w.len() >= 8 {
        assert(w2.skip(4)[0] == w.skip(4)[0] && w2.skip(4)[1] == w.skip(4)[1] && w2.skip(4)[2] == w.skip(4)[2]
            && w2.skip(4)[3] == w.skip(4)[3]);
    }
    match spec_delimited(w) {
        Some((data, m)) => {
            assert(w2.subrange((m - data.len()) as int, m as int) =~= data);
        },
        None => {},
    }
}

/// Skipping a field that is not a group reads alike in any bytes that begin
/// with `w`.
pub proof fn lemma_skip_prefix(wt: WireType, tag: u32, w: Seq<u8>, w2: Seq<u8>)
    requires
        w.len() <= w2.len(),
        w2.take(w.len() as int) == w,
        wt != WireType::StartGroup,
    ensures
        spec_skip(wt, tag, w) matches Some(k) ==> spec_skip(wt, tag, w2) == Some(k),
{
    lemma_reads_prefix(w, w2);
}

/// The number of bytes `prost::encoding::skip_field` reads for a group
/// started with `tag`, or `None` where it fails.
pub uninterp spec fn prost_skip_field(wire_type: WireType, tag: u32, w: Seq<u8>) -> Option<nat>;

/// The number of bytes `prost::encoding::skip_field` reads to skip a field of
/// the given wire type whose key is already read, or `None` where it fails: a
/// varint; four or eight bytes; a length and that many bytes; for a group,
/// what it reads up to the group's end; and never an end of group.
pub open spec fn spec_skip(wire_type: WireType, tag: u32, w: Seq<u8>) -> Option<nat> {
    match wire_type {
        WireType::Varint => match spec_varint(w) {
            Some((_, n)) => Some(n),
            None => None,
        },
        WireType::ThirtyTwoBit => if w.len() >= 4 {
            Some(4)
        } else {
            None
        },
        WireType::SixtyFourBit => if w.len() >= 8 {
            Some(8)
        } else {
            None
        },
        WireType::LengthDelimited => match spec_varint(w) {
            Some((v, n)) => if v <= w.len() - n {
                Some((n + v) as nat)
            } else {
                None
            },
            None => None,
        },
        WireType::StartGroup => prost_skip_field(wire_type, tag, w),
        WireType::EndGroup => None,
    }
}

/// Calls `prost::encoding::decode_varint` on `w`. Claims: it succeeds exactly
/// when `spec_varint` finds a varint, gives its value, and leaves the bytes
/// after it.
#[verifier::external_body]
pub(crate) fn read_varint(w: &[u8]) -> (res: Result<(u64, usize), prost::DecodeError>)
    ensures
        match res {
            Ok((v, rest)) => spec_varint(w@) matches Some((x, n)) && v == x && rest == w@.len() - n,
            Err(_) => spec_varint(w@) is None,
        },
{
    let mut buf = w;
    let value = prost::encoding::decode_varint(&mut buf)?;
    Ok((value, buf.len()))
}

/// Calls `prost::encoding::decode_key` on `w`. Claims: it succeeds exactly
/// when `spec_key` finds a key, gives its tag and wire type, and leaves the
/// bytes after it.
#[verifier::external_body]
pub(crate) fn read_key(w: &[u8]) -> (res: Result<(u32, WireType, usize), prost::DecodeError>)
    ensures
        match res {
            Ok((tag, wt, rest)) => spec_key(w@) matches Some((t, x, n)) && tag == t && wt == x && rest
                == w@.len() - n,
            Err(_) => spec_key(w@) is None,
        },
{
    let mut buf = w;
    let (tag, wire_type) = prost::encoding::decode_key(&mut buf)?;
    let wt = match wire_type {
        prost::encoding::WireType::Varint => WireType::Varint,
        prost::encoding::WireType::SixtyFourBit => WireType::SixtyFourBit,
        prost::encoding::WireType::LengthDelimited => WireType::LengthDelimited,
        prost::encoding::WireType::StartGroup => WireType::StartGroup,
        prost::encoding::WireType::EndGroup => WireType::EndGroup,
        prost::encoding::WireType::ThirtyTwoBit => WireType::ThirtyTwoBit,
    };
    Ok((tag, wt, buf.len()))
}

/// Calls `prost::decode_length_delimiter` on `w`. Claims: it succeeds exactly
/// when `spec_length_delimiter` finds a length, gives it, and leaves the
/// bytes after the prefix.
#[verifier::external_body]
pub(crate) fn read_length_delimiter(w: &[u8]) -> (res: Result<(usize, usize), prost::DecodeError>)
    ensures
        match res {
            Ok((len, rest)) => spec_length_delimiter(w@) matches Some((l, n)) && len == l && rest
                == w@.len() - n,
            Err(_) => spec_length_delimiter(w@) is None,
        },
{
    let mut buf = w;
    let len = prost::decode_length_delimiter(&mut buf)?;
    Ok((len, buf.len()))
}

/// Calls `prost::encoding::skip_field` with a fresh decode context. Claims,
/// as its source shows: it reads a varint for the varint wire type, four or
/// eight bytes for the fixed ones, a length and that many bytes for the
/// length-delimited one, fails on an end of group and on a window too short;
/// for a group it reads the named result `prost_skip_field`; it never reads
/// past the window.
#[verifier::external_body]
pub(crate) fn skip_field(wire_type: WireType, tag: u32, w: &[u8]) -> (res: Result<usize, prost::DecodeError>)
    ensures
        match res {
            Ok(rest) => spec_skip(wire_type, tag, w@) matches Some(n) && n <= w@.len() && rest
                == w@.len() - n,
            Err(_) => spec_skip(wire_type, tag, w@) is None,
        },
        wire_type is StartGroup ==> match res {
            Ok(rest) => prost_skip_field(wire_type, tag, w@) == Some((w@.len() - rest) as nat),
            Err(_) => prost_skip_field(wire_type, tag, w@) is None,
        },
{
    let wt = match wire_type {
        WireType::Varint => prost::encoding::WireType::Varint,
        WireType::SixtyFourBit => prost::encoding::WireType::SixtyFourBit,
        WireType::LengthDelimited => prost::encoding::WireType::LengthDelimited,
        WireType::StartGroup => prost::encoding::WireType::StartGroup,
        WireType::EndGroup => prost::encoding::WireType::EndGroup,
        WireType::ThirtyTwoBit => prost::encoding::WireType::ThirtyTwoBit,
    };
    let mut buf = w;
    prost::encoding::skip_field(wt, tag, &mut buf, prost::encoding::DecodeContext::default())?;
    Ok(buf.len())
}

/// Calls `prost::encoding::int32::merge` with the varint wire type. Claims:
/// it reads a varint and keeps its low 32 bits.
#[verifier::external_body]
pub(crate) fn read_int32(w: &[u8]) -> (res: Result<(i32, usize), prost::DecodeError>)
    ensures
        match res {
            Ok((v, rest)) => spec_varint(w@) matches Some((x, n)) && v == x as i32 && rest == w@.len() - n,
            Err(_) => spec_varint(w@) is None,
        },
{
    let mut buf = w;
    let mut value: i32 = 0;
    prost::encoding::int32::merge(prost::encoding::WireType::Varint, &mut value, &mut buf, prost::encoding::DecodeContext::default())?;
    Ok((value, buf.len()))
}

/// Calls `prost::encoding::int64::merge` with the varint wire type. Claims:
/// it reads a varint as a signed 64-bit number.
#[verifier::external_body]
pub(crate) fn read_int64(w: &[u8]) -> (res: Result<(i64, usize), prost::DecodeError>)
    ensures
        match res {
            Ok((v, rest)) => spec_varint(w@) matches Some((x, n)) && v == x as i64 && rest == w@.len() - n,
            Err(_) => spec_varint(w@) is None,
        },
{
    let mut buf = w;
    let mut value: i64 = 0;
    prost::encoding::int64::merge(prost::encoding::WireType::Varint, &mut value, &mut buf, prost::encoding::DecodeContext::default())?;
    Ok((value, buf.len()))
}

/// Calls `prost::encoding::uint32::merge` with the varint wire type. Claims:
/// it reads a varint and keeps its low 32 bits.
#[verifier::external_body]
pub(crate) fn read_uint32(w: &[u8]) -> (res: Result<(u32, usize), prost::DecodeError>)
    ensures
        match res {
            Ok((v, rest)) => spec_varint(w@) matches Some((x, n)) && v == x as u32 && rest == w@.len() - n,
            Err(_) => spec_varint(w@) is None,
        },
{
    let mut buf = w;
    let mut value: u32 = 0;
    prost::encoding::uint32::merge(prost::encoding::WireType::Varint, &mut value, &mut buf, prost::encoding::DecodeContext::default())?;
    Ok((value, buf.len()))
}

/// Calls `prost::encoding::uint64::merge` with the varint wire type. Claims:
/// it reads a varint.
#[verifier::external_body]
pub(crate) fn read_uint64(w: &[u8]) -> (res: Result<(u64, usize), prost::DecodeError>)
    ensures
        match res {
            Ok((v, rest)) => spec_varint(w@) matches Some((x, n)) && v == x && rest == w@.len() - n,
            Err(_) => spec_varint(w@) is None,
        },
{
    let mut buf = w;
    let mut value: u64 = 0;
    prost::encoding::uint64::merge(prost::encoding::WireType::Varint, &mut value, &mut buf, prost::encoding::DecodeContext::default())?;
    Ok((value, buf.len()))
}

/// Calls `prost::encoding::sint32::merge` with the varint wire type. Claims:
/// it reads a varint and zigzag-decodes its low 32 bits.
#[verifier::external_body]
pub(crate) fn read_sint32(w: &[u8]) -> (res: Result<(i32, usize), prost::DecodeError>)
    ensures
        match res {
            Ok((v, rest)) => spec_varint(w@) matches Some((x, n)) && v == zigzag32(x as u32) && rest
                == w@.len() - n,
            Err(_) => spec_varint(w@) is None,
        },
{
    let mut buf = w;
    let mut value: i32 = 0;
    prost::encoding::sint32::merge(prost::encoding::WireType::Varint, &mut value, &mut buf, prost::encoding::DecodeContext::default())?;
    Ok((value, buf.len()))
}

/// Calls `prost::encoding::sint64::merge` with the varint wire type. Claims:
/// it reads a varint and zigzag-decodes it.
#[verifier::external_body]
pub(crate) fn read_sint64(w: &[u8]) -> (res: Result<(i64, usize), prost::DecodeError>)
    ensures
        match res {
            Ok((v, rest)) => spec_varint(w@) matches Some((x, n)) && v == zigzag64(x) && rest == w@.len() - n,
            Err(_) => spec_varint(w@) is None,
        },
{
    let mut buf = w;
    let mut value: i64 = 0;
    prost::encoding::sint64::merge(prost::encoding::WireType::Varint, &mut value, &mut buf, prost::encoding::DecodeContext::default())?;
    Ok((value, buf.len()))
}

/// Calls `prost::encoding::bool::merge` with the varint wire type. Claims:
/// it reads a varint and is true when it is not zero.
#[verifier::external_body]
pub(crate) fn read_bool(w: &[u8]) -> (res: Result<(bool, usize), prost::DecodeError>)
    ensures
        match res {
            Ok((v, rest)) => spec_varint(w@) matches Some((x, n)) && v == (x != 0) && rest == w@.len() - n,
            Err(_) => spec_varint(w@) is None,
        },
{
    let mut buf = w;
    let mut value: bool = false;
    prost::encoding::bool::merge(prost::encoding::WireType::Varint, &mut value, &mut buf, prost::encoding::DecodeContext::default())?;
    Ok((value, buf.len()))
}

/// Calls `prost::encoding::fixed32::merge` with the 32-bit wire type. Claims:
/// with at least four bytes it reads them as a little-endian number, and
/// fails otherwise.
#[verifier::external_body]
pub(crate) fn read_fixed32(w: &[u8]) -> (res: Result<(u32, usize), prost::DecodeError>)
    ensures
        match res {
            Ok((v, rest)) => w@.len() >= 4 && v == le32(w@) && rest == w@.len() - 4,
            Err(_) => w@.len() < 4,
        },
{
    let mut buf = w;
    let mut value: u32 = 0;
    prost::encoding::fixed32::merge(prost::encoding::WireType::ThirtyTwoBit, &mut value, &mut buf, prost::encoding::DecodeContext::default())?;
    Ok((value, buf.len()))
}

/// Calls `prost::encoding::sfixed32::merge` with the 32-bit wire type.
/// Claims: with at least four bytes it reads them as a little-endian signed
/// number, and fails otherwise.
#[verifier::external_body]
pub(crate) fn read_sfixed32(w: &[u8]) -> (res: Result<(i32, usize), prost::DecodeError>)
    ensures
        match res {
            Ok((v, rest)) => w@.len() >= 4 && v == le32(w@) as i32 && rest == w@.len() - 4,
            Err(_) => w@.len() < 4,
        },
{
    let mut buf = w;
    let mut value: i32 = 0;
    prost::encoding::sfixed32::merge(prost::encoding::WireType::ThirtyTwoBit, &mut value, &mut buf, prost::encoding::DecodeContext::default())?;
    Ok((value, buf.len()))
}

/// Calls `prost::encoding::fixed64::merge` with the 64-bit wire type. Claims:
/// with at least eight bytes it reads them as a little-endian number, and
/// fails otherwise.
#[verifier::external_body]
pub(crate) fn read_fixed64(w: &[u8]) -> (res: Result<(u64, usize), prost::DecodeError>)
    ensures
        match res {
            Ok((v, rest)) => w@.len() >= 8 && v == le64(w@) && rest == w@.len() - 8,
            Err(_) => w@.len() < 8,
        },
{
    let mut buf = w;
    let mut value: u64 = 0;
    prost::encoding::fixed64::merge(prost::encoding::WireType::SixtyFourBit, &mut value, &mut buf, prost::encoding::DecodeContext::default())?;
    Ok((value, buf.len()))
}

/// Calls `prost::encoding::sfixed64::merge` with the 64-bit wire type.
/// Claims: with at least eight bytes it reads them as a little-endian signed
/// number, and fails otherwise.
#[verifier::external_body]
pub(crate) fn read_sfixed64(w: &[u8]) -> (res: Result<(i64, usize), prost::DecodeError>)
    ensures
        match res {
            Ok((v, rest)) => w@.len() >= 8 && v == le64(w@) as i64 && rest == w@.len() - 8,
            Err(_) => w@.len() < 8,
        },
{
    let mut buf = w;
    let mut value: i64 = 0;
    prost::encoding::sfixed64::merge(prost::encoding::WireType::SixtyFourBit, &mut value, &mut buf, prost::encoding::DecodeContext::default())?;
    Ok((value, buf.len()))
}

/// Calls `prost::encoding::string::merge` with the length-delimited wire
/// type. Claims: it succeeds exactly when length-delimited data is there and
/// is valid UTF-8, and gives the text it encodes.
#[verifier::external_body]
pub(crate) fn read_string(w: &[u8]) -> (res: Result<(String, usize), prost::DecodeError>)
    ensures
        match res {
            Ok((s, rest)) => spec_delimited(w@) matches Some((data, n)) && valid_utf8(data) && s@
                == decode_utf8(data) && rest == w@.len() - n,
            Err(_) => !(spec_delimited(w@) matches Some((data, n)) && valid_utf8(data)),
        },
{
    let mut buf = w;
    let mut value = String::new();
    prost::encoding::string::merge(prost::encoding::WireType::LengthDelimited, &mut value, &mut buf, prost::encoding::DecodeContext::default())?;
    Ok((value, buf.len()))
}

/// Calls `prost::encoding::double::merge` with the 64-bit wire type and
/// gives the bits of the number read. Claims: with at least eight bytes they
/// are the little-endian number in them, and it fails otherwise.
#[verifier::external_body]
pub(crate) fn read_double(w: &[u8]) -> (res: Result<(u64, usize), prost::DecodeError>)
    ensures
        match res {
            Ok((v, rest)) => w@.len() >= 8 && v == le64(w@) && rest == w@.len() - 8,
            Err(_) => w@.len() < 8,
        },
{
    let mut buf = w;
    let mut value = Default::default();
    prost::encoding::double::merge(prost::encoding::WireType::SixtyFourBit, &mut value, &mut buf, prost::encoding::DecodeContext::default())?;
    Ok((value.to_bits(), buf.len()))
}

/// Calls `prost::encoding::float::merge` with the 32-bit wire type and gives
/// the bits of the number read. Claims: with at least four bytes they are the
/// little-endian number in them, and it fails otherwise.
#[verifier::external_body]
pub(crate) fn read_float(w: &[u8]) -> (res: Result<(u32, usize), prost::DecodeError>)
    ensures
        match res {
            Ok((v, rest)) => w@.len() >= 4 && v == le32(w@) && rest == w@.len() - 4,
            Err(_) => w@.len() < 4,
        },
{
    let mut buf = w;
    let mut value = Default::default();
    prost::encoding::float::merge(prost::encoding::WireType::ThirtyTwoBit, &mut value, &mut buf, prost::encoding::DecodeContext::default())?;
    Ok((value.to_bits(), buf.len()))
}

/// Calls `prost::encoding::bytes::merge` with the length-delimited wire type.
/// Claims: it succeeds exactly when length-delimited data is there, and
/// gives the data.
#[verifier::external_body]
pub(crate) fn read_bytes(w: &[u8]) -> (res: Result<(Vec<u8>, usize), prost::DecodeError>)
    ensures
        match res {
            Ok((b, rest)) => spec_delimited(w@) matches Some((data, n)) && b@ == data && rest == w@.len() - n,
            Err(_) => spec_delimited(w@) is None,
        },
{
    let mut buf = w;
    let mut value: Vec<u8> = Vec::new();
    prost::encoding::bytes::merge(prost::encoding::WireType::LengthDelimited, &mut value, &mut buf, prost::encoding::DecodeContext::default())?;
    Ok((value, buf.len()))
}

} // verus!
