//! Reading the planning metadata out of a GGUF model header.
//!
//! The header is read from a byte buffer holding the start of the file (or
//! all of it). Each metadata entry is a length-prefixed key, a little-endian
//! `u32` value type and a value; arrays and floating-point values are skipped.
use vstd::prelude::*;
use vstd::utf8::{valid_utf8, decode_utf8};

verus! {

/// The largest number of metadata entries a header may declare.
pub const MAX_METADATA_ENTRIES: u64 = 1_000_000;

/// The longest string (key, value or array element) a header may hold.
pub const MAX_STRING_BYTES: u64 = 16 * 1024 * 1024;

/// The largest number of elements a metadata array may declare.
pub const MAX_ARRAY_ELEMENTS: u64 = 10_000_000;

/// The largest position a reader may move to (the range of a file offset).
pub const MAX_OFFSET: u64 = 9_223_372_036_854_775_807;

/// Why a GGUF header could not be read.
#[derive(Debug, Clone, Copy, PartialEq, Eq, Structural)]
pub enum GgufError {
    /// The header ended before a value that had to be read.
    UnexpectedEnd,
    /// The file does not start with the `GGUF` magic bytes.
    NotGguf,
    /// The format version is neither 2 nor 3.
    UnsupportedVersion(u32),
    /// The header declares more metadata entries than the safety limit.
    TooManyMetadataEntries(u64),
    /// A string is longer than the safety limit.
    StringTooLong,
    /// A key or string value is not valid UTF-8.
    InvalidUtf8,
    /// A metadata value has a type tag that the format does not define.
    UnsupportedValueType(u32),
    /// An array declares more elements than the safety limit.
    ArrayTooLarge,
    /// The byte size of a fixed-width array does not fit in 64 bits.
    ArrayByteCountOverflow,
    /// An array holds elements of a type that cannot be skipped.
    UnsupportedArrayElementType(u32),
    /// A skip distance is larger than a file offset can express.
    SkipOffsetTooLarge,
    /// A skip would move past the largest file offset.
    SeekOutOfRange,
    /// The metadata has no string `general.architecture`.
    MissingArchitecture,
    /// The metadata has no `u32`-sized `<architecture>.block_count`.
    MissingBlockCount,
}

/// A metadata value that the planner may read.
#[derive(Debug)]
pub enum MetadataValue {
    Unsigned(u64),
    Signed(i64),
    String(String),
}

/// The mathematical form of a metadata value.
pub enum MetadataValueView {
    Unsigned(u64),
    Signed(i64),
    String(Seq<char>),
}

impl View for MetadataValue {
    type V = MetadataValueView;

    open spec fn view(&self) -> MetadataValueView {
        match self {
            MetadataValue::Unsigned(v) => MetadataValueView::Unsigned(*v),
            MetadataValue::Signed(v) => MetadataValueView::Signed(*v),
            MetadataValue::String(s) => MetadataValueView::String(s@),
        }
    }
}

// ---------------------------------------------------------------------------
// The format, stated over byte sequences.
// ---------------------------------------------------------------------------

/// The unsigned integer that `b` encodes in little-endian byte order.
pub open spec fn le_value(b: Seq<u8>) -> nat
    decreases b.len(),
{
    if b.len() == 0 {
        0
    } else {
        b[0] as nat + 256 * le_value(b.drop_first())
    }
}

/// `256` to the power `n`.
pub open spec fn pow256(n: nat) -> nat
    decreases n,
{
    if n == 0 {
        1
    } else {
        256 * pow256((n - 1) as nat)
    }
}

/// The two's-complement reading of the `width`-byte unsigned value `v`.
pub open spec fn to_signed(v: nat, width: nat) -> int {
    if v >= pow256(width) / 2 {
        v - pow256(width)
    } else {
        v as int
    }
}

/// Reads a `width`-byte little-endian unsigned integer at `pos`.
pub open spec fn spec_read_uint(s: Seq<u8>, pos: int, width: nat) -> Result<(nat, int), GgufError> {
    if 0 <= pos && pos + width <= s.len() {
        Ok((le_value(s.subrange(pos, pos + width)), pos + width))
    } else {
        Err(GgufError::UnexpectedEnd)
    }
}

/// Moves the position forward by `count` bytes, as a relative seek does.
pub open spec fn spec_skip(pos: int, count: nat) -> Result<int, GgufError> {
    if count > MAX_OFFSET {
        Err(GgufError::SkipOffsetTooLarge)
    } else if pos + count > MAX_OFFSET {
        Err(GgufError::SeekOutOfRange)
    } else {
        Ok(pos + count)
    }
}

/// Reads a length-prefixed UTF-8 string at `pos`.
pub open spec fn spec_read_string(s: Seq<u8>, pos: int) -> Result<(Seq<char>, int), GgufError> {
    match spec_read_uint(s, pos, 8) {
        Err(e) => Err(e),
        Ok((len, p1)) => if len > MAX_STRING_BYTES {
            Err(GgufError::StringTooLong)
        } else if p1 + len > s.len() {
            Err(GgufError::UnexpectedEnd)
        } else if !valid_utf8(s.subrange(p1, p1 + len)) {
            Err(GgufError::InvalidUtf8)
        } else {
            Ok((decode_utf8(s.subrange(p1, p1 + len)), p1 + len))
        },
    }
}

/// The byte width of a fixed-width value type, if it has one.
pub open spec fn spec_fixed_width(value_type: u32) -> Option<u64> {
    if value_type == 0 || value_type == 1 || value_type == 7 {
        Some(1)
    } else if value_type == 2 || value_type == 3 {
        Some(2)
    } else if 4 <= value_type <= 6 {
        Some(4)
    } else if 10 <= value_type <= 12 {
        Some(8)
    } else {
        None
    }
}

/// How many bytes remain after `pos` (zero once past the end).
pub open spec fn remaining(s: Seq<u8>, pos: int) -> nat {
    if pos <= s.len() {
        (s.len() - pos) as nat
    } else {
        0
    }
}

/// Skips an array of `count` elements of type `element_type` at `pos`.
pub open spec fn spec_skip_array(s: Seq<u8>, pos: int, element_type: u32, count: u64) -> Result<int, GgufError>
    decreases remaining(s, pos), count, 2nat,
{
    if count > MAX_ARRAY_ELEMENTS {
        Err(GgufError::ArrayTooLarge)
    } else {
        match spec_fixed_width(element_type) {
            Some(width) => if count * width > u64::MAX {
                Err(GgufError::ArrayByteCountOverflow)
            } else {
                spec_skip(pos, (count * width) as nat)
            },
            None => spec_skip_elements(s, pos, element_type, count as nat),
        }
    }
}

/// Skips `n` variable-width elements of type `element_type` at `pos`.
pub open spec fn spec_skip_elements(s: Seq<u8>, pos: int, element_type: u32, n: nat) -> Result<int, GgufError>
    decreases remaining(s, pos), n, 1nat,
{
    if n == 0 {
        Ok(pos)
    } else {
        match spec_skip_element(s, pos, element_type) {
            Err(e) => Err(e),
            Ok(next) => if next > pos {
                spec_skip_elements(s, next, element_type, (n - 1) as nat)
            } else {
                // never taken: every element occupies at least eight bytes
                Err(GgufError::UnexpectedEnd)
            },
        }
    }
}

/// Skips one variable-width array element of type `element_type` at `pos`.
pub open spec fn spec_skip_element(s: Seq<u8>, pos: int, element_type: u32) -> Result<int, GgufError>
    decreases remaining(s, pos), 0nat, 0nat,
{
    if element_type == 8 {
        match spec_read_uint(s, pos, 8) {
            Err(e) => Err(e),
            Ok((len, p1)) => if len > MAX_STRING_BYTES {
                Err(GgufError::StringTooLong)
            } else {
                spec_skip(p1, len)
            },
        }
    } else if element_type == 9 {
        match spec_read_uint(s, pos, 4) {
            Err(e) => Err(e),
            Ok((nested_type, p1)) => match spec_read_uint(s, p1, 8) {
                Err(e) => Err(e),
                Ok((nested_count, p2)) => {
                    if p2 <= s.len() && pos >= 0 {
                        spec_skip_array(s, p2, nested_type as u32, nested_count as u64)
                    } else {
                        Err(GgufError::UnexpectedEnd)
                    }
                },
            },
        }
    } else {
        Err(GgufError::UnsupportedArrayElementType(element_type))
    }
}

/// Reads an unsigned fixed-width value.
pub open spec fn spec_unsigned(s: Seq<u8>, pos: int, width: nat) -> Result<(Option<MetadataValueView>, int), GgufError> {
    match spec_read_uint(s, pos, width) {
        Err(e) => Err(e),
        Ok((v, p)) => Ok((Some(MetadataValueView::Unsigned(v as u64)), p)),
    }
}

/// Reads a signed (two's-complement) fixed-width value.
pub open spec fn spec_signed(s: Seq<u8>, pos: int, width: nat) -> Result<(Option<MetadataValueView>, int), GgufError> {
    match spec_read_uint(s, pos, width) {
        Err(e) => Err(e),
        Ok((v, p)) => Ok((Some(MetadataValueView::Signed(to_signed(v, width) as i64)), p)),
    }
}

/// Reads (or skips) a metadata value of type `value_type` at `pos`.
pub open spec fn spec_read_value(s: Seq<u8>, pos: int, value_type: u32) -> Result<(Option<MetadataValueView>, int), GgufError> {
    if value_type == 0 || value_type == 7 {
        spec_unsigned(s, pos, 1)
    } else if value_type == 1 {
        spec_signed(s, pos, 1)
    } else if value_type == 2 {
        spec_unsigned(s, pos, 2)
    } else if value_type == 3 {
        spec_signed(s, pos, 2)
    } else if value_type == 4 {
        spec_unsigned(s, pos, 4)
    } else if value_type == 5 {
        spec_signed(s, pos, 4)
    } else if value_type == 6 {
        match spec_skip(pos, 4) {
            Err(e) => Err(e),
            Ok(p) => Ok((None, p)),
        }
    } else if value_type == 8 {
        match spec_read_string(s, pos) {
            Err(e) => Err(e),
            Ok((text, p)) => Ok((Some(MetadataValueView::String(text)), p)),
        }
    } else if value_type == 9 {
        match spec_read_uint(s, pos, 4) {
            Err(e) => Err(e),
            Ok((element_type, p1)) => match spec_read_uint(s, p1, 8) {
                Err(e) => Err(e),
                Ok((count, p2)) => match spec_skip_array(s, p2, element_type as u32, count as u64) {
                    Err(e) => Err(e),
                    Ok(p) => Ok((None, p)),
                },
            },
        }
    } else if value_type == 10 {
        spec_unsigned(s, pos, 8)
    } else if value_type == 11 {
        spec_signed(s, pos, 8)
    } else if value_type == 12 {
        match spec_skip(pos, 8) {
            Err(e) => Err(e),
            Ok(p) => Ok((None, p)),
        }
    } else {
        Err(GgufError::UnsupportedValueType(value_type))
    }
}

/// Every scalar value takes exactly the width of its type: one byte for
/// `u8` (type 0), `i8` (1) and `bool` (7), two for `u16` (2) and `i16` (3),
/// four for `u32` (4), `i32` (5) and `f32` (6), eight for `u64` (10),
/// `i64` (11) and `f64` (12). A scalar that lies within the header ends
/// exactly that many bytes later, where the next entry begins; integers
/// are read as their little-endian value, floats are skipped.
pub proof fn law_scalar_value_widths(s: Seq<u8>, pos: int)
    requires
        0 <= pos,
        pos + 8 <= s.len(),
        s.len() <= MAX_OFFSET,
    ensures
        spec_read_value(s, pos, 0) matches Ok((Some(_), p)) && p == pos + 1,
        spec_read_value(s, pos, 1) matches Ok((Some(_), p)) && p == pos + 1,
        spec_read_value(s, pos, 7) matches Ok((Some(_), p)) && p == pos + 1,
        spec_read_value(s, pos, 2) matches Ok((Some(_), p)) && p == pos + 2,
        spec_read_value(s, pos, 3) matches Ok((Some(_), p)) && p == pos + 2,
        spec_read_value(s, pos, 4) == Ok::<(Option<MetadataValueView>, int), GgufError>((
            Some(MetadataValueView::Unsigned(le_value(s.subrange(pos, pos + 4)) as u64)),
            pos + 4,
        )),
        spec_read_value(s, pos, 5) matches Ok((Some(_), p)) && p == pos + 4,
        spec_read_value(s, pos, 6) == Ok::<(Option<MetadataValueView>, int), GgufError>((None, pos + 4)),
        spec_read_value(s, pos, 10) == Ok::<(Option<MetadataValueView>, int), GgufError>((
            Some(MetadataValueView::Unsigned(le_value(s.subrange(pos, pos + 8)) as u64)),
            pos + 8,
        )),
        spec_read_value(s, pos, 11) matches Ok((Some(_), p)) && p == pos + 8,
        spec_read_value(s, pos, 12) == Ok::<(Option<MetadataValueView>, int), GgufError>((None, pos + 8)),
        forall|t: u32|
            #[trigger] spec_fixed_width(t) is Some ==> (spec_read_value(s, pos, t) matches Ok((_, p))
                && p == pos + spec_fixed_width(t)->0),
{
    assert forall|t: u32|
        #[trigger] spec_fixed_width(t) is Some implies (spec_read_value(s, pos, t) matches Ok((_, p))
            && p == pos + spec_fixed_width(t)->0) by {
        if 4 <= t <= 6 {
            assert(t == 4 || t == 5 || t == 6);
        } else if 10 <= t <= 12 {
            assert(t == 10 || t == 11 || t == 12);
        }
    }
}

/// Reads `n` metadata entries at `pos`, adding each kept value to `m`
/// (a later entry with the same key replaces an earlier one).
pub open spec fn spec_read_entries(
    s: Seq<u8>,
    pos: int,
    n: nat,
    m: Map<Seq<char>, MetadataValueView>,
) -> Result<(Map<Seq<char>, MetadataValueView>, int), GgufError>
    decreases n,
{
    if n == 0 {
        Ok((m, pos))
    } else {
        match spec_read_string(s, pos) {
            Err(e) => Err(e),
            Ok((key, p1)) => match spec_read_uint(s, p1, 4) {
                Err(e) => Err(e),
                Ok((value_type, p2)) => match spec_read_value(s, p2, value_type as u32) {
                    Err(e) => Err(e),
                    Ok((value, p3)) => {
                        let m2 = match value {
                            Some(v) => m.insert(key, v),
                            None => m,
                        };
                        spec_read_entries(s, p3, (n - 1) as nat, m2)
                    },
                },
            },
        }
    }
}

/// The version and the metadata map of a header.
pub struct GgufHeader {
    pub version: u32,
    pub metadata: Map<Seq<char>, MetadataValueView>,
}

/// Reads the fixed header fields and every metadata entry of `s`.
pub open spec fn spec_header(s: Seq<u8>) -> Result<GgufHeader, GgufError> {
    if s.len() < 4 {
        Err(GgufError::UnexpectedEnd)
    } else if s.subrange(0, 4) != seq![71u8, 71u8, 85u8, 70u8] {
        Err(GgufError::NotGguf)
    } else {
        match spec_read_uint(s, 4, 4) {
            Err(e) => Err(e),
            Ok((version, p1)) => if !(2 <= version <= 3) {
                Err(GgufError::UnsupportedVersion(version as u32))
            } else {
                match spec_read_uint(s, p1, 8) {
                    Err(e) => Err(e),
                    Ok((_tensor_count, p2)) => match spec_read_uint(s, p2, 8) {
                        Err(e) => Err(e),
                        Ok((count, p3)) => if count > MAX_METADATA_ENTRIES {
                            Err(GgufError::TooManyMetadataEntries(count as u64))
                        } else {
                            match spec_read_entries(s, p3, count, Map::empty()) {
                                Err(e) => Err(e),
                                Ok((m, _)) => Ok(GgufHeader { version: version as u32, metadata: m }),
                            }
                        },
                    },
                }
            },
        }
    }
}


// ---------------------------------------------------------------------------
// Lemmas about the byte encoding.
// ---------------------------------------------------------------------------

proof fn lemma_le_value_bound(b: Seq<u8>)
    ensures
        le_value(b) < pow256(b.len()),
    decreases b.len(),
{
    if b.len() > 0 {
        lemma_le_value_bound(b.drop_first());
    }
}

proof fn lemma_pow256_monotonic(a: nat, b: nat)
    requires
        a <= b,
    ensures
        pow256(a) <= pow256(b),
    decreases b,
{
    if a < b {
        lemma_pow256_monotonic(a, (b - 1) as nat);
    }
}

proof fn lemma_pow256_values()
    ensures
        pow256(1) == 256,
        pow256(2) == 65536,
        pow256(4) == 4294967296,
        pow256(8) == 18446744073709551616,
{
    reveal_with_fuel(pow256, 9);
}

// ---------------------------------------------------------------------------
// Reading primitives.
// ---------------------------------------------------------------------------

/// A read of `width` bytes that moved the position from `before` to `after`
/// and returned `r` did what the format says.
spec fn read_done(s: Seq<u8>, before: int, after: int, width: nat, r: Result<u64, GgufError>) -> bool {
    match spec_read_uint(s, before, width) {
        Ok((v, p)) => r == Ok::<u64, GgufError>(v as u64) && after == p && v < pow256(width),
        Err(e) => r == Err::<u64, GgufError>(e) && after == before,
    }
}

/// Reads `width` bytes at `*pos` as a little-endian unsigned integer.
fn read_le(bytes: &[u8], pos: &mut u64, width: u64) -> (r: Result<u64, GgufError>)
    requires
        1 <= width <= 8,
        *old(pos) <= MAX_OFFSET,
        bytes@.len() <= MAX_OFFSET,
    ensures
        read_done(bytes@, *old(pos) as int, *final(pos) as int, width as nat, r),
{
    let start = *pos;
    if start + width > bytes.len() as u64 {
        return Err(GgufError::UnexpectedEnd);
    }
    let ghost s = bytes@;
    let mut acc: u64 = 0;
    let mut i: u64 = width;
    proof {
        assert(s.subrange(start + width, start + width) =~= Seq::<u8>::empty());
    }
    while i > 0
        invariant
            0 <= i <= width <= 8,
            s == bytes@,
            s.len() <= MAX_OFFSET,
            start + width <= s.len(),
            acc == le_value(s.subrange(start + i, start + width)),
            acc < pow256((width - i) as nat),
        decreases i,
    {
        i = i - 1;
        proof {
            let sub = s.subrange(start + i, start + width);
            assert(sub.drop_first() =~= s.subrange(start + i + 1, start + width));
            lemma_pow256_monotonic((width - i) as nat, 8);
            lemma_pow256_values();
            assert(pow256((width - i) as nat) == 256 * pow256((width - i - 1) as nat));
        }
        acc = bytes[(start + i) as usize] as u64 + 256 * acc;
    }
    proof {
        assert(s.subrange(start as int, start + width) =~= s.subrange(start + 0, start + width));
    }
    *pos = start + width;
    Ok(acc)
}

/// Reads a little-endian `u32`.
fn read_u32(bytes: &[u8], pos: &mut u64) -> (r: Result<u32, GgufError>)
    requires
        *old(pos) <= MAX_OFFSET,
        bytes@.len() <= MAX_OFFSET,
    ensures
        match spec_read_uint(bytes@, *old(pos) as int, 4) {
            Ok((v, p)) => r == Ok::<u32, GgufError>(v as u32) && *final(pos) == p && v < 4294967296,
            Err(e) => r == Err::<u32, GgufError>(e) && *final(pos) == *old(pos),
        },
{
    proof { lemma_pow256_values(); }
    match read_le(bytes, pos, 4) {
        Ok(v) => Ok(v as u32),
        Err(e) => Err(e),
    }
}

/// Reads a little-endian `u64`.
fn read_u64(bytes: &[u8], pos: &mut u64) -> (r: Result<u64, GgufError>)
    requires
        *old(pos) <= MAX_OFFSET,
        bytes@.len() <= MAX_OFFSET,
    ensures
        match spec_read_uint(bytes@, *old(pos) as int, 8) {
            Ok((v, p)) => r == Ok::<u64, GgufError>(v as u64) && *final(pos) == p && v <= u64::MAX,
            Err(e) => r == Err::<u64, GgufError>(e) && *final(pos) == *old(pos),
        },
{
    proof { lemma_pow256_values(); }
    read_le(bytes, pos, 8)
}

/// Reads an unsigned value of 1, 2, 4 or 8 bytes.
fn read_unsigned(bytes: &[u8], pos: &mut u64, width: u64) -> (r: Result<Option<MetadataValue>, GgufError>)
    requires
        width == 1 || width == 2 || width == 4 || width == 8,
        *old(pos) <= MAX_OFFSET,
        bytes@.len() <= MAX_OFFSET,
    ensures
        match spec_unsigned(bytes@, *old(pos) as int, width as nat) {
            Ok((v, p)) => r matches Ok(x) && opt_view(x) == v && *final(pos) == p,
            Err(e) => r == Err::<Option<MetadataValue>, GgufError>(e),
        },
        *final(pos) <= MAX_OFFSET,
{
    match read_le(bytes, pos, width) {
        Ok(v) => Ok(Some(MetadataValue::Unsigned(v))),
        Err(e) => Err(e),
    }
}

/// Reads a two's-complement value of 1, 2, 4 or 8 bytes.
fn read_signed(bytes: &[u8], pos: &mut u64, width: u64) -> (r: Result<Option<MetadataValue>, GgufError>)
    requires
        width == 1 || width == 2 || width == 4 || width == 8,
        *old(pos) <= MAX_OFFSET,
        bytes@.len() <= MAX_OFFSET,
    ensures
        match spec_signed(bytes@, *old(pos) as int, width as nat) {
            Ok((v, p)) => r matches Ok(x) && opt_view(x) == v && *final(pos) == p,
            Err(e) => r == Err::<Option<MetadataValue>, GgufError>(e),
        },
        *final(pos) <= MAX_OFFSET,
{
    proof { lemma_pow256_values(); }
    match read_le(bytes, pos, width) {
        Ok(v) => {
            let signed: i64 = if width == 8 {
                if v >= 9_223_372_036_854_775_808 {
                    (v - 9_223_372_036_854_775_808) as i64 + i64::MIN
                } else {
                    v as i64
                }
            } else {
                let full: u64 = if width == 1 {
                    256
                } else if width == 2 {
                    65536
                } else {
                    4294967296
                };
                if v >= full / 2 {
                    v as i64 - full as i64
                } else {
                    v as i64
                }
            };
            Ok(Some(MetadataValue::Signed(signed)))
        },
        Err(e) => Err(e),
    }
}

/// The view of an optional value.
pub open spec fn opt_view(x: Option<MetadataValue>) -> Option<MetadataValueView> {
    match x {
        Some(v) => Some(v@),
        None => None,
    }
}

/// Moves the position forward by `count` bytes.
fn skip_bytes(pos: &mut u64, count: u64) -> (r: Result<(), GgufError>)
    requires
        *old(pos) <= MAX_OFFSET,
    ensures
        match spec_skip(*old(pos) as int, count as nat) {
            Ok(p) => r is Ok && *final(pos) == p,
            Err(e) => r == Err::<(), GgufError>(e) && *final(pos) == *old(pos),
        },
        *final(pos) <= MAX_OFFSET,
{
    if count > MAX_OFFSET {
        return Err(GgufError::SkipOffsetTooLarge);
    }
    if *pos + count > MAX_OFFSET {
        return Err(GgufError::SeekOutOfRange);
    }
    *pos = *pos + count;
    Ok(())
}

/// `String::from_utf8`: the standard library returns the string when the
/// bytes are valid UTF-8 and an error otherwise. The contract states that
/// validity, and the decoded characters, with vstd's UTF-8 definitions.
#[verifier::external_body]
fn string_from_utf8(bytes: Vec<u8>) -> (r: Option<String>)
    ensures
        r is Some <==> valid_utf8(bytes@),
        r matches Some(s) ==> s@ == decode_utf8(bytes@),
{
    String::from_utf8(bytes).ok()
}

/// Reads a length-prefixed UTF-8 string.
fn read_string(bytes: &[u8], pos: &mut u64) -> (r: Result<String, GgufError>)
    requires
        *old(pos) <= MAX_OFFSET,
        bytes@.len() <= MAX_OFFSET,
    ensures
        match spec_read_string(bytes@, *old(pos) as int) {
            Ok((text, p)) => r matches Ok(x) && x@ == text && *final(pos) == p,
            Err(e) => r == Err::<String, GgufError>(e),
        },
        *final(pos) <= MAX_OFFSET,
{
    let length = match read_u64(bytes, pos) {
        Ok(v) => v,
        Err(e) => return Err(e),
    };
    if length > MAX_STRING_BYTES {
        return Err(GgufError::StringTooLong);
    }
    let start = *pos;
    if start + length > bytes.len() as u64 {
        return Err(GgufError::UnexpectedEnd);
    }
    let mut content: Vec<u8> = Vec::new();
    let mut i: u64 = 0;
    while i < length
        invariant
            0 <= i <= length,
            start + length <= bytes@.len(),
            bytes@.len() <= MAX_OFFSET,
            content@ =~= bytes@.subrange(start as int, start + i),
        decreases length - i,
    {
        content.push(bytes[(start + i) as usize]);
        i = i + 1;
    }
    *pos = start + length;
    match string_from_utf8(content) {
        Some(text) => Ok(text),
        None => Err(GgufError::InvalidUtf8),
    }
}

/// The byte width of a fixed-width value type.
fn fixed_width(value_type: u32) -> (r: Option<u64>)
    ensures
        r == spec_fixed_width(value_type),
{
    match value_type {
        0 | 1 | 7 => Some(1),
        2 | 3 => Some(2),
        4..=6 => Some(4),
        10..=12 => Some(8),
        _ => None,
    }
}


/// Skips an array of `element_count` elements of type `element_type`.
fn skip_array(bytes: &[u8], pos: &mut u64, element_type: u32, element_count: u64) -> (r: Result<(), GgufError>)
    requires
        *old(pos) <= MAX_OFFSET,
        bytes@.len() <= MAX_OFFSET,
    ensures
        match spec_skip_array(bytes@, *old(pos) as int, element_type, element_count) {
            Ok(p) => r is Ok && *final(pos) == p,
            Err(e) => r == Err::<(), GgufError>(e),
        },
        *final(pos) <= MAX_OFFSET,
        r is Ok ==> *final(pos) >= *old(pos),
    decreases remaining(bytes@, *old(pos) as int),
{
    if element_count > MAX_ARRAY_ELEMENTS {
        return Err(GgufError::ArrayTooLarge);
    }
    match fixed_width(element_type) {
        Some(width) => match element_count.checked_mul(width) {
            Some(total) => skip_bytes(pos, total),
            None => Err(GgufError::ArrayByteCountOverflow),
        },
        None => {
            let ghost s = bytes@;
            let ghost start = *pos as int;
            let mut i: u64 = 0;
            assert(spec_skip_array(s, start, element_type, element_count)
                == spec_skip_elements(s, start, element_type, element_count as nat));
            while i < element_count
                invariant
                    spec_skip_array(s, start, element_type, element_count)
                        == spec_skip_elements(s, start, element_type, element_count as nat),
                    s == bytes@,
                    s.len() <= MAX_OFFSET,
                    0 <= i <= element_count,
                    start <= *pos <= MAX_OFFSET,
                    start == *old(pos),
                    spec_fixed_width(element_type) is None,
                    spec_skip_elements(s, start, element_type, element_count as nat)
                        == spec_skip_elements(s, *pos as int, element_type, (element_count - i) as nat),
                decreases element_count - i,
            {
                let ghost before = *pos as int;
                if element_type == 8 {
                    let length = match read_u64(bytes, pos) {
                        Ok(v) => v,
                        Err(e) => {
                            assert(spec_skip_element(s, before, element_type) == Err::<int, GgufError>(e));
                            assert(spec_skip_elements(s, before, element_type, (element_count - i) as nat)
                                == Err::<int, GgufError>(e));
                            return Err(e);
                        },
                    };
                    if length > MAX_STRING_BYTES {
                        assert(spec_skip_element(s, before, element_type)
                            == Err::<int, GgufError>(GgufError::StringTooLong));
                        return Err(GgufError::StringTooLong);
                    }
                    match skip_bytes(pos, length) {
                        Ok(()) => {},
                        Err(e) => return Err(e),
                    }
                } else if element_type == 9 {
                    let nested_type = match read_u32(bytes, pos) {
                        Ok(v) => v,
                        Err(e) => return Err(e),
                    };
                    let nested_count = match read_u64(bytes, pos) {
                        Ok(v) => v,
                        Err(e) => return Err(e),
                    };
                    match skip_array(bytes, pos, nested_type, nested_count) {
                        Ok(()) => {},
                        Err(e) => return Err(e),
                    }
                } else {
                    return Err(GgufError::UnsupportedArrayElementType(element_type));
                }
                assert(spec_skip_element(s, before, element_type) == Ok::<int, GgufError>(*pos as int));
                i = i + 1;
            }
            Ok(())
        },
    }
}

/// Reads (or skips) a metadata value of type `value_type`; `None` stands
/// for a value that is skipped (floats and arrays).
fn read_metadata_value(bytes: &[u8], pos: &mut u64, value_type: u32) -> (r: Result<Option<MetadataValue>, GgufError>)
    requires
        *old(pos) <= MAX_OFFSET,
        bytes@.len() <= MAX_OFFSET,
    ensures
        match spec_read_value(bytes@, *old(pos) as int, value_type) {
            Ok((v, p)) => r matches Ok(x) && opt_view(x) == v && *final(pos) == p,
            Err(e) => r == Err::<Option<MetadataValue>, GgufError>(e),
        },
        *final(pos) <= MAX_OFFSET,
{
    match value_type {
        0 | 7 => read_unsigned(bytes, pos, 1),
        1 => read_signed(bytes, pos, 1),
        2 => read_unsigned(bytes, pos, 2),
        3 => read_signed(bytes, pos, 2),
        4 => read_unsigned(bytes, pos, 4),
        5 => read_signed(bytes, pos, 4),
        6 => match skip_bytes(pos, 4) {
            Ok(()) => Ok(None),
            Err(e) => Err(e),
        },
        8 => match read_string(bytes, pos) {
            Ok(text) => Ok(Some(MetadataValue::String(text))),
            Err(e) => Err(e),
        },
        9 => {
            let element_type = match read_u32(bytes, pos) {
                Ok(v) => v,
                Err(e) => return Err(e),
            };
            let element_count = match read_u64(bytes, pos) {
                Ok(v) => v,
                Err(e) => return Err(e),
            };
            match skip_array(bytes, pos, element_type, element_count) {
                Ok(()) => Ok(None),
                Err(e) => Err(e),
            }
        },
        10 => read_unsigned(bytes, pos, 8),
        11 => read_signed(bytes, pos, 8),
        12 => match skip_bytes(pos, 8) {
            Ok(()) => Ok(None),
            Err(e) => Err(e),
        },
        _ => Err(GgufError::UnsupportedValueType(value_type)),
    }
}


// ---------------------------------------------------------------------------
// The metadata table and the planning fields read from it.
// ---------------------------------------------------------------------------

/// The map that a list of entries stands for: a later entry replaces an
/// earlier one with the same key.
pub open spec fn entries_map(es: Seq<(String, MetadataValue)>) -> Map<Seq<char>, MetadataValueView>
    decreases es.len(),
{
    if es.len() == 0 {
        Map::empty()
    } else {
        entries_map(es.drop_last()).insert(es.last().0@, es.last().1@)
    }
}

/// The value of `value` when it is a string.
pub open spec fn spec_as_string(value: MetadataValueView) -> Option<Seq<char>> {
    match value {
        MetadataValueView::String(text) => Some(text),
        _ => None,
    }
}

/// The value of `value` when it is an integer that fits in a `u32`.
pub open spec fn spec_as_u32(value: MetadataValueView) -> Option<u32> {
    match value {
        MetadataValueView::Unsigned(v) => if v <= u32::MAX {
            Some(v as u32)
        } else {
            None
        },
        MetadataValueView::Signed(v) => if 0 <= v <= u32::MAX {
            Some(v as u32)
        } else {
            None
        },
        MetadataValueView::String(_) => None,
    }
}

/// The string stored under `key`, if there is one.
pub open spec fn spec_string_value(m: Map<Seq<char>, MetadataValueView>, key: Seq<char>) -> Option<Seq<char>> {
    if m.contains_key(key) {
        spec_as_string(m[key])
    } else {
        None
    }
}

/// The `u32`-sized integer stored under `key`, if there is one.
pub open spec fn spec_unsigned_value(m: Map<Seq<char>, MetadataValueView>, key: Seq<char>) -> Option<u32> {
    if m.contains_key(key) {
        spec_as_u32(m[key])
    } else {
        None
    }
}

impl MetadataValue {
    /// The value as a `u32`, when it is an integer in range.
    pub fn as_u32(&self) -> (r: Option<u32>)
        ensures
            r == spec_as_u32(self@),
    {
        match self {
            MetadataValue::Unsigned(value) => if *value <= 4294967295 {
                Some(*value as u32)
            } else {
                None
            },
            MetadataValue::Signed(value) => if 0 <= *value && *value <= 4294967295 {
                Some(*value as u32)
            } else {
                None
            },
            MetadataValue::String(_) => None,
        }
    }

    /// The value as a string, when it is one.
    pub fn as_string(&self) -> (r: Option<&String>)
        ensures
            match r {
                Some(text) => spec_as_string(self@) == Some(text@),
                None => spec_as_string(self@) is None,
            },
    {
        match self {
            MetadataValue::String(value) => Some(value),
            _ => None,
        }
    }
}

proof fn lemma_entries_map_take(es: Seq<(String, MetadataValue)>, i: int)
    requires
        0 <= i < es.len(),
    ensures
        entries_map(es.take(i + 1)) == entries_map(es.take(i)).insert(es[i].0@, es[i].1@),
{
    assert(es.take(i + 1).drop_last() =~= es.take(i));
}

/// The value stored under `key` (the last entry with that key).
fn find_value<'a>(metadata: &'a Vec<(String, MetadataValue)>, key: &String) -> (r: Option<&'a MetadataValue>)
    ensures
        match r {
            Some(v) => entries_map(metadata@).contains_key(key@) && entries_map(metadata@)[key@] == v@,
            None => !entries_map(metadata@).contains_key(key@),
        },
{
    let ghost full = entries_map(metadata@);
    let mut i = metadata.len();
    proof {
        assert(metadata@.take(metadata@.len() as int) =~= metadata@);
    }
    while i > 0
        invariant
            0 <= i <= metadata@.len(),
            full == entries_map(metadata@),
            full.contains_key(key@) == entries_map(metadata@.take(i as int)).contains_key(key@),
            full.contains_key(key@) ==> full[key@] == entries_map(metadata@.take(i as int))[key@],
        decreases i,
    {
        i = i - 1;
        proof {
            lemma_entries_map_take(metadata@, i as int);
        }
        if metadata[i].0 == *key {
            return Some(&metadata[i].1);
        }
    }
    proof {
        assert(metadata@.take(0) =~= Seq::<(String, MetadataValue)>::empty());
    }
    None
}

/// The string stored under `key`.
fn string_value(metadata: &Vec<(String, MetadataValue)>, key: &String) -> (r: Option<String>)
    ensures
        opt_string_view(r) == spec_string_value(entries_map(metadata@), key@),
{
    match find_value(metadata, key) {
        Some(value) => match value.as_string() {
            Some(text) => Some(text.clone()),
            None => None,
        },
        None => None,
    }
}

/// The `u32`-sized integer stored under `key`.
fn unsigned_value(metadata: &Vec<(String, MetadataValue)>, key: &String) -> (r: Option<u32>)
    ensures
        r == spec_unsigned_value(entries_map(metadata@), key@),
{
    match find_value(metadata, key) {
        Some(value) => value.as_u32(),
        None => None,
    }
}

/// The view of an optional string.
pub open spec fn opt_string_view(x: Option<String>) -> Option<Seq<char>> {
    match x {
        Some(s) => Some(s@),
        None => None,
    }
}


/// The planning metadata of a GGUF model.
#[derive(Debug)]
pub struct ModelMetadata {
    pub path: String,
    pub file_size_bytes: u64,
    pub gguf_version: u32,
    pub name: Option<String>,
    pub architecture: String,
    pub block_count: u32,
    pub context_length: Option<u32>,
    pub embedding_length: Option<u32>,
    pub attention_head_count: Option<u32>,
    pub attention_head_count_kv: Option<u32>,
    pub attention_key_length: Option<u32>,
    pub attention_value_length: Option<u32>,
}

/// The mathematical form of [`ModelMetadata`].
pub struct ModelMetadataView {
    pub path: Seq<char>,
    pub file_size_bytes: u64,
    pub gguf_version: u32,
    pub name: Option<Seq<char>>,
    pub architecture: Seq<char>,
    pub block_count: u32,
    pub context_length: Option<u32>,
    pub embedding_length: Option<u32>,
    pub attention_head_count: Option<u32>,
    pub attention_head_count_kv: Option<u32>,
    pub attention_key_length: Option<u32>,
    pub attention_value_length: Option<u32>,
}

impl View for ModelMetadata {
    type V = ModelMetadataView;

    open spec fn view(&self) -> ModelMetadataView {
        ModelMetadataView {
            path: self.path@,
            file_size_bytes: self.file_size_bytes,
            gguf_version: self.gguf_version,
            name: opt_string_view(self.name),
            architecture: self.architecture@,
            block_count: self.block_count,
            context_length: self.context_length,
            embedding_length: self.embedding_length,
            attention_head_count: self.attention_head_count,
            attention_head_count_kv: self.attention_head_count_kv,
            attention_key_length: self.attention_key_length,
            attention_value_length: self.attention_value_length,
        }
    }
}

/// The planning metadata that the header bytes `s` of the model at `path`,
/// of `file_size_bytes` bytes, describe.
pub open spec fn spec_inspect(path: Seq<char>, file_size_bytes: u64, s: Seq<u8>) -> Result<ModelMetadataView, GgufError> {
    match spec_header(s) {
        Err(e) => Err(e),
        Ok(header) => {
            let m = header.metadata;
            match spec_string_value(m, "general.architecture"@) {
                None => Err(GgufError::MissingArchitecture),
                Some(arch) => {
                    let prefix = arch + "."@;
                    match spec_unsigned_value(m, prefix + "block_count"@) {
                        None => Err(GgufError::MissingBlockCount),
                        Some(block_count) => Ok(ModelMetadataView {
                            path,
                            file_size_bytes,
                            gguf_version: header.version,
                            name: spec_string_value(m, "general.name"@),
                            architecture: arch,
                            block_count,
                            context_length: spec_unsigned_value(m, prefix + "context_length"@),
                            embedding_length: spec_unsigned_value(m, prefix + "embedding_length"@),
                            attention_head_count: spec_unsigned_value(m, prefix + "attention.head_count"@),
                            attention_head_count_kv: spec_unsigned_value(m, prefix + "attention.head_count_kv"@),
                            attention_key_length: spec_unsigned_value(m, prefix + "attention.key_length"@),
                            attention_value_length: spec_unsigned_value(m, prefix + "attention.value_length"@),
                        }),
                    }
                },
            }
        },
    }
}

/// Reads `count` metadata entries into a table.
fn read_entries(bytes: &[u8], pos: &mut u64, count: u64) -> (r: Result<Vec<(String, MetadataValue)>, GgufError>)
    requires
        *old(pos) <= MAX_OFFSET,
        bytes@.len() <= MAX_OFFSET,
    ensures
        match spec_read_entries(bytes@, *old(pos) as int, count as nat, Map::empty()) {
            Ok((m, p)) => r matches Ok(es) && entries_map(es@) == m && *final(pos) == p,
            Err(e) => r == Err::<Vec<(String, MetadataValue)>, GgufError>(e),
        },
{
    let ghost s = bytes@;
    let ghost start = *pos as int;
    let mut metadata: Vec<(String, MetadataValue)> = Vec::new();
    let mut i: u64 = 0;
    proof {
        assert(entries_map(metadata@) =~= Map::<Seq<char>, MetadataValueView>::empty());
    }
    while i < count
        invariant
            s == bytes@,
            s.len() <= MAX_OFFSET,
            0 <= i <= count,
            *pos <= MAX_OFFSET,
            start == *old(pos),
            spec_read_entries(s, start, count as nat, Map::empty())
                == spec_read_entries(s, *pos as int, (count - i) as nat, entries_map(metadata@)),
        decreases count - i,
    {
        let ghost before = *pos as int;
        let ghost m = entries_map(metadata@);
        let key = match read_string(bytes, pos) {
            Ok(text) => text,
            Err(e) => return Err(e),
        };
        let value_type = match read_u32(bytes, pos) {
            Ok(v) => v,
            Err(e) => return Err(e),
        };
        let value = match read_metadata_value(bytes, pos, value_type) {
            Ok(v) => v,
            Err(e) => return Err(e),
        };
        match value {
            Some(v) => {
                let ghost old_metadata = metadata@;
                let ghost entry = (key, v);
                metadata.push((key, v));
                proof {
                    assert(metadata@.drop_last() =~= old_metadata);
                    assert(metadata@.last() == entry);
                    assert(entries_map(metadata@) == m.insert(entry.0@, entry.1@));
                }
            },
            None => {},
        }
        i = i + 1;
    }
    Ok(metadata)
}

/// Reads the planning metadata of the model at `path` (a file of
/// `file_size_bytes` bytes) from `header`, the start of its contents.
///
/// A header cut short yields `UnexpectedEnd`; any other result is the one
/// that the whole file gives (see `law_inspect_prefix`).
pub fn inspect(path: &str, file_size_bytes: u64, header: &[u8]) -> (r: Result<ModelMetadata, GgufError>)
    requires
        header@.len() <= MAX_OFFSET,
    ensures
        match spec_inspect(path@, file_size_bytes, header@) {
            Ok(m) => r matches Ok(x) && x@ == m,
            Err(e) => r == Err::<ModelMetadata, GgufError>(e),
        },
{
    if header.len() < 4 {
        return Err(GgufError::UnexpectedEnd);
    }
    if !(header[0] == 71 && header[1] == 71 && header[2] == 85 && header[3] == 70) {
        proof {
            assert(header@.subrange(0, 4) != seq![71u8, 71u8, 85u8, 70u8]) by {
                if header@.subrange(0, 4) == seq![71u8, 71u8, 85u8, 70u8] {
                    assert(header@.subrange(0, 4)[0] == header@[0]);
                    assert(header@.subrange(0, 4)[1] == header@[1]);
                    assert(header@.subrange(0, 4)[2] == header@[2]);
                    assert(header@.subrange(0, 4)[3] == header@[3]);
                }
            }
        }
        return Err(GgufError::NotGguf);
    }
    proof {
        assert(header@.subrange(0, 4) =~= seq![71u8, 71u8, 85u8, 70u8]);
    }
    let mut pos: u64 = 4;
    let version = match read_u32(header, &mut pos) {
        Ok(v) => v,
        Err(e) => return Err(e),
    };
    if !(2 <= version && version <= 3) {
        return Err(GgufError::UnsupportedVersion(version));
    }
    let _tensor_count = match read_u64(header, &mut pos) {
        Ok(v) => v,
        Err(e) => return Err(e),
    };
    let metadata_count = match read_u64(header, &mut pos) {
        Ok(v) => v,
        Err(e) => return Err(e),
    };
    if metadata_count > MAX_METADATA_ENTRIES {
        return Err(GgufError::TooManyMetadataEntries(metadata_count));
    }
    let metadata = match read_entries(header, &mut pos, metadata_count) {
        Ok(es) => es,
        Err(e) => return Err(e),
    };
    let architecture = match string_value(&metadata, &"general.architecture".to_owned()) {
        Some(text) => text,
        None => return Err(GgufError::MissingArchitecture),
    };
    let prefix = architecture.clone().concat(".");
    let block_count = match unsigned_value(&metadata, &prefix.clone().concat("block_count")) {
        Some(v) => v,
        None => return Err(GgufError::MissingBlockCount),
    };
    Ok(ModelMetadata {
        path: path.to_owned(),
        file_size_bytes,
        gguf_version: version,
        name: string_value(&metadata, &"general.name".to_owned()),
        architecture,
        block_count,
        context_length: unsigned_value(&metadata, &prefix.clone().concat("context_length")),
        embedding_length: unsigned_value(&metadata, &prefix.clone().concat("embedding_length")),
        attention_head_count: unsigned_value(&metadata, &prefix.clone().concat("attention.head_count")),
        attention_head_count_kv: unsigned_value(&metadata, &prefix.clone().concat("attention.head_count_kv")),
        attention_key_length: unsigned_value(&metadata, &prefix.clone().concat("attention.key_length")),
        attention_value_length: unsigned_value(&metadata, &prefix.concat("attention.value_length")),
    })
}


/// The key and value widths of one layer's KV cache: the KV head count
/// (the attention head count when unset) times the key and value lengths
/// (the embedding length over the head count when unset). Without a head
/// count both widths are the embedding length; a zero head count gives
/// nothing.
pub open spec fn spec_kv_dimensions(m: ModelMetadataView) -> Option<(u64, u64)> {
    match m.embedding_length {
        None => None,
        Some(embedding) => match m.attention_head_count {
            None => Some((embedding as u64, embedding as u64)),
            Some(heads) => if heads == 0 {
                None
            } else {
                let kv_heads: u32 = match m.attention_head_count_kv {
                    Some(k) => k,
                    None => heads,
                };
                if kv_heads == 0 {
                    None
                } else {
                    let head_dimension = embedding / heads;
                    let key_length: u32 = match m.attention_key_length {
                        Some(k) => k,
                        None => head_dimension,
                    };
                    let value_length: u32 = match m.attention_value_length {
                        Some(v) => v,
                        None => head_dimension,
                    };
                    Some(((kv_heads * key_length) as u64, (kv_heads * value_length) as u64))
                }
            },
        },
    }
}

/// With only the embedding length and the head count known, each cache
/// width is the embedding length rounded down to a multiple of the head
/// count, so never more than the embedding length.
pub proof fn law_default_kv_width_within_embedding(m: ModelMetadataView)
    requires
        m.embedding_length is Some,
        m.attention_head_count matches Some(h) && h > 0,
        m.attention_head_count_kv is None,
        m.attention_key_length is None,
        m.attention_value_length is None,
    ensures
        spec_kv_dimensions(m) matches Some((k, v)) && k == v && k <= m.embedding_length->0,
{
    let e = m.embedding_length->0;
    let h = m.attention_head_count->0;
    assert(h * (e / h) <= e) by (nonlinear_arith)
        requires
            h > 0,
    ;
}

impl ModelMetadata {
    /// The widths of one layer's key and value cache, in elements.
    pub fn kv_dimensions_per_layer(&self) -> (r: Option<(u64, u64)>)
        ensures
            r == spec_kv_dimensions(self@),
    {
        let embedding_length = match self.embedding_length {
            Some(e) => e as u64,
            None => return None,
        };
        let head_count = match self.attention_head_count {
            Some(h) => h as u64,
            None => return Some((embedding_length, embedding_length)),
        };
        if head_count == 0 {
            return None;
        }
        let kv_head_count: u64 = match self.attention_head_count_kv {
            Some(k) => k as u64,
            None => head_count,
        };
        if kv_head_count == 0 {
            return None;
        }
        let default_head_dimension = embedding_length / head_count;
        let key_length: u64 = match self.attention_key_length {
            Some(k) => k as u64,
            None => default_head_dimension,
        };
        let value_length: u64 = match self.attention_value_length {
            Some(v) => v as u64,
            None => default_head_dimension,
        };
        assert(kv_head_count * key_length <= u64::MAX) by (nonlinear_arith)
            requires
                kv_head_count <= u32::MAX,
                key_length <= u32::MAX,
        ;
        assert(kv_head_count * value_length <= u64::MAX) by (nonlinear_arith)
            requires
                kv_head_count <= u32::MAX,
                value_length <= u32::MAX,
        ;
        Some((kv_head_count * key_length, kv_head_count * value_length))
    }
}

} // verus!
