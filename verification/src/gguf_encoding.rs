//! The GGUF encoding of metadata headers, and what reading gives back of
//! what was written.
use vstd::prelude::*;
use vstd::utf8::{encode_utf8, encode_utf8_decode_utf8, encode_utf8_valid_utf8};
use crate::gguf::{
    GgufError, GgufHeader, MetadataValueView, MAX_METADATA_ENTRIES, MAX_STRING_BYTES, le_value,
    pow256, spec_header, spec_read_entries, spec_read_string, spec_read_uint, spec_read_value,
    spec_signed, spec_unsigned, to_signed, spec_skip_array, spec_skip_elements, spec_skip_element,
    remaining, spec_inspect,
};

verus! {

/// The `width` little-endian bytes of `v` (its low `width` bytes).
pub open spec fn le_bytes(v: nat, width: nat) -> Seq<u8>
    decreases width,
{
    if width == 0 {
        seq![]
    } else {
        seq![(v % 256) as u8] + le_bytes(v / 256, (width - 1) as nat)
    }
}

/// A string as the format writes it: its UTF-8 length as a `u64`, then
/// its UTF-8 bytes.
pub open spec fn encode_string(text: Seq<char>) -> Seq<u8> {
    le_bytes(encode_utf8(text).len(), 8) + encode_utf8(text)
}

/// The two's-complement `u64` pattern of `v`.
pub open spec fn twos_complement(v: i64) -> nat {
    if v < 0 {
        (v + 18446744073709551616) as nat
    } else {
        v as nat
    }
}

/// The type tag and the bytes with which a value is written: unsigned
/// values as `u64` (tag 10), signed ones as `i64` (tag 11), strings with
/// tag 8.
pub open spec fn encode_value(value: MetadataValueView) -> (u32, Seq<u8>) {
    match value {
        MetadataValueView::Unsigned(v) => (10, le_bytes(v as nat, 8)),
        MetadataValueView::Signed(v) => (11, le_bytes(twos_complement(v), 8)),
        MetadataValueView::String(text) => (8, encode_string(text)),
    }
}

/// One metadata entry as the format writes it: key, type tag, value.
pub open spec fn encode_entry(key: Seq<char>, value: MetadataValueView) -> Seq<u8> {
    encode_string(key) + le_bytes(encode_value(value).0 as nat, 4) + encode_value(value).1
}

/// A list of entries, one after the other.
pub open spec fn encode_entries(entries: Seq<(Seq<char>, MetadataValueView)>) -> Seq<u8>
    decreases entries.len(),
{
    if entries.len() == 0 {
        seq![]
    } else {
        encode_entry(entries[0].0, entries[0].1) + encode_entries(entries.drop_first())
    }
}

/// A header: magic, version, tensor count, entry count, entries.
pub open spec fn encode_header(
    version: u32,
    tensor_count: u64,
    entries: Seq<(Seq<char>, MetadataValueView)>,
) -> Seq<u8> {
    seq![71u8, 71u8, 85u8, 70u8] + le_bytes(version as nat, 4) + le_bytes(tensor_count as nat, 8)
        + le_bytes(entries.len(), 8) + encode_entries(entries)
}

/// `m` with the entries added in order (a later entry replaces an earlier
/// one with the same key).
pub open spec fn insert_all(
    m: Map<Seq<char>, MetadataValueView>,
    entries: Seq<(Seq<char>, MetadataValueView)>,
) -> Map<Seq<char>, MetadataValueView>
    decreases entries.len(),
{
    if entries.len() == 0 {
        m
    } else {
        insert_all(m.insert(entries[0].0, entries[0].1), entries.drop_first())
    }
}

/// Whether a string is short enough for the format's safety limit.
pub open spec fn short_enough(text: Seq<char>) -> bool {
    encode_utf8(text).len() <= MAX_STRING_BYTES
}

/// Whether every key and string value is within the safety limit.
pub open spec fn entries_within_limits(entries: Seq<(Seq<char>, MetadataValueView)>) -> bool {
    forall|i: int|
        0 <= i < entries.len() ==> short_enough((#[trigger] entries[i]).0) && match entries[i].1 {
            MetadataValueView::String(text) => short_enough(text),
            _ => true,
        }
}

// ---------------------------------------------------------------------------
// Lemmas.
// ---------------------------------------------------------------------------

proof fn lemma_le_roundtrip(v: nat, width: nat)
    requires
        v < pow256(width),
    ensures
        le_bytes(v, width).len() == width,
        le_value(le_bytes(v, width)) == v,
    decreases width,
{
    if width > 0 {
        let w1 = (width - 1) as nat;
        assert(pow256(width) == 256 * pow256(w1));
        assert(v / 256 < pow256(w1)) by (nonlinear_arith)
            requires
                v < 256 * pow256(w1),
        ;
        lemma_le_roundtrip(v / 256, w1);
        let b = le_bytes(v, width);
        assert(b.drop_first() =~= le_bytes(v / 256, w1));
        assert(b[0] as nat == v % 256);
        assert(v == v % 256 + 256 * (v / 256)) by (nonlinear_arith);
    }
}

proof fn lemma_split(s: Seq<u8>, pos: int, x: Seq<u8>, y: Seq<u8>)
    requires
        0 <= pos,
        pos + x.len() + y.len() <= s.len(),
        s.subrange(pos, pos + x.len() + y.len()) == x + y,
    ensures
        s.subrange(pos, pos + x.len()) == x,
        s.subrange(pos + x.len(), pos + x.len() + y.len()) == y,
{
    let whole = s.subrange(pos, pos + x.len() + y.len());
    assert(s.subrange(pos, pos + x.len()) =~= whole.subrange(0, x.len() as int));
    assert((x + y).subrange(0, x.len() as int) =~= x);
    assert(s.subrange(pos + x.len(), pos + x.len() + y.len()) =~= whole.subrange(
        x.len() as int,
        (x.len() + y.len()) as int,
    ));
    assert((x + y).subrange(x.len() as int, (x.len() + y.len()) as int) =~= y);
}

proof fn lemma_read_uint_at(s: Seq<u8>, pos: int, v: nat, width: nat)
    requires
        0 <= pos,
        v < pow256(width),
        pos + width <= s.len(),
        s.subrange(pos, pos + width) == le_bytes(v, width),
    ensures
        spec_read_uint(s, pos, width) == Ok::<(nat, int), GgufError>((v, pos + width)),
{
    lemma_le_roundtrip(v, width);
}

proof fn lemma_pow256_values()
    ensures
        pow256(4) == 4294967296,
        pow256(8) == 18446744073709551616,
{
    reveal_with_fuel(pow256, 9);
}

proof fn lemma_read_string_at(s: Seq<u8>, pos: int, text: Seq<char>)
    requires
        0 <= pos,
        short_enough(text),
        pos + encode_string(text).len() <= s.len(),
        s.subrange(pos, pos + encode_string(text).len()) == encode_string(text),
    ensures
        spec_read_string(s, pos) == Ok::<(Seq<char>, int), GgufError>((text, pos + encode_string(text).len())),
{
    let bytes = encode_utf8(text);
    lemma_pow256_values();
    lemma_le_roundtrip(bytes.len(), 8);
    lemma_split(s, pos, le_bytes(bytes.len(), 8), bytes);
    lemma_read_uint_at(s, pos, bytes.len(), 8);
    encode_utf8_valid_utf8(text);
    encode_utf8_decode_utf8(text);
}

proof fn lemma_read_value_at(s: Seq<u8>, pos: int, value: MetadataValueView)
    requires
        0 <= pos,
        value matches MetadataValueView::String(text) ==> short_enough(text),
        pos + encode_value(value).1.len() <= s.len(),
        s.subrange(pos, pos + encode_value(value).1.len()) == encode_value(value).1,
    ensures
        spec_read_value(s, pos, encode_value(value).0) == Ok::<(Option<MetadataValueView>, int), GgufError>(
            (Some(value), pos + encode_value(value).1.len()),
        ),
{
    lemma_pow256_values();
    match value {
        MetadataValueView::Unsigned(v) => {
            lemma_le_roundtrip(v as nat, 8);
            lemma_read_uint_at(s, pos, v as nat, 8);
            assert(spec_unsigned(s, pos, 8) == Ok::<(Option<MetadataValueView>, int), GgufError>(
                (Some(value), pos + 8),
            ));
        },
        MetadataValueView::Signed(v) => {
            lemma_le_roundtrip(twos_complement(v), 8);
            lemma_read_uint_at(s, pos, twos_complement(v), 8);
            assert(to_signed(twos_complement(v), 8) == v);
            assert(spec_signed(s, pos, 8) == Ok::<(Option<MetadataValueView>, int), GgufError>(
                (Some(value), pos + 8),
            ));
        },
        MetadataValueView::String(text) => {
            lemma_read_string_at(s, pos, text);
        },
    }
}

proof fn lemma_read_entries_at(
    s: Seq<u8>,
    pos: int,
    entries: Seq<(Seq<char>, MetadataValueView)>,
    m: Map<Seq<char>, MetadataValueView>,
)
    requires
        0 <= pos,
        entries_within_limits(entries),
        pos + encode_entries(entries).len() <= s.len(),
        s.subrange(pos, pos + encode_entries(entries).len()) == encode_entries(entries),
    ensures
        spec_read_entries(s, pos, entries.len(), m) == Ok::<(Map<Seq<char>, MetadataValueView>, int), GgufError>(
            (insert_all(m, entries), pos + encode_entries(entries).len()),
        ),
    decreases entries.len(),
{
    if entries.len() > 0 {
        let key = entries[0].0;
        let value = entries[0].1;
        let rest = entries.drop_first();
        assert(short_enough((entries[0]).0));
        let k = encode_string(key);
        let tag = le_bytes(encode_value(value).0 as nat, 4);
        let vb = encode_value(value).1;
        let tail = encode_entries(rest);
        lemma_pow256_values();
        lemma_le_roundtrip(encode_value(value).0 as nat, 4);
        assert(encode_entries(entries) =~= ((k + tag) + vb) + tail);
        lemma_split(s, pos, (k + tag) + vb, tail);
        lemma_split(s, pos, k + tag, vb);
        lemma_split(s, pos, k, tag);
        lemma_read_string_at(s, pos, key);
        lemma_pow256_values();
        lemma_read_uint_at(s, pos + k.len(), encode_value(value).0 as nat, 4);
        lemma_read_value_at(s, pos + k.len() + 4, value);
        assert forall|i: int| 0 <= i < rest.len() implies short_enough((#[trigger] rest[i]).0) && match rest[i].1 {
            MetadataValueView::String(text) => short_enough(text),
            _ => true,
        } by {
            assert(rest[i] == entries[i + 1]);
        }
        lemma_read_entries_at(s, pos + k.len() + tag.len() + vb.len(), rest, m.insert(key, value));
    }
}

/// What is read back of a written header is what was written: the version,
/// and each entry's value under its key (the last entry with a key wins),
/// for any entries whose keys and strings are within the safety limit.
pub proof fn law_header_roundtrip(version: u32, tensor_count: u64, entries: Seq<(Seq<char>, MetadataValueView)>)
    requires
        2 <= version <= 3,
        entries.len() <= MAX_METADATA_ENTRIES,
        entries_within_limits(entries),
    ensures
        spec_header(encode_header(version, tensor_count, entries)) == Ok::<GgufHeader, GgufError>(
            GgufHeader { version, metadata: insert_all(Map::empty(), entries) },
        ),
{
    let magic = seq![71u8, 71u8, 85u8, 70u8];
    let v = le_bytes(version as nat, 4);
    let t = le_bytes(tensor_count as nat, 8);
    let c = le_bytes(entries.len(), 8);
    let body = encode_entries(entries);
    let s = encode_header(version, tensor_count, entries);
    lemma_pow256_values();
    lemma_le_roundtrip(version as nat, 4);
    lemma_le_roundtrip(tensor_count as nat, 8);
    lemma_le_roundtrip(entries.len(), 8);
    assert(s.subrange(0, s.len() as int) =~= (((magic + v) + t) + c) + body);
    lemma_split(s, 0, ((magic + v) + t) + c, body);
    lemma_split(s, 0, (magic + v) + t, c);
    lemma_split(s, 0, magic + v, t);
    lemma_split(s, 0, magic, v);
    lemma_read_uint_at(s, 4, version as nat, 4);
    lemma_read_uint_at(s, 8, tensor_count as nat, 8);
    lemma_read_uint_at(s, 16, entries.len(), 8);
    lemma_read_entries_at(s, 24, entries, Map::empty());
}


// ---------------------------------------------------------------------------
// Reading a prefix of the file.
// ---------------------------------------------------------------------------

proof fn lemma_prefix_subrange(t: Seq<u8>, u: Seq<u8>, a: int, b: int)
    requires
        0 <= a <= b <= t.len(),
    ensures
        (t + u).subrange(a, b) == t.subrange(a, b),
{
    assert((t + u).subrange(a, b) =~= t.subrange(a, b));
}

proof fn lemma_prefix_read_uint(t: Seq<u8>, u: Seq<u8>, pos: int, width: nat)
    ensures
        spec_read_uint(t, pos, width) is Ok ==> spec_read_uint(t + u, pos, width) == spec_read_uint(t, pos, width),
{
    if spec_read_uint(t, pos, width) is Ok {
        lemma_prefix_subrange(t, u, pos, pos + width);
    }
}

proof fn lemma_prefix_read_string(t: Seq<u8>, u: Seq<u8>, pos: int)
    ensures
        spec_read_string(t, pos) != Err::<(Seq<char>, int), GgufError>(GgufError::UnexpectedEnd)
            ==> spec_read_string(t + u, pos) == spec_read_string(t, pos),
{
    lemma_prefix_read_uint(t, u, pos, 8);
    if let Ok((len, p1)) = spec_read_uint(t, pos, 8) {
        if p1 + len <= t.len() {
            lemma_prefix_subrange(t, u, p1, p1 + len);
        }
    }
}

/// A result that a longer buffer may change: running out of bytes.
pub open spec fn ran_out<T>(r: Result<T, GgufError>) -> bool {
    r matches Err(GgufError::UnexpectedEnd)
}

proof fn lemma_prefix_skip_array(t: Seq<u8>, u: Seq<u8>, pos: int, element_type: u32, count: u64)
    ensures
        !ran_out(spec_skip_array(t, pos, element_type, count)) ==> spec_skip_array(t + u, pos, element_type, count)
            == spec_skip_array(t, pos, element_type, count),
    decreases remaining(t, pos), count, 2nat,
{
    if count <= crate::gguf::MAX_ARRAY_ELEMENTS && crate::gguf::spec_fixed_width(element_type) is None {
        lemma_prefix_skip_elements(t, u, pos, element_type, count as nat);
    }
}

proof fn lemma_prefix_skip_elements(t: Seq<u8>, u: Seq<u8>, pos: int, element_type: u32, n: nat)
    ensures
        !ran_out(spec_skip_elements(t, pos, element_type, n)) ==> spec_skip_elements(t + u, pos, element_type, n)
            == spec_skip_elements(t, pos, element_type, n),
    decreases remaining(t, pos), n, 1nat,
{
    if n > 0 {
        lemma_prefix_skip_element(t, u, pos, element_type);
        if let Ok(next) = spec_skip_element(t, pos, element_type) {
            if next > pos {
                lemma_prefix_skip_elements(t, u, next, element_type, (n - 1) as nat);
            }
        }
    }
}

proof fn lemma_prefix_skip_element(t: Seq<u8>, u: Seq<u8>, pos: int, element_type: u32)
    ensures
        !ran_out(spec_skip_element(t, pos, element_type)) ==> spec_skip_element(t + u, pos, element_type)
            == spec_skip_element(t, pos, element_type),
    decreases remaining(t, pos), 0nat, 0nat,
{
    lemma_prefix_read_uint(t, u, pos, 8);
    lemma_prefix_read_uint(t, u, pos, 4);
    if element_type == 9 {
        if let Ok((nested_type, p1)) = spec_read_uint(t, pos, 4) {
            lemma_prefix_read_uint(t, u, p1, 8);
            if let Ok((nested_count, p2)) = spec_read_uint(t, p1, 8) {
                if p2 <= t.len() && pos >= 0 {
                    lemma_prefix_skip_array(t, u, p2, nested_type as u32, nested_count as u64);
                }
            }
        }
    }
}

proof fn lemma_prefix_read_value(t: Seq<u8>, u: Seq<u8>, pos: int, value_type: u32)
    ensures
        !ran_out(spec_read_value(t, pos, value_type)) ==> spec_read_value(t + u, pos, value_type)
            == spec_read_value(t, pos, value_type),
{
    lemma_prefix_read_uint(t, u, pos, 1);
    lemma_prefix_read_uint(t, u, pos, 2);
    lemma_prefix_read_uint(t, u, pos, 4);
    lemma_prefix_read_uint(t, u, pos, 8);
    lemma_prefix_read_string(t, u, pos);
    if value_type == 9 {
        if let Ok((element_type, p1)) = spec_read_uint(t, pos, 4) {
            lemma_prefix_read_uint(t, u, p1, 8);
            if let Ok((count, p2)) = spec_read_uint(t, p1, 8) {
                lemma_prefix_skip_array(t, u, p2, element_type as u32, count as u64);
            }
        }
    }
}

proof fn lemma_prefix_read_entries(
    t: Seq<u8>,
    u: Seq<u8>,
    pos: int,
    n: nat,
    m: Map<Seq<char>, MetadataValueView>,
)
    ensures
        !ran_out(spec_read_entries(t, pos, n, m)) ==> spec_read_entries(t + u, pos, n, m)
            == spec_read_entries(t, pos, n, m),
    decreases n,
{
    if n > 0 {
        lemma_prefix_read_string(t, u, pos);
        if let Ok((key, p1)) = spec_read_string(t, pos) {
            lemma_prefix_read_uint(t, u, p1, 4);
            if let Ok((value_type, p2)) = spec_read_uint(t, p1, 4) {
                lemma_prefix_read_value(t, u, p2, value_type as u32);
                if let Ok((value, p3)) = spec_read_value(t, p2, value_type as u32) {
                    let m2 = match value {
                        Some(v) => m.insert(key, v),
                        None => m,
                    };
                    lemma_prefix_read_entries(t, u, p3, (n - 1) as nat, m2);
                }
            }
        }
    }
}

/// Reading more of the file changes nothing once a header was read (or
/// refused) from a shorter prefix: only running out of bytes can turn into
/// another answer.
pub proof fn law_header_prefix(t: Seq<u8>, u: Seq<u8>)
    ensures
        !ran_out(spec_header(t)) ==> spec_header(t + u) == spec_header(t),
{
    if t.len() >= 4 {
        lemma_prefix_subrange(t, u, 0, 4);
        lemma_prefix_read_uint(t, u, 4, 4);
        if let Ok((version, p1)) = spec_read_uint(t, 4, 4) {
            lemma_prefix_read_uint(t, u, p1, 8);
            if let Ok((_tc, p2)) = spec_read_uint(t, p1, 8) {
                lemma_prefix_read_uint(t, u, p2, 8);
                if let Ok((count, p3)) = spec_read_uint(t, p2, 8) {
                    lemma_prefix_read_entries(t, u, p3, count, Map::empty());
                }
            }
        }
    }
}

/// The planning metadata read from a prefix of a model file is that of the
/// whole file, unless the prefix ran out of bytes.
pub proof fn law_inspect_prefix(path: Seq<char>, file_size_bytes: u64, t: Seq<u8>, u: Seq<u8>)
    ensures
        !ran_out(spec_inspect(path, file_size_bytes, t)) ==> spec_inspect(path, file_size_bytes, t + u)
            == spec_inspect(path, file_size_bytes, t),
{
    law_header_prefix(t, u);
}

/// Whether `m` holds an unsigned number that fits in 32 bits under `key`.
pub open spec fn holds_u32(m: Map<Seq<char>, MetadataValueView>, key: Seq<char>) -> bool {
    m.contains_key(key) && m[key] is Unsigned && m[key]->Unsigned_0 <= u32::MAX
}

/// Inspecting a written header reports what was written (the last entry of
/// a key counting): its version, the `general.architecture` string, the
/// `<arch>.block_count` number, the `general.name` string, and each
/// optional size read from its own `<arch>.` key: `context_length`,
/// `embedding_length`, `attention.head_count`, `attention.head_count_kv`,
/// `attention.key_length` and `attention.value_length`. A size whose key
/// was not written is absent.
#[verifier::rlimit(60)]
pub proof fn law_inspect_reads_written_metadata(
    path: Seq<char>,
    file_size_bytes: u64,
    version: u32,
    tensor_count: u64,
    entries: Seq<(Seq<char>, MetadataValueView)>,
    arch: Seq<char>,
)
    requires
        2 <= version <= 3,
        entries.len() <= MAX_METADATA_ENTRIES,
        entries_within_limits(entries),
        insert_all(Map::empty(), entries).contains_key("general.architecture"@),
        insert_all(Map::empty(), entries)["general.architecture"@] == MetadataValueView::String(arch),
        holds_u32(insert_all(Map::empty(), entries), arch + ".block_count"@),
    ensures
        ({
            let m = insert_all(Map::empty(), entries);
            let r = spec_inspect(path, file_size_bytes, encode_header(version, tensor_count, entries));
            &&& r is Ok
            &&& r->Ok_0.path == path
            &&& r->Ok_0.file_size_bytes == file_size_bytes
            &&& r->Ok_0.gguf_version == version
            &&& r->Ok_0.architecture == arch
            &&& r->Ok_0.block_count == m[arch + ".block_count"@]->Unsigned_0
            &&& (m.contains_key("general.name"@) && m["general.name"@] is String) ==> r->Ok_0.name == Some(
                m["general.name"@]->String_0,
            )
            &&& !m.contains_key("general.name"@) ==> r->Ok_0.name is None
            &&& holds_u32(m, arch + ".context_length"@) ==> r->Ok_0.context_length == Some(
                m[arch + ".context_length"@]->Unsigned_0 as u32,
            )
            &&& !m.contains_key(arch + ".context_length"@) ==> r->Ok_0.context_length is None
            &&& holds_u32(m, arch + ".embedding_length"@) ==> r->Ok_0.embedding_length == Some(
                m[arch + ".embedding_length"@]->Unsigned_0 as u32,
            )
            &&& !m.contains_key(arch + ".embedding_length"@) ==> r->Ok_0.embedding_length is None
            &&& holds_u32(m, arch + ".attention.head_count"@) ==> r->Ok_0.attention_head_count == Some(
                m[arch + ".attention.head_count"@]->Unsigned_0 as u32,
            )
            &&& !m.contains_key(arch + ".attention.head_count"@) ==> r->Ok_0.attention_head_count is None
            &&& holds_u32(m, arch + ".attention.head_count_kv"@) ==> r->Ok_0.attention_head_count_kv == Some(
                m[arch + ".attention.head_count_kv"@]->Unsigned_0 as u32,
            )
            &&& !m.contains_key(arch + ".attention.head_count_kv"@) ==> r->Ok_0.attention_head_count_kv is None
            &&& holds_u32(m, arch + ".attention.key_length"@) ==> r->Ok_0.attention_key_length == Some(
                m[arch + ".attention.key_length"@]->Unsigned_0 as u32,
            )
            &&& !m.contains_key(arch + ".attention.key_length"@) ==> r->Ok_0.attention_key_length is None
            &&& holds_u32(m, arch + ".attention.value_length"@) ==> r->Ok_0.attention_value_length == Some(
                m[arch + ".attention.value_length"@]->Unsigned_0 as u32,
            )
            &&& !m.contains_key(arch + ".attention.value_length"@) ==> r->Ok_0.attention_value_length is None
        }),
{
    law_header_roundtrip(version, tensor_count, entries);
    assert((arch + "."@) + "block_count"@ == arch + ".block_count"@) by {
        reveal_strlit(".");
        reveal_strlit("block_count");
        reveal_strlit(".block_count");
        assert((arch + "."@) + "block_count"@ =~= arch + ".block_count"@);
    }
    assert((arch + "."@) + "context_length"@ == arch + ".context_length"@) by {
        reveal_strlit(".");
        reveal_strlit("context_length");
        reveal_strlit(".context_length");
        assert((arch + "."@) + "context_length"@ =~= arch + ".context_length"@);
    }
    assert((arch + "."@) + "embedding_length"@ == arch + ".embedding_length"@) by {
        reveal_strlit(".");
        reveal_strlit("embedding_length");
        reveal_strlit(".embedding_length");
        assert((arch + "."@) + "embedding_length"@ =~= arch + ".embedding_length"@);
    }
    assert((arch + "."@) + "attention.head_count"@ == arch + ".attention.head_count"@) by {
        reveal_strlit(".");
        reveal_strlit("attention.head_count");
        reveal_strlit(".attention.head_count");
        assert((arch + "."@) + "attention.head_count"@ =~= arch + ".attention.head_count"@);
    }
    assert((arch + "."@) + "attention.head_count_kv"@ == arch + ".attention.head_count_kv"@) by {
        reveal_strlit(".");
        reveal_strlit("attention.head_count_kv");
        reveal_strlit(".attention.head_count_kv");
        assert((arch + "."@) + "attention.head_count_kv"@ =~= arch + ".attention.head_count_kv"@);
    }
    assert((arch + "."@) + "attention.key_length"@ == arch + ".attention.key_length"@) by {
        reveal_strlit(".");
        reveal_strlit("attention.key_length");
        reveal_strlit(".attention.key_length");
        assert((arch + "."@) + "attention.key_length"@ =~= arch + ".attention.key_length"@);
    }
    assert((arch + "."@) + "attention.value_length"@ == arch + ".attention.value_length"@) by {
        reveal_strlit(".");
        reveal_strlit("attention.value_length");
        reveal_strlit(".attention.value_length");
        assert((arch + "."@) + "attention.value_length"@ =~= arch + ".attention.value_length"@);
    }
}

} // verus!
