use ai_local_runtime::gguf::{inspect, GgufError, ModelMetadata};

fn write_string(out: &mut Vec<u8>, value: &str) {
    out.extend_from_slice(&(value.len() as u64).to_le_bytes());
    out.extend_from_slice(value.as_bytes());
}

fn write_string_value(out: &mut Vec<u8>, key: &str, value: &str) {
    write_string(out, key);
    out.extend_from_slice(&8_u32.to_le_bytes());
    write_string(out, value);
}

fn write_u32_value(out: &mut Vec<u8>, key: &str, value: u32) {
    write_string(out, key);
    out.extend_from_slice(&4_u32.to_le_bytes());
    out.extend_from_slice(&value.to_le_bytes());
}

fn header(version: u32, count: u64) -> Vec<u8> {
    let mut out = Vec::new();
    out.extend_from_slice(b"GGUF");
    out.extend_from_slice(&version.to_le_bytes());
    out.extend_from_slice(&0_u64.to_le_bytes());
    out.extend_from_slice(&count.to_le_bytes());
    out
}

fn read(bytes: &[u8]) -> Result<ModelMetadata, GgufError> {
    inspect("test.gguf", bytes.len() as u64, bytes)
}

#[test]
fn reads_planning_metadata_from_a_gguf_header() {
    let mut file = header(3, 7);
    write_string_value(&mut file, "general.architecture", "llama");
    write_string_value(&mut file, "general.name", "Test Model");
    write_u32_value(&mut file, "llama.block_count", 32);
    write_u32_value(&mut file, "llama.context_length", 8192);
    write_u32_value(&mut file, "llama.embedding_length", 4096);
    write_u32_value(&mut file, "llama.attention.head_count", 32);
    write_u32_value(&mut file, "llama.attention.head_count_kv", 8);

    let model = read(&file).unwrap();

    assert_eq!(model.architecture, "llama");
    assert_eq!(model.block_count, 32);
    assert_eq!(model.context_length, Some(8192));
    assert_eq!(model.kv_dimensions_per_layer(), Some((1024, 1024)));
}

fn minimal_model() -> Vec<u8> {
    let mut file = header(2, 2);
    write_string_value(&mut file, "general.architecture", "qwen3");
    write_u32_value(&mut file, "qwen3.block_count", 36);
    file
}

#[test]
fn records_path_size_version_and_name() {
    let file = minimal_model();
    let model = inspect("/models/q.gguf", 123_456, &file).unwrap();
    assert_eq!(model.path, "/models/q.gguf");
    assert_eq!(model.file_size_bytes, 123_456);
    assert_eq!(model.gguf_version, 2);
    assert_eq!(model.name, None);
    assert_eq!(model.architecture, "qwen3");
    assert_eq!(model.block_count, 36);
    assert_eq!(model.embedding_length, None);
}

#[test]
fn rejects_a_file_without_the_magic() {
    let mut file = minimal_model();
    file[0] = b'X';
    assert_eq!(read(&file).unwrap_err(), GgufError::NotGguf);
}

#[test]
fn rejects_unsupported_versions() {
    let mut file = header(4, 0);
    assert_eq!(read(&file).unwrap_err(), GgufError::UnsupportedVersion(4));
    file = header(1, 0);
    assert_eq!(read(&file).unwrap_err(), GgufError::UnsupportedVersion(1));
}

#[test]
fn a_short_file_ends_unexpectedly() {
    assert_eq!(read(b"GG").unwrap_err(), GgufError::UnexpectedEnd);
    let file = minimal_model();
    assert_eq!(read(&file[..file.len() - 1]).unwrap_err(), GgufError::UnexpectedEnd);
}

#[test]
fn a_prefix_that_holds_the_header_reads_like_the_whole_file() {
    let mut file = minimal_model();
    let whole_header = file.len();
    file.extend_from_slice(&[0xAB; 64]);
    let from_prefix = inspect("m.gguf", file.len() as u64, &file[..whole_header]).unwrap();
    let from_whole = inspect("m.gguf", file.len() as u64, &file).unwrap();
    assert_eq!(from_prefix.architecture, from_whole.architecture);
    assert_eq!(from_prefix.block_count, from_whole.block_count);
}

#[test]
fn limits_the_metadata_entry_count() {
    let file = header(3, 1_000_001);
    assert_eq!(read(&file).unwrap_err(), GgufError::TooManyMetadataEntries(1_000_001));
}

#[test]
fn limits_string_length() {
    let mut file = header(3, 1);
    file.extend_from_slice(&(16 * 1024 * 1024 + 1_u64).to_le_bytes());
    assert_eq!(read(&file).unwrap_err(), GgufError::StringTooLong);
}

#[test]
fn rejects_invalid_utf8_keys() {
    let mut file = header(3, 1);
    file.extend_from_slice(&2_u64.to_le_bytes());
    file.extend_from_slice(&[0xC3, 0x28]);
    file.extend_from_slice(&4_u32.to_le_bytes());
    file.extend_from_slice(&1_u32.to_le_bytes());
    assert_eq!(read(&file).unwrap_err(), GgufError::InvalidUtf8);
}

#[test]
fn rejects_unknown_value_types() {
    let mut file = header(3, 1);
    write_string(&mut file, "x");
    file.extend_from_slice(&13_u32.to_le_bytes());
    assert_eq!(read(&file).unwrap_err(), GgufError::UnsupportedValueType(13));
}

fn with_array(element_type: u32, count: u64, payload: &[u8]) -> Vec<u8> {
    let mut file = header(3, 3);
    write_string(&mut file, "tokenizer.tokens");
    file.extend_from_slice(&9_u32.to_le_bytes());
    file.extend_from_slice(&element_type.to_le_bytes());
    file.extend_from_slice(&count.to_le_bytes());
    file.extend_from_slice(payload);
    write_string_value(&mut file, "general.architecture", "llama");
    write_u32_value(&mut file, "llama.block_count", 4);
    file
}

#[test]
fn skips_arrays_of_fixed_and_variable_width() {
    let mut floats = Vec::new();
    for value in [1.0_f32, 2.0, 3.0] {
        floats.extend_from_slice(&value.to_le_bytes());
    }
    assert_eq!(read(&with_array(6, 3, &floats)).unwrap().block_count, 4);

    let mut strings = Vec::new();
    write_string(&mut strings, "<s>");
    write_string(&mut strings, "</s>");
    assert_eq!(read(&with_array(8, 2, &strings)).unwrap().block_count, 4);

    let mut nested = Vec::new();
    nested.extend_from_slice(&4_u32.to_le_bytes());
    nested.extend_from_slice(&2_u64.to_le_bytes());
    nested.extend_from_slice(&7_u32.to_le_bytes());
    nested.extend_from_slice(&9_u32.to_le_bytes());
    assert_eq!(read(&with_array(9, 1, &nested)).unwrap().block_count, 4);
}

#[test]
fn refuses_oversized_and_unsupported_arrays() {
    assert_eq!(read(&with_array(0, 10_000_001, &[])).unwrap_err(), GgufError::ArrayTooLarge);
    assert_eq!(
        read(&with_array(10, 9_000_000, &[])).unwrap_err(),
        GgufError::UnexpectedEnd
    );
    assert_eq!(
        read(&with_array(13, 1, &[])).unwrap_err(),
        GgufError::UnsupportedArrayElementType(13)
    );
    // An array of an unsupported element type with no elements is accepted.
    assert_eq!(read(&with_array(13, 0, &[])).unwrap().block_count, 4);
}

#[test]
fn reports_missing_planning_keys() {
    let mut file = header(3, 1);
    write_u32_value(&mut file, "llama.block_count", 4);
    assert_eq!(read(&file).unwrap_err(), GgufError::MissingArchitecture);

    let mut file = header(3, 1);
    write_string_value(&mut file, "general.architecture", "llama");
    assert_eq!(read(&file).unwrap_err(), GgufError::MissingBlockCount);
}

#[test]
fn a_later_entry_replaces_an_earlier_one() {
    let mut file = header(3, 3);
    write_string_value(&mut file, "general.architecture", "llama");
    write_u32_value(&mut file, "llama.block_count", 4);
    write_u32_value(&mut file, "llama.block_count", 40);
    assert_eq!(read(&file).unwrap().block_count, 40);
}

#[test]
fn reads_integers_of_every_width_that_fit_in_u32() {
    let mut file = header(3, 5);
    write_string_value(&mut file, "general.architecture", "a");
    // block count as an i16
    write_string(&mut file, "a.block_count");
    file.extend_from_slice(&3_u32.to_le_bytes());
    file.extend_from_slice(&12_i16.to_le_bytes());
    // negative context length as an i32: not a u32
    write_string(&mut file, "a.context_length");
    file.extend_from_slice(&5_u32.to_le_bytes());
    file.extend_from_slice(&(-1_i32).to_le_bytes());
    // embedding length as a u64 that fits
    write_string(&mut file, "a.embedding_length");
    file.extend_from_slice(&10_u32.to_le_bytes());
    file.extend_from_slice(&2048_u64.to_le_bytes());
    // head count as a u64 that does not fit
    write_string(&mut file, "a.attention.head_count");
    file.extend_from_slice(&10_u32.to_le_bytes());
    file.extend_from_slice(&(1_u64 << 40).to_le_bytes());

    let model = read(&file).unwrap();
    assert_eq!(model.block_count, 12);
    assert_eq!(model.context_length, None);
    assert_eq!(model.embedding_length, Some(2048));
    assert_eq!(model.attention_head_count, None);
}

fn metadata(
    embedding: Option<u32>,
    heads: Option<u32>,
    kv_heads: Option<u32>,
    key: Option<u32>,
    value: Option<u32>,
) -> ModelMetadata {
    ModelMetadata {
        path: "m.gguf".into(),
        file_size_bytes: 1,
        gguf_version: 3,
        name: None,
        architecture: "llama".into(),
        block_count: 1,
        context_length: None,
        embedding_length: embedding,
        attention_head_count: heads,
        attention_head_count_kv: kv_heads,
        attention_key_length: key,
        attention_value_length: value,
    }
}

#[test]
fn kv_dimensions_follow_the_head_layout() {
    assert_eq!(metadata(None, Some(8), None, None, None).kv_dimensions_per_layer(), None);
    assert_eq!(
        metadata(Some(512), None, None, None, None).kv_dimensions_per_layer(),
        Some((512, 512))
    );
    assert_eq!(metadata(Some(512), Some(0), None, None, None).kv_dimensions_per_layer(), None);
    assert_eq!(metadata(Some(512), Some(8), Some(0), None, None).kv_dimensions_per_layer(), None);
    assert_eq!(
        metadata(Some(4096), Some(32), None, None, None).kv_dimensions_per_layer(),
        Some((4096, 4096))
    );
    assert_eq!(
        metadata(Some(4096), Some(32), Some(8), Some(256), Some(192)).kv_dimensions_per_layer(),
        Some((2048, 1536))
    );
    assert_eq!(
        metadata(Some(u32::MAX), Some(1), Some(u32::MAX), None, None).kv_dimensions_per_layer(),
        Some((u32::MAX as u64 * u32::MAX as u64, u32::MAX as u64 * u32::MAX as u64))
    );
}
