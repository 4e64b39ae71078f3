use ai_local_runtime::gguf::ModelMetadata;
use ai_local_runtime::model::{
    accelerator_identity_text, hardware_identity, model_identity_matches, same_hardware_identity,
    sort_texts, AcceleratorInfo, AcceleratorKind, CpuInfo,
};

fn cpu(model: &str) -> CpuInfo {
    CpuInfo {
        model: model.into(),
        architecture: "x86_64".into(),
        logical_cores: 8,
        physical_cores: Some(4),
    }
}

fn gpu(name: &str, memory: Option<u64>) -> AcceleratorInfo {
    AcceleratorInfo {
        kind: AcceleratorKind::DiscreteGpu,
        name: name.into(),
        vendor: "NVIDIA".into(),
        device_path: Some("/sys/class/drm/card0".into()),
        dedicated_memory_bytes: memory,
        available_memory_bytes: None,
        telemetry_available: true,
    }
}

#[test]
fn describes_accelerators_for_identity() {
    assert_eq!(
        accelerator_identity_text(&gpu("RTX", Some(4096))),
        "DiscreteGpu|NVIDIA|RTX|Some(4096)"
    );
    assert_eq!(accelerator_identity_text(&gpu("RTX", None)), "DiscreteGpu|NVIDIA|RTX|None");
}

#[test]
fn sorts_texts_by_code_point() {
    let sorted = sort_texts(vec!["b".into(), "a".into(), "ab".into(), "B".into(), "é".into()]);
    assert_eq!(sorted, vec!["B", "a", "ab", "b", "é"]);
}

#[test]
fn hardware_identity_ignores_discovery_order() {
    let first = hardware_identity(&cpu("Test CPU"), &vec![gpu("A", Some(1)), gpu("B", None)]);
    let second = hardware_identity(&cpu("Test CPU"), &vec![gpu("B", None), gpu("A", Some(1))]);
    assert!(same_hardware_identity(&first, &second));
    assert_eq!(first.accelerators, vec!["DiscreteGpu|NVIDIA|A|Some(1)", "DiscreteGpu|NVIDIA|B|None"]);

    let other_cpu = hardware_identity(&cpu("Different CPU"), &vec![gpu("A", Some(1)), gpu("B", None)]);
    assert!(!same_hardware_identity(&first, &other_cpu));
    let fewer = hardware_identity(&cpu("Test CPU"), &vec![gpu("A", Some(1))]);
    assert!(!same_hardware_identity(&first, &fewer));
}

fn model(size: u64, architecture: &str, name: Option<&str>) -> ModelMetadata {
    ModelMetadata {
        path: "/models/test.gguf".into(),
        file_size_bytes: size,
        gguf_version: 3,
        name: name.map(str::to_string),
        architecture: architecture.into(),
        block_count: 1,
        context_length: Some(4096),
        embedding_length: Some(128),
        attention_head_count: Some(1),
        attention_head_count_kv: Some(1),
        attention_key_length: None,
        attention_value_length: None,
    }
}

#[test]
fn model_identity_ignores_name_and_context() {
    let mut renamed = model(1, "llama", Some("Renamed"));
    renamed.context_length = Some(8192);
    renamed.path = "/elsewhere.gguf".into();
    assert!(model_identity_matches(&model(1, "llama", Some("Test")), &renamed));
    assert!(!model_identity_matches(&model(1, "llama", None), &model(2, "llama", None)));
    assert!(!model_identity_matches(&model(1, "llama", None), &model(1, "qwen3", None)));
}
