use ai_local_runtime::backend::{
    bench_command_args, infer_variant, local_build_number, server_command, require_cuda_build, select_binary, select_local_cuda_binary, server_command_args,
    BenchmarkError, CudaBuildCandidate, CudaBuildError, ExecutableCandidate, LlamaCppStatus, LlamaCppVariant, TokenUsage,
};
use ai_local_runtime::display::{display_optional_number, display_optional_path, display_variant};
use ai_local_runtime::policy::{ExecutionProfile, GpuOffload, GpuPlacement, PolicyReason, RuntimeMode};

#[test]
fn identifies_packaged_gpu_variants() {
    assert_eq!(
        infer_variant("/opt/llama.cpp/b100-cuda/llama-server"),
        LlamaCppVariant::Cuda
    );
    assert_eq!(
        infer_variant("/opt/llama.cpp/b100-vulkan/llama-server"),
        LlamaCppVariant::Vulkan
    );
}

#[test]
fn variant_names_ignore_ascii_case() {
    assert_eq!(infer_variant("/opt/LLAMA-CUDA/llama-server"), LlamaCppVariant::Cuda);
    assert_eq!(infer_variant("/opt/Vulkan-CUDA/llama-server"), LlamaCppVariant::Cuda);
    assert_eq!(infer_variant("/usr/bin/llama-server"), LlamaCppVariant::Other);
}

#[test]
fn status_reports_what_was_found() {
    let status = LlamaCppStatus::discover(Some("/opt/b7-cuda/llama-server".into()), None);
    assert!(status.ready_for_serving);
    assert!(!status.ready_for_benchmarking);
    assert_eq!(status.server_variant, Some(LlamaCppVariant::Cuda));
    assert_eq!(status.bench_variant, None);
    assert_eq!(status.server_path.as_deref(), Some("/opt/b7-cuda/llama-server"));
}

#[test]
fn reads_local_build_numbers() {
    assert_eq!(local_build_number(Some("b6123-cuda")), 6123);
    assert_eq!(local_build_number(Some("b-cuda")), 0);
    assert_eq!(local_build_number(Some("b12-vulkan")), 0);
    assert_eq!(local_build_number(Some("x12-cuda")), 0);
    assert_eq!(local_build_number(Some("b+7-cuda")), 7);
    assert_eq!(local_build_number(Some("b99999999999999999999-cuda")), 0);
    assert_eq!(local_build_number(None), 0);
}

fn candidate(directory: &str, is_file: bool) -> CudaBuildCandidate {
    CudaBuildCandidate {
        directory_name: directory.into(),
        executable_path: format!("/data/llama.cpp/{directory}/llama-server"),
        executable_is_file: is_file,
    }
}

#[test]
fn picks_the_newest_local_cuda_build() {
    let candidates = vec![
        candidate("b100-cuda", true),
        candidate("b300-cuda", false),
        candidate("b200-CUDA", true),
        candidate("b250-vulkan", true),
        candidate("b200-cuda", true),
    ];
    assert_eq!(
        select_local_cuda_binary(&candidates).as_deref(),
        Some("/data/llama.cpp/b200-cuda/llama-server")
    );
    assert_eq!(select_local_cuda_binary(&vec![candidate("b1-vulkan", true)]), None);
}

#[test]
fn later_builds_win_ties() {
    let candidates = vec![candidate("b5-cuda", true), candidate("nightly-cuda", true), candidate("other-cuda", true)];
    assert_eq!(
        select_local_cuda_binary(&candidates).as_deref(),
        Some("/data/llama.cpp/b5-cuda/llama-server")
    );
    let tied = vec![candidate("nightly-cuda", true), candidate("other-cuda", true)];
    assert_eq!(
        select_local_cuda_binary(&tied).as_deref(),
        Some("/data/llama.cpp/other-cuda/llama-server")
    );
}

fn executable(path: &str, is_file: bool) -> ExecutableCandidate {
    ExecutableCandidate { path: path.into(), is_file }
}

#[test]
fn chooses_configured_then_local_then_search_path() {
    let on_path = vec![executable("/usr/local/bin/llama-server", false), executable("/usr/bin/llama-server", true)];
    assert_eq!(
        select_binary(Some(executable("/custom/llama-server", true)), Some("/local".into()), &on_path).as_deref(),
        Some("/custom/llama-server")
    );
    assert_eq!(
        select_binary(Some(executable("/custom/llama-server", false)), Some("/local".into()), &on_path).as_deref(),
        Some("/local")
    );
    assert_eq!(select_binary(None, None, &on_path).as_deref(), Some("/usr/bin/llama-server"));
    assert_eq!(select_binary(None, None, &vec![]), None);
}

fn profile() -> ExecutionProfile {
    ExecutionProfile {
        mode: RuntimeMode::Balanced,
        cpu_threads: 8,
        gpu_offload: GpuOffload::MaximumFitting,
        gpu_placement: GpuPlacement::Exact { layers: 24 },
        context_size: 4096,
        parallel_slots: 2,
        batch_size: 256,
        ubatch_size: 128,
        kv_cache_type: "f16".into(),
        reasons: vec![PolicyReason::SelectedPolicy(RuntimeMode::Balanced)],
    }
}

#[test]
fn server_arguments_carry_the_profile() {
    let args = server_command_args("/models/test.gguf", "127.0.0.1", 8080, &profile());
    assert!(args.windows(2).any(|pair| pair == ["--model", "/models/test.gguf"]));
    assert!(args.windows(2).any(|pair| pair == ["--host", "127.0.0.1"]));
    assert!(args.windows(2).any(|pair| pair == ["--port", "8080"]));
    assert!(args.windows(2).any(|pair| pair == ["--threads", "8"]));
    assert!(args.windows(2).any(|pair| pair == ["--ctx-size", "4096"]));
    assert!(args.windows(2).any(|pair| pair == ["--batch-size", "256"]));
    assert!(args.windows(2).any(|pair| pair == ["--cache-type-k", "f16"]));
    assert!(args.windows(2).any(|pair| pair == ["--cache-type-v", "f16"]));
    assert!(args.windows(2).any(|pair| pair == ["--ubatch-size", "128"]));
    assert!(args.windows(2).any(|pair| pair == ["--parallel", "2"]));
    assert!(args.windows(2).any(|pair| pair == ["--n-gpu-layers", "24"]));
    assert_eq!(args.len(), 22);
}

#[test]
fn token_usage_defaults_to_zero() {
    let usage = TokenUsage::default();
    assert_eq!((usage.prompt_tokens, usage.completion_tokens, usage.total_tokens), (0, 0, 0));
}

#[test]
fn displays_optional_values() {
    assert_eq!(display_optional_path(None), "not found");
    assert_eq!(display_optional_path(Some(&"/bin/x".to_string())), "/bin/x");
    assert_eq!(display_variant(Some(LlamaCppVariant::Cuda)), "CUDA");
    assert_eq!(display_variant(Some(LlamaCppVariant::Vulkan)), "Vulkan");
    assert_eq!(display_variant(Some(LlamaCppVariant::Other)), "other");
    assert_eq!(display_variant(None), "not found");
    assert_eq!(display_optional_number(Some(4096)), "4096");
    assert_eq!(display_optional_number(Some(0)), "0");
    assert_eq!(display_optional_number(None), "unknown");
}

#[test]
fn cuda_work_needs_a_found_cuda_build() {
    let cuda = "/opt/llama.cpp/b100-cuda/llama-server".to_string();
    let vulkan = "/opt/llama.cpp/b100-vulkan/llama-server".to_string();
    assert_eq!(
        require_cuda_build(Some(cuda.clone()), Some(LlamaCppVariant::Cuda)),
        Ok(cuda)
    );
    assert_eq!(
        require_cuda_build(Some(vulkan.clone()), Some(LlamaCppVariant::Vulkan)),
        Err(CudaBuildError::NotCuda(vulkan))
    );
    assert_eq!(
        require_cuda_build(None, Some(LlamaCppVariant::Cuda)),
        Err(CudaBuildError::NotFound)
    );
    assert_eq!(require_cuda_build(None, None), Err(CudaBuildError::NotFound));
}

#[test]
fn builds_a_server_command_from_a_profile() {
    let profile = profile();

    let command = server_command(
        "/opt/llama-server",
        "/models/test.gguf",
        "127.0.0.1",
        8080,
        &profile,
    );
    let args = command.args;

    assert_eq!(command.program, "/opt/llama-server");
    assert!(args.windows(2).any(|pair| pair == ["--model", "/models/test.gguf"]));
    assert!(args.windows(2).any(|pair| pair == ["--threads", "8"]));
    assert!(args.windows(2).any(|pair| pair == ["--n-gpu-layers", "24"]));
    assert!(args.windows(2).any(|pair| pair == ["--parallel", "2"]));
}

#[test]
fn preserves_backend_auto_gpu_placement() {
    let mut profile = profile();
    profile.gpu_placement = GpuPlacement::Auto;

    let command = server_command(
        "/opt/llama-server",
        "/models/test.gguf",
        "127.0.0.1",
        8080,
        &profile,
    );
    let args = command.args;

    assert!(args.windows(2).any(|pair| pair == ["--n-gpu-layers", "auto"]));
}

#[test]
fn benchmark_arguments_carry_the_profile() {
    let mut profile = profile();
    let args = bench_command_args("/models/test.gguf", &profile, 512, 128, 3).unwrap();
    assert_eq!(
        args,
        [
            "--model", "/models/test.gguf", "--n-prompt", "512", "--n-gen", "128",
            "--batch-size", "256", "--ubatch-size", "128", "--threads", "8",
            "--cache-type-k", "f16", "--cache-type-v", "f16", "--n-gpu-layers", "24",
            "--repetitions", "3", "--output", "json",
        ]
    );
    profile.gpu_placement = GpuPlacement::Auto;
    let args = bench_command_args("/models/test.gguf", &profile, 512, 128, 3).unwrap();
    assert!(args.windows(2).any(|pair| pair == ["--n-gpu-layers", "-1"]));
    profile.gpu_placement = GpuPlacement::CpuOnly;
    let args = bench_command_args("/models/test.gguf", &profile, 512, 128, 3).unwrap();
    assert!(args.windows(2).any(|pair| pair == ["--n-gpu-layers", "0"]));
    assert_eq!(
        bench_command_args("/models/test.gguf", &profile, 512, 128, 0),
        Err(BenchmarkError::NoRepetitions)
    );
}
