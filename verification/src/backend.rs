//! llama.cpp backend decisions: which build a binary is, which binary to
//! use, and the arguments that start `llama-server` with a profile.
use vstd::prelude::*;
use crate::policy::{ExecutionProfile, GpuPlacement};
use crate::text::{
    ascii_lowercase, chars_of, contains, contains_chars, decimal, decimal_string, has_suffix,
    lowercase_chars, matches_at, parse_decimal, parse_unsigned,
};

verus! {

/// The GPU backend that a llama.cpp build targets.
#[derive(Debug, Clone, Copy, PartialEq, Eq, Structural)]
pub enum LlamaCppVariant {
    Cuda,
    Vulkan,
    Other,
}

/// The variant that a binary's path names: a path that mentions `cuda`
/// (in any ASCII case) is a CUDA build, else one that mentions `vulkan` is
/// a Vulkan build.
pub open spec fn spec_infer_variant(path: Seq<char>) -> LlamaCppVariant {
    let lower = ascii_lowercase(path);
    if contains(lower, "cuda"@) {
        LlamaCppVariant::Cuda
    } else if contains(lower, "vulkan"@) {
        LlamaCppVariant::Vulkan
    } else {
        LlamaCppVariant::Other
    }
}

/// The variant that the binary at `path` was built for.
pub fn infer_variant(path: &str) -> (r: LlamaCppVariant)
    ensures
        r == spec_infer_variant(path@),
{
    let lower = lowercase_chars(path);
    if contains_chars(&lower, &chars_of("cuda")) {
        LlamaCppVariant::Cuda
    } else if contains_chars(&lower, &chars_of("vulkan")) {
        LlamaCppVariant::Vulkan
    } else {
        LlamaCppVariant::Other
    }
}

/// Paths that differ only in the ASCII case of their letters name the same
/// build variant.
pub proof fn law_variant_ignores_ascii_case(a: Seq<char>, b: Seq<char>)
    requires
        ascii_lowercase(a) == ascii_lowercase(b),
    ensures
        spec_infer_variant(a) == spec_infer_variant(b),
{
}

/// Which llama.cpp executables were found.
#[derive(Debug)]
pub struct LlamaCppStatus {
    pub server_path: Option<String>,
    pub server_variant: Option<LlamaCppVariant>,
    pub bench_path: Option<String>,
    pub bench_variant: Option<LlamaCppVariant>,
    pub ready_for_serving: bool,
    pub ready_for_benchmarking: bool,
}

/// The variant of an optional binary.
pub open spec fn spec_optional_variant(path: Option<String>) -> Option<LlamaCppVariant> {
    match path {
        Some(p) => Some(spec_infer_variant(p@)),
        None => None,
    }
}

impl LlamaCppStatus {
    /// The status for the `llama-server` and `llama-bench` binaries that
    /// discovery found.
    pub fn discover(server_path: Option<String>, bench_path: Option<String>) -> (r: Self)
        ensures
            r.server_path == server_path,
            r.bench_path == bench_path,
            r.ready_for_serving == server_path is Some,
            r.ready_for_benchmarking == bench_path is Some,
            r.server_variant == spec_optional_variant(server_path),
            r.bench_variant == spec_optional_variant(bench_path),
    {
        let server_variant = match &server_path {
            Some(p) => Some(infer_variant(p.as_str())),
            None => None,
        };
        let bench_variant = match &bench_path {
            Some(p) => Some(infer_variant(p.as_str())),
            None => None,
        };
        LlamaCppStatus {
            ready_for_serving: server_path.is_some(),
            ready_for_benchmarking: bench_path.is_some(),
            server_variant,
            bench_variant,
            server_path,
            bench_path,
        }
    }
}

/// Why an executable cannot run work that needs a CUDA build.
#[derive(Debug, PartialEq, Eq)]
pub enum CudaBuildError {
    /// No executable was found.
    NotFound,
    /// The executable found at this path is not a CUDA build.
    NotCuda(String),
}

/// The executable for work that needs a CUDA build (inference and
/// benchmarks): the one that discovery found, provided it classed it as a
/// CUDA build.
pub fn require_cuda_build(path: Option<String>, variant: Option<LlamaCppVariant>) -> (r: Result<
    String,
    CudaBuildError,
>)
    ensures
        match path {
            None => r == Err::<String, CudaBuildError>(CudaBuildError::NotFound),
            Some(p) => if variant == Some(LlamaCppVariant::Cuda) {
                r == Ok::<String, CudaBuildError>(p)
            } else {
                r == Err::<String, CudaBuildError>(CudaBuildError::NotCuda(p))
            },
        },
{
    match path {
        None => Err(CudaBuildError::NotFound),
        Some(p) => match variant {
            Some(LlamaCppVariant::Cuda) => Ok(p),
            _ => Err(CudaBuildError::NotCuda(p)),
        },
    }
}

/// The build number of a local CUDA build directory named
/// `b<number>-cuda`, or zero for any other name (or none).
pub open spec fn spec_local_build_number(directory_name: Option<Seq<char>>) -> nat {
    match directory_name {
        None => 0,
        Some(n) => if n.len() >= 1 && n[0] == 'b' && has_suffix(n.drop_first(), "-cuda"@) {
            match parse_unsigned(n.subrange(1, n.len() - 5), u64::MAX as nat) {
                Some(v) => v,
                None => 0,
            }
        } else {
            0
        },
    }
}

/// The build number that the name of a binary's directory carries.
pub fn local_build_number(directory_name: Option<&str>) -> (r: u64)
    ensures
        r == spec_local_build_number(match directory_name {
            Some(n) => Some(n@),
            None => None,
        }),
{
    let name = match directory_name {
        Some(n) => n,
        None => return 0,
    };
    let cs = chars_of(name);
    let suffix = chars_of("-cuda");
    proof {
        reveal_strlit("-cuda");
    }
    if cs.len() < 1 || cs[0] != 'b' {
        return 0;
    }
    if cs.len() - 1 < 5 {
        proof {
            assert(!has_suffix(cs@.drop_first(), "-cuda"@));
        }
        return 0;
    }
    let at = cs.len() - 5;
    if !matches_at(&cs, at, &suffix) {
        proof {
            let rest = cs@.drop_first();
            assert(rest.subrange(rest.len() - 5, rest.len() as int) =~= cs@.subrange(at as int, at + 5));
        }
        return 0;
    }
    proof {
        let rest = cs@.drop_first();
        assert(rest.subrange(rest.len() - 5, rest.len() as int) =~= cs@.subrange(at as int, at + 5));
    }
    match parse_decimal(&cs, 1, at, u64::MAX) {
        Some(v) => v,
        None => 0,
    }
}

/// A local build directory that may hold a CUDA binary.
#[derive(Debug)]
pub struct CudaBuildCandidate {
    /// The name of the build directory.
    pub directory_name: String,
    /// The path of the binary inside it.
    pub executable_path: String,
    /// Whether that path is an existing regular file.
    pub executable_is_file: bool,
}

/// Whether a candidate is a CUDA build directory holding the binary.
pub open spec fn cuda_candidate_usable(c: CudaBuildCandidate) -> bool {
    has_suffix(ascii_lowercase(c.directory_name@), "-cuda"@) && c.executable_is_file
}

/// The build number by which candidates are ranked.
pub open spec fn cuda_candidate_rank(c: CudaBuildCandidate) -> nat {
    spec_local_build_number(Some(c.directory_name@))
}

/// Whether `i` is the usable candidate with the highest build number, the
/// last one among equals.
pub open spec fn is_best_cuda_candidate(cs: Seq<CudaBuildCandidate>, i: int) -> bool {
    &&& 0 <= i < cs.len()
    &&& cuda_candidate_usable(cs[i])
    &&& forall|j: int|
        0 <= j < cs.len() && cuda_candidate_usable(#[trigger] cs[j]) ==> cuda_candidate_rank(cs[j])
            <= cuda_candidate_rank(cs[i])
    &&& forall|j: int|
        i < j < cs.len() && cuda_candidate_usable(#[trigger] cs[j]) ==> cuda_candidate_rank(cs[j])
            < cuda_candidate_rank(cs[i])
}

/// Whether the name ends in `-cuda`, ignoring ASCII case.
fn ends_with_cuda(name: &str) -> (r: bool)
    ensures
        r == has_suffix(ascii_lowercase(name@), "-cuda"@),
{
    let lower = lowercase_chars(name);
    let suffix = chars_of("-cuda");
    if lower.len() < suffix.len() {
        return false;
    }
    let at = lower.len() - suffix.len();
    matches_at(&lower, at, &suffix)
}

/// The binary of the newest local CUDA build: among the candidates whose
/// directory name ends in `-cuda` and which hold the binary, the one with
/// the highest build number (the last one among equals).
pub fn select_local_cuda_binary(candidates: &Vec<CudaBuildCandidate>) -> (r: Option<String>)
    ensures
        match r {
            Some(p) => exists|i: int|
                is_best_cuda_candidate(candidates@, i) && #[trigger] candidates@[i].executable_path@ == p@,
            None => forall|j: int| 0 <= j < candidates@.len() ==> !cuda_candidate_usable(#[trigger] candidates@[j]),
        },
{
    let mut best: Option<usize> = None;
    let mut best_rank: u64 = 0;
    let mut i: usize = 0;
    while i < candidates.len()
        invariant
            0 <= i <= candidates@.len(),
            match best {
                Some(b) => {
                    &&& b < i
                    &&& cuda_candidate_usable(candidates@[b as int])
                    &&& best_rank == cuda_candidate_rank(candidates@[b as int])
                    &&& forall|j: int|
                        0 <= j < i && cuda_candidate_usable(#[trigger] candidates@[j])
                            ==> cuda_candidate_rank(candidates@[j]) <= best_rank
                    &&& forall|j: int|
                        b < j < i && cuda_candidate_usable(#[trigger] candidates@[j])
                            ==> cuda_candidate_rank(candidates@[j]) < best_rank
                },
                None => forall|j: int| 0 <= j < i ==> !cuda_candidate_usable(#[trigger] candidates@[j]),
            },
        decreases candidates@.len() - i,
    {
        let c = &candidates[i];
        if ends_with_cuda(c.directory_name.as_str()) && c.executable_is_file {
            let rank = local_build_number(Some(c.directory_name.as_str()));
            let better = match best {
                Some(_) => rank >= best_rank,
                None => true,
            };
            if better {
                best = Some(i);
                best_rank = rank;
            }
        }
        i = i + 1;
    }
    match best {
        Some(b) => {
            proof {
                assert(is_best_cuda_candidate(candidates@, b as int));
            }
            let path = candidates[b].executable_path.clone();
            assert(candidates@[b as int].executable_path@ == path@);
            Some(path)
        },
        None => None,
    }
}

/// A path that may name an executable.
#[derive(Debug)]
pub struct ExecutableCandidate {
    pub path: String,
    /// Whether the path is an existing regular file.
    pub is_file: bool,
}

/// The binary to use: an explicitly configured path when it is a file,
/// else the newest local CUDA build, else the first file on the search
/// path.
pub open spec fn spec_select_binary(
    configured: Option<ExecutableCandidate>,
    local_cuda: Option<String>,
    on_path: Seq<ExecutableCandidate>,
) -> Option<Seq<char>> {
    if configured is Some && configured->0.is_file {
        Some(configured->0.path@)
    } else if local_cuda is Some {
        Some(local_cuda->0@)
    } else if exists|i: int| 0 <= i < on_path.len() && (#[trigger] on_path[i]).is_file {
        let i = choose|i: int|
            0 <= i < on_path.len() && (#[trigger] on_path[i]).is_file && forall|j: int|
                0 <= j < i ==> !(#[trigger] on_path[j]).is_file;
        Some(on_path[i].path@)
    } else {
        None
    }
}

/// Whether `p` names a candidate that was found to be a file: the
/// configured path, a local build that holds the binary, or a search-path
/// entry.
pub open spec fn names_found_file(
    p: Seq<char>,
    configured: Option<ExecutableCandidate>,
    local_builds: Seq<CudaBuildCandidate>,
    on_path: Seq<ExecutableCandidate>,
) -> bool {
    ||| (configured is Some && configured->0.is_file && configured->0.path@ == p)
    ||| exists|i: int|
        0 <= i < local_builds.len() && (#[trigger] local_builds[i]).executable_is_file
            && local_builds[i].executable_path@ == p
    ||| exists|i: int| 0 <= i < on_path.len() && (#[trigger] on_path[i]).is_file && on_path[i].path@ == p
}

/// Discovery only ever reports a binary that was found to be a file: with
/// the local CUDA build chosen as [`select_local_cuda_binary`] chooses it,
/// whatever [`spec_select_binary`] picks is a candidate that is a file.
pub proof fn law_discovered_binary_is_a_file(
    configured: Option<ExecutableCandidate>,
    local_builds: Seq<CudaBuildCandidate>,
    local_cuda: Option<String>,
    on_path: Seq<ExecutableCandidate>,
)
    requires
        match local_cuda {
            Some(l) => exists|i: int|
                is_best_cuda_candidate(local_builds, i) && #[trigger] local_builds[i].executable_path@ == l@,
            None => forall|j: int|
                0 <= j < local_builds.len() ==> !cuda_candidate_usable(#[trigger] local_builds[j]),
        },
    ensures
        spec_select_binary(configured, local_cuda, on_path) matches Some(p) ==> names_found_file(
            p,
            configured,
            local_builds,
            on_path,
        ),
{
    if configured is Some && configured->0.is_file {
    } else if local_cuda is Some {
        let i = choose|i: int|
            is_best_cuda_candidate(local_builds, i) && #[trigger] local_builds[i].executable_path@
                == local_cuda->0@;
        assert(local_builds[i].executable_is_file);
    } else if exists|i: int| 0 <= i < on_path.len() && (#[trigger] on_path[i]).is_file {
        let k = choose|i: int| 0 <= i < on_path.len() && (#[trigger] on_path[i]).is_file;
        lemma_first_file_exists(on_path, k);
    }
}

/// A search path with a file on it has a first file.
proof fn lemma_first_file_exists(s: Seq<ExecutableCandidate>, k: int)
    requires
        0 <= k < s.len(),
        s[k].is_file,
    ensures
        exists|i: int|
            0 <= i < s.len() && (#[trigger] s[i]).is_file && forall|j: int|
                0 <= j < i ==> !(#[trigger] s[j]).is_file,
    decreases k,
{
    if exists|j: int| 0 <= j < k && (#[trigger] s[j]).is_file {
        let j = choose|j: int| 0 <= j < k && (#[trigger] s[j]).is_file;
        lemma_first_file_exists(s, j);
    } else {
        assert(forall|j: int| 0 <= j < k ==> !(#[trigger] s[j]).is_file);
    }
}

/// Chooses which binary to use (see [`spec_select_binary`]).
pub fn select_binary(
    configured: Option<ExecutableCandidate>,
    local_cuda: Option<String>,
    on_path: &Vec<ExecutableCandidate>,
) -> (r: Option<String>)
    ensures
        match r {
            Some(p) => spec_select_binary(configured, local_cuda, on_path@) == Some(p@),
            None => spec_select_binary(configured, local_cuda, on_path@) is None,
        },
{
    let ghost configured_view = configured;
    let ghost local_view = local_cuda;
    match &configured {
        Some(c) => if c.is_file {
            return Some(c.path.clone());
        },
        None => {},
    }
    match &local_cuda {
        Some(p) => return Some(p.clone()),
        None => {},
    }
    let mut i: usize = 0;
    while i < on_path.len()
        invariant
            0 <= i <= on_path@.len(),
            forall|j: int| 0 <= j < i ==> !(#[trigger] on_path@[j]).is_file,
            !(configured_view is Some && configured_view->0.is_file),
            local_view is None,
            configured_view == configured,
            local_view == local_cuda,
        decreases on_path@.len() - i,
    {
        if on_path[i].is_file {
            proof {
                let k = choose|k: int|
                    0 <= k < on_path@.len() && (#[trigger] on_path@[k]).is_file && forall|j: int|
                        0 <= j < k ==> !(#[trigger] on_path@[j]).is_file;
                if k < i {
                } else if k > i {
                    assert(!on_path@[i as int].is_file);
                }
                assert(k == i);
            }
            let path = on_path[i].path.clone();
            assert(on_path@[i as int].is_file);
            assert(spec_select_binary(configured_view, local_view, on_path@) == Some(path@));
            return Some(path);
        }
        i = i + 1;
    }
    assert(spec_select_binary(configured_view, local_view, on_path@) is None);
    None
}

/// Token counts that a chat completion reports.
#[derive(Debug, Clone, Copy, PartialEq, Eq, Structural)]
pub struct TokenUsage {
    pub prompt_tokens: u64,
    pub completion_tokens: u64,
    pub total_tokens: u64,
}

impl Default for TokenUsage {
    fn default() -> (r: Self)
        ensures
            r.prompt_tokens == 0,
            r.completion_tokens == 0,
            r.total_tokens == 0,
    {
        TokenUsage { prompt_tokens: 0, completion_tokens: 0, total_tokens: 0 }
    }
}

/// The `--n-gpu-layers` value that `llama-server` takes for a placement.
pub open spec fn spec_server_gpu_layers(placement: GpuPlacement) -> Seq<char> {
    match placement {
        GpuPlacement::CpuOnly => "0"@,
        GpuPlacement::Exact { layers } => decimal(layers as nat),
        GpuPlacement::Auto => "auto"@,
    }
}

/// The `--n-gpu-layers` value for `llama-server`.
pub fn server_gpu_layers(placement: GpuPlacement) -> (r: String)
    ensures
        r@ == spec_server_gpu_layers(placement),
{
    match placement {
        GpuPlacement::CpuOnly => "0".to_owned(),
        GpuPlacement::Exact { layers } => decimal_string(layers as u64),
        GpuPlacement::Auto => "auto".to_owned(),
    }
}

/// The `--n-gpu-layers` value that `llama-bench` takes for a placement:
/// `-1` stands for automatic placement there.
pub open spec fn spec_bench_gpu_layers(placement: GpuPlacement) -> Seq<char> {
    match placement {
        GpuPlacement::CpuOnly => "0"@,
        GpuPlacement::Exact { layers } => decimal(layers as nat),
        GpuPlacement::Auto => "-1"@,
    }
}

/// The `--n-gpu-layers` value for `llama-bench`.
pub fn bench_gpu_layers(placement: GpuPlacement) -> (r: String)
    ensures
        r@ == spec_bench_gpu_layers(placement),
{
    match placement {
        GpuPlacement::CpuOnly => "0".to_owned(),
        GpuPlacement::Exact { layers } => decimal_string(layers as u64),
        GpuPlacement::Auto => "-1".to_owned(),
    }
}

/// The arguments that start `llama-server` on `model_path`, listening on
/// `host:port`, with the threads, context, batch and micro-batch sizes,
/// parallel slots, KV-cache type and GPU layers of the profile.
pub open spec fn spec_server_args(
    model_path: Seq<char>,
    host: Seq<char>,
    port: u16,
    profile: crate::policy::ExecutionProfileView,
) -> Seq<Seq<char>> {
    seq![
        "--model"@, model_path,
        "--host"@, host,
        "--port"@, decimal(port as nat),
        "--threads"@, decimal(profile.cpu_threads as nat),
        "--ctx-size"@, decimal(profile.context_size as nat),
        "--batch-size"@, decimal(profile.batch_size as nat),
        "--ubatch-size"@, decimal(profile.ubatch_size as nat),
        "--parallel"@, decimal(profile.parallel_slots as nat),
        "--cache-type-k"@, profile.kv_cache_type,
        "--cache-type-v"@, profile.kv_cache_type,
        "--n-gpu-layers"@, spec_server_gpu_layers(profile.gpu_placement),
    ]
}

/// The views of a list of strings.
pub open spec fn strings_view(v: Seq<String>) -> Seq<Seq<char>> {
    v.map_values(|s: String| s@)
}

/// Builds the `llama-server` arguments for a profile.
pub fn server_command_args(model_path: &str, host: &str, port: u16, profile: &ExecutionProfile) -> (r: Vec<String>)
    ensures
        strings_view(r@) == spec_server_args(model_path@, host@, port, profile@),
{
    let mut args: Vec<String> = Vec::new();
    args.push("--model".to_owned());
    args.push(model_path.to_owned());
    args.push("--host".to_owned());
    args.push(host.to_owned());
    args.push("--port".to_owned());
    args.push(decimal_string(port as u64));
    args.push("--threads".to_owned());
    args.push(decimal_string(profile.cpu_threads as u64));
    args.push("--ctx-size".to_owned());
    args.push(decimal_string(profile.context_size as u64));
    args.push("--batch-size".to_owned());
    args.push(decimal_string(profile.batch_size as u64));
    args.push("--ubatch-size".to_owned());
    args.push(decimal_string(profile.ubatch_size as u64));
    args.push("--parallel".to_owned());
    args.push(decimal_string(profile.parallel_slots as u64));
    args.push("--cache-type-k".to_owned());
    args.push(profile.kv_cache_type.clone());
    args.push("--cache-type-v".to_owned());
    args.push(profile.kv_cache_type.clone());
    args.push("--n-gpu-layers".to_owned());
    args.push(server_gpu_layers(profile.gpu_placement));
    assert(strings_view(args@) =~= spec_server_args(model_path@, host@, port, profile@));
    args
}

/// A program to run and the arguments to run it with.
#[derive(Debug)]
pub struct ServerCommand {
    pub program: String,
    pub args: Vec<String>,
}

/// The `llama-server` command for a profile: the server binary, run with
/// the arguments of [`spec_server_args`].
pub fn server_command(
    server_path: &str,
    model_path: &str,
    host: &str,
    port: u16,
    profile: &ExecutionProfile,
) -> (r: ServerCommand)
    ensures
        r.program@ == server_path@,
        strings_view(r.args@) == spec_server_args(model_path@, host@, port, profile@),
{
    ServerCommand {
        program: server_path.to_owned(),
        args: server_command_args(model_path, host, port, profile),
    }
}


/// The lower-case name of a variant, as benchmark and inference records
/// name their backend.
pub open spec fn spec_variant_label(variant: LlamaCppVariant) -> Seq<char> {
    match variant {
        LlamaCppVariant::Cuda => "cuda"@,
        LlamaCppVariant::Vulkan => "vulkan"@,
        LlamaCppVariant::Other => "other"@,
    }
}

/// Names a variant in lower case.
pub fn variant_label(variant: LlamaCppVariant) -> (r: &'static str)
    ensures
        r@ == spec_variant_label(variant),
{
    match variant {
        LlamaCppVariant::Cuda => "cuda",
        LlamaCppVariant::Vulkan => "vulkan",
        LlamaCppVariant::Other => "other",
    }
}

/// What a `llama-bench` measurement measured.
#[derive(Debug, Clone, Copy, PartialEq, Eq, Structural)]
pub enum MeasurementRole {
    /// Prompt processing: prompt tokens and no generated ones.
    PromptProcessing,
    /// Token generation: generated tokens and no prompt.
    TokenGeneration,
}

/// Whether a measurement of `n_prompt` prompt and `n_gen` generated tokens
/// plays the role.
pub open spec fn plays_role(counts: (u32, u32), role: MeasurementRole) -> bool {
    match role {
        MeasurementRole::PromptProcessing => counts.0 > 0 && counts.1 == 0,
        MeasurementRole::TokenGeneration => counts.1 > 0 && counts.0 == 0,
    }
}

/// The first measurement, given as (prompt tokens, generated tokens), that
/// plays the role.
pub fn find_measurement(counts: &Vec<(u32, u32)>, role: MeasurementRole) -> (r: Option<usize>)
    ensures
        role == MeasurementRole::PromptProcessing ==> (r matches Some(i) ==> counts@[i as int].0 > 0
            && counts@[i as int].1 == 0),
        role == MeasurementRole::TokenGeneration ==> (r matches Some(i) ==> counts@[i as int].1 > 0
            && counts@[i as int].0 == 0),
        match r {
            Some(i) => i < counts@.len() && plays_role(counts@[i as int], role) && forall|j: int|
                0 <= j < i ==> !plays_role(#[trigger] counts@[j], role),
            None => forall|j: int| 0 <= j < counts@.len() ==> !plays_role(#[trigger] counts@[j], role),
        },
{
    let mut i: usize = 0;
    while i < counts.len()
        invariant
            0 <= i <= counts@.len(),
            forall|j: int| 0 <= j < i ==> !plays_role(#[trigger] counts@[j], role),
        decreases counts@.len() - i,
    {
        let (n_prompt, n_gen) = counts[i];
        let hit = match role {
            MeasurementRole::PromptProcessing => n_prompt > 0 && n_gen == 0,
            MeasurementRole::TokenGeneration => n_gen > 0 && n_prompt == 0,
        };
        if hit {
            return Some(i);
        }
        i = i + 1;
    }
    None
}

/// A prompt-processing row has prompt tokens and generates none; a
/// token-generation row generates tokens from no prompt. So no row plays
/// both roles, and in the result of `-p P -n G` (a `ppP` row `(P, 0)`, then
/// a `tgG` row `(0, G)`) the first is the prompt rate and the second the
/// generation rate.
pub proof fn law_measurement_roles(counts: (u32, u32), p: u32, g: u32)
    ensures
        plays_role(counts, MeasurementRole::PromptProcessing) <==> (counts.0 > 0 && counts.1 == 0),
        plays_role(counts, MeasurementRole::TokenGeneration) <==> (counts.1 > 0 && counts.0 == 0),
        !(plays_role(counts, MeasurementRole::PromptProcessing) && plays_role(
            counts,
            MeasurementRole::TokenGeneration,
        )),
        p > 0 ==> plays_role((p, 0u32), MeasurementRole::PromptProcessing) && !plays_role(
            (p, 0u32),
            MeasurementRole::TokenGeneration,
        ),
        g > 0 ==> plays_role((0u32, g), MeasurementRole::TokenGeneration) && !plays_role(
            (0u32, g),
            MeasurementRole::PromptProcessing,
        ),
{
}

/// Why a benchmark cannot be started.
#[derive(Debug, Clone, Copy, PartialEq, Eq, Structural)]
pub enum BenchmarkError {
    /// A benchmark needs at least one repetition.
    NoRepetitions,
}

/// The arguments that run `llama-bench` on `model_path` with the batch and
/// micro-batch sizes, threads, KV-cache type and GPU layers of the profile,
/// reporting JSON.
pub open spec fn spec_bench_args(
    model_path: Seq<char>,
    profile: crate::policy::ExecutionProfileView,
    prompt_tokens: u32,
    output_tokens: u32,
    repetitions: u32,
) -> Seq<Seq<char>> {
    seq![
        "--model"@, model_path,
        "--n-prompt"@, decimal(prompt_tokens as nat),
        "--n-gen"@, decimal(output_tokens as nat),
        "--batch-size"@, decimal(profile.batch_size as nat),
        "--ubatch-size"@, decimal(profile.ubatch_size as nat),
        "--threads"@, decimal(profile.cpu_threads as nat),
        "--cache-type-k"@, profile.kv_cache_type,
        "--cache-type-v"@, profile.kv_cache_type,
        "--n-gpu-layers"@, spec_bench_gpu_layers(profile.gpu_placement),
        "--repetitions"@, decimal(repetitions as nat),
        "--output"@, "json"@,
    ]
}

/// Builds the `llama-bench` arguments; zero repetitions are refused.
pub fn bench_command_args(
    model_path: &str,
    profile: &ExecutionProfile,
    prompt_tokens: u32,
    output_tokens: u32,
    repetitions: u32,
) -> (r: Result<Vec<String>, BenchmarkError>)
    ensures
        repetitions == 0 ==> r == Err::<Vec<String>, BenchmarkError>(BenchmarkError::NoRepetitions),
        repetitions > 0 ==> (r matches Ok(args) && strings_view(args@) == spec_bench_args(
            model_path@,
            profile@,
            prompt_tokens,
            output_tokens,
            repetitions,
        )),
{
    if repetitions == 0 {
        return Err(BenchmarkError::NoRepetitions);
    }
    let mut args: Vec<String> = Vec::new();
    args.push("--model".to_owned());
    args.push(model_path.to_owned());
    args.push("--n-prompt".to_owned());
    args.push(decimal_string(prompt_tokens as u64));
    args.push("--n-gen".to_owned());
    args.push(decimal_string(output_tokens as u64));
    args.push("--batch-size".to_owned());
    args.push(decimal_string(profile.batch_size as u64));
    args.push("--ubatch-size".to_owned());
    args.push(decimal_string(profile.ubatch_size as u64));
    args.push("--threads".to_owned());
    args.push(decimal_string(profile.cpu_threads as u64));
    args.push("--cache-type-k".to_owned());
    args.push(profile.kv_cache_type.clone());
    args.push("--cache-type-v".to_owned());
    args.push(profile.kv_cache_type.clone());
    args.push("--n-gpu-layers".to_owned());
    args.push(bench_gpu_layers(profile.gpu_placement));
    args.push("--repetitions".to_owned());
    args.push(decimal_string(repetitions as u64));
    args.push("--output".to_owned());
    args.push("json".to_owned());
    assert(strings_view(args@) =~= spec_bench_args(
        model_path@,
        profile@,
        prompt_tokens,
        output_tokens,
        repetitions,
    ));
    Ok(args)
}

} // verus!
