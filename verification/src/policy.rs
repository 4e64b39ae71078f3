//! Explainable execution-profile policy: the requested runtime mode, the
//! power source and the thermal and memory guards decide thread count, GPU
//! offload, context size, batch size and KV-cache type.
use vstd::prelude::*;

verus! {

/// The operating mode a user asks for.
#[derive(Debug, Clone, Copy, PartialEq, Eq, Structural)]
pub enum RuntimeMode {
    Performance,
    Balanced,
    Battery,
    Background,
}

/// How much of the model is offloaded to a GPU.
#[derive(Debug, Clone, Copy, PartialEq, Eq, Structural)]
pub enum GpuOffload {
    Disabled,
    Conservative,
    MaximumFitting,
}

/// How many model layers llama.cpp is told to place on the GPU.
#[derive(Debug, Clone, Copy, PartialEq, Eq, Structural)]
pub enum GpuPlacement {
    /// No layer on the GPU.
    CpuOnly,
    /// Exactly this many layers on the GPU.
    Exact { layers: u32 },
    /// As many layers as llama.cpp fits.
    Auto,
}

/// The placement that carries an offload decision to llama.cpp: no offload
/// keeps every layer on the CPU; otherwise llama.cpp fits the layers itself,
/// since the policy does not know the model's layer sizes.
pub open spec fn placement_for(offload: GpuOffload) -> GpuPlacement {
    match offload {
        GpuOffload::Disabled => GpuPlacement::CpuOnly,
        _ => GpuPlacement::Auto,
    }
}

/// The placement for an offload decision (see [`placement_for`]).
pub fn gpu_placement_for(offload: GpuOffload) -> (r: GpuPlacement)
    ensures
        r == placement_for(offload),
{
    match offload {
        GpuOffload::Disabled => GpuPlacement::CpuOnly,
        _ => GpuPlacement::Auto,
    }
}

/// The number of requests a recommended profile serves at once.
pub const PARALLEL_SLOTS: u32 = 1;

/// Why a profile looks the way it does.
#[derive(Debug, Clone, Copy, PartialEq, Eq, Structural)]
pub enum PolicyReason {
    /// The policy of this mode was applied.
    SelectedPolicy(RuntimeMode),
    /// Running on battery replaced the requested mode.
    BatteryOverride,
    /// No accelerator was discovered.
    NoGpu,
    /// The hottest sensor reached the thermal limit.
    ThermalGuard,
    /// Memory pressure or little available memory applied the memory guard.
    MemoryGuard,
}

/// What the policy reads of the host. The two guards are decided from
/// floating-point readings outside the library: `thermally_hot` is that
/// the hottest finite temperature is at least 85 C, `memory_tight` that
/// memory pressure is at least 80% or less than 3 GiB is available.
#[derive(Debug, Clone, Copy)]
pub struct HostConditions {
    pub logical_cores: usize,
    pub has_gpu: bool,
    pub on_ac: Option<bool>,
    pub thermally_hot: bool,
    pub memory_tight: bool,
}

/// A recommended llama.cpp execution profile.
#[derive(Debug)]
pub struct ExecutionProfile {
    pub mode: RuntimeMode,
    pub cpu_threads: usize,
    pub gpu_offload: GpuOffload,
    pub gpu_placement: GpuPlacement,
    pub context_size: u32,
    pub parallel_slots: u32,
    pub batch_size: u32,
    pub ubatch_size: u32,
    pub kv_cache_type: String,
    pub reasons: Vec<PolicyReason>,
}

/// The mathematical form of [`ExecutionProfile`].
pub struct ExecutionProfileView {
    pub mode: RuntimeMode,
    pub cpu_threads: usize,
    pub gpu_offload: GpuOffload,
    pub gpu_placement: GpuPlacement,
    pub context_size: u32,
    pub parallel_slots: u32,
    pub batch_size: u32,
    pub ubatch_size: u32,
    pub kv_cache_type: Seq<char>,
    pub reasons: Seq<PolicyReason>,
}

impl View for ExecutionProfile {
    type V = ExecutionProfileView;

    open spec fn view(&self) -> ExecutionProfileView {
        ExecutionProfileView {
            mode: self.mode,
            cpu_threads: self.cpu_threads,
            gpu_offload: self.gpu_offload,
            gpu_placement: self.gpu_placement,
            context_size: self.context_size,
            parallel_slots: self.parallel_slots,
            batch_size: self.batch_size,
            ubatch_size: self.ubatch_size,
            kv_cache_type: self.kv_cache_type@,
            reasons: self.reasons@,
        }
    }
}

/// The mode that applies: on battery, `Performance` and `Balanced` become
/// `Battery`.
pub open spec fn spec_effective_mode(on_ac: Option<bool>, requested: RuntimeMode) -> RuntimeMode {
    if on_ac == Some(false) && (requested == RuntimeMode::Performance || requested
        == RuntimeMode::Balanced) {
        RuntimeMode::Battery
    } else {
        requested
    }
}

/// The larger of `a` and one.
pub open spec fn at_least_one(a: int) -> int {
    if a < 1 {
        1
    } else {
        a
    }
}

/// The smaller of two numbers.
pub open spec fn min_int(a: int, b: int) -> int {
    if a <= b {
        a
    } else {
        b
    }
}

/// Threads, offload, context and batch of a mode before any guard.
pub open spec fn base_settings(mode: RuntimeMode, cores: int, has_gpu: bool) -> (int, GpuOffload, int, int) {
    match mode {
        RuntimeMode::Performance => (
            cores,
            if has_gpu { GpuOffload::MaximumFitting } else { GpuOffload::Disabled },
            8192,
            512,
        ),
        RuntimeMode::Balanced => (
            at_least_one(cores * 3 / 4),
            if has_gpu { GpuOffload::MaximumFitting } else { GpuOffload::Disabled },
            4096,
            256,
        ),
        RuntimeMode::Battery => (
            at_least_one(cores / 2),
            if has_gpu { GpuOffload::Conservative } else { GpuOffload::Disabled },
            4096,
            128,
        ),
        RuntimeMode::Background => (at_least_one(cores / 4), GpuOffload::Disabled, 2048, 64),
    }
}

/// The reasons given for a profile, in order.
pub open spec fn spec_reasons(h: HostConditions, requested: RuntimeMode) -> Seq<PolicyReason> {
    let mode = spec_effective_mode(h.on_ac, requested);
    seq![PolicyReason::SelectedPolicy(mode)]
        + (if requested != mode { seq![PolicyReason::BatteryOverride] } else { seq![] })
        + (if !h.has_gpu { seq![PolicyReason::NoGpu] } else { seq![] })
        + (if h.thermally_hot { seq![PolicyReason::ThermalGuard] } else { seq![] })
        + (if h.memory_tight { seq![PolicyReason::MemoryGuard] } else { seq![] })
}

/// The profile recommended for host `h` when `requested` is asked for. The
/// GPU placement follows the offload decision, one request is served at a
/// time, and each batch is processed as one micro-batch.
pub open spec fn spec_recommend(h: HostConditions, requested: RuntimeMode) -> ExecutionProfileView {
    let mode = spec_effective_mode(h.on_ac, requested);
    let cores = at_least_one(h.logical_cores as int);
    let base = base_settings(mode, cores, h.has_gpu);
    let threads = if h.thermally_hot { min_int(base.0, at_least_one(cores / 2)) } else { base.0 };
    let offload = if h.thermally_hot {
        if h.has_gpu { GpuOffload::Conservative } else { GpuOffload::Disabled }
    } else {
        base.1
    };
    let context = if h.memory_tight { min_int(base.2, 2048) } else { base.2 };
    let batch = if h.thermally_hot || h.memory_tight { min_int(base.3, 128) } else { base.3 };
    ExecutionProfileView {
        mode,
        cpu_threads: threads as usize,
        gpu_offload: offload,
        gpu_placement: placement_for(offload),
        context_size: context as u32,
        parallel_slots: PARALLEL_SLOTS,
        batch_size: batch as u32,
        ubatch_size: batch as u32,
        kv_cache_type: if h.memory_tight { "q8_0"@ } else { "f16"@ },
        reasons: spec_reasons(h, requested),
    }
}

/// Whether `recommend` can compute the thread count without overflow: the
/// balanced policy multiplies the core count by three.
pub open spec fn recommend_in_range(h: HostConditions, requested: RuntimeMode) -> bool {
    spec_effective_mode(h.on_ac, requested) == RuntimeMode::Balanced ==> h.logical_cores * 3
        <= usize::MAX
}

/// Whether `recommend` accepts host `h` and the requested mode (see
/// [`recommend_in_range`]).
pub fn can_recommend(h: &HostConditions, requested: RuntimeMode) -> (r: bool)
    ensures
        r == recommend_in_range(*h, requested),
{
    let mode = effective_mode(h, requested);
    match mode {
        RuntimeMode::Balanced => h.logical_cores <= usize::MAX / 3,
        _ => true,
    }
}

/// The mode that applies on host `h` when `requested` is asked for.
pub fn effective_mode(h: &HostConditions, requested: RuntimeMode) -> (r: RuntimeMode)
    ensures
        r == spec_effective_mode(h.on_ac, requested),
{
    match (h.on_ac, requested) {
        (Some(false), RuntimeMode::Performance) => RuntimeMode::Battery,
        (Some(false), RuntimeMode::Balanced) => RuntimeMode::Battery,
        _ => requested,
    }
}

/// Recommends an execution profile for host `h` and the requested mode.
pub fn recommend(h: &HostConditions, requested_mode: RuntimeMode) -> (r: ExecutionProfile)
    requires
        recommend_in_range(*h, requested_mode),
    ensures
        r@ == spec_recommend(*h, requested_mode),
{
    let mode = effective_mode(h, requested_mode);
    let logical_cores: usize = if h.logical_cores < 1 {
        1
    } else {
        h.logical_cores
    };
    let has_gpu = h.has_gpu;
    let (mut cpu_threads, mut gpu_offload, mut context_size, mut batch_size): (
        usize,
        GpuOffload,
        u32,
        u32,
    ) = match mode {
        RuntimeMode::Performance => (
            logical_cores,
            if has_gpu {
                GpuOffload::MaximumFitting
            } else {
                GpuOffload::Disabled
            },
            8192,
            512,
        ),
        RuntimeMode::Balanced => {
            let quarter_three = logical_cores * 3 / 4;
            (
                if quarter_three < 1 {
                    1
                } else {
                    quarter_three
                },
                if has_gpu {
                    GpuOffload::MaximumFitting
                } else {
                    GpuOffload::Disabled
                },
                4096,
                256,
            )
        },
        RuntimeMode::Battery => (
            if logical_cores / 2 < 1 {
                1
            } else {
                logical_cores / 2
            },
            if has_gpu {
                GpuOffload::Conservative
            } else {
                GpuOffload::Disabled
            },
            4096,
            128,
        ),
        RuntimeMode::Background => (
            if logical_cores / 4 < 1 {
                1
            } else {
                logical_cores / 4
            },
            GpuOffload::Disabled,
            2048,
            64,
        ),
    };
    let mut reasons: Vec<PolicyReason> = Vec::new();
    reasons.push(PolicyReason::SelectedPolicy(mode));
    if requested_mode != mode {
        reasons.push(PolicyReason::BatteryOverride);
    }
    if !has_gpu {
        reasons.push(PolicyReason::NoGpu);
    }
    if h.thermally_hot {
        let half: usize = if logical_cores / 2 < 1 {
            1
        } else {
            logical_cores / 2
        };
        if half < cpu_threads {
            cpu_threads = half;
        }
        gpu_offload = if has_gpu {
            GpuOffload::Conservative
        } else {
            GpuOffload::Disabled
        };
        if batch_size > 128 {
            batch_size = 128;
        }
        reasons.push(PolicyReason::ThermalGuard);
    }
    if h.memory_tight {
        if context_size > 2048 {
            context_size = 2048;
        }
        if batch_size > 128 {
            batch_size = 128;
        }
        reasons.push(PolicyReason::MemoryGuard);
    }
    let kv_cache_type = if h.memory_tight {
        "q8_0".to_owned()
    } else {
        "f16".to_owned()
    };
    let gpu_placement = gpu_placement_for(gpu_offload);
    let profile = ExecutionProfile {
        mode,
        cpu_threads,
        gpu_offload,
        gpu_placement,
        context_size,
        parallel_slots: PARALLEL_SLOTS,
        batch_size,
        ubatch_size: batch_size,
        kv_cache_type,
        reasons,
    };
    assert(profile.reasons@ =~= spec_reasons(*h, requested_mode));
    profile
}


/// On battery power, a request for `Performance` or `Balanced` is served by
/// the `Battery` policy, and the profile says that the battery state
/// overrode the request.
pub proof fn law_battery_overrides_mode(h: HostConditions, requested: RuntimeMode)
    requires
        h.on_ac == Some(false),
        requested == RuntimeMode::Performance || requested == RuntimeMode::Balanced,
    ensures
        spec_recommend(h, requested).mode == RuntimeMode::Battery,
        spec_recommend(h, requested).reasons.contains(PolicyReason::BatteryOverride),
{
    let r = spec_recommend(h, requested).reasons;
    assert(r[1] == PolicyReason::BatteryOverride);
}

/// Off battery (or with an unknown power source) the requested mode is the
/// one applied, and no override is reported.
pub proof fn law_requested_mode_kept(h: HostConditions, requested: RuntimeMode)
    requires
        h.on_ac != Some(false) || requested == RuntimeMode::Battery || requested == RuntimeMode::Background,
    ensures
        spec_recommend(h, requested).mode == requested,
        !spec_recommend(h, requested).reasons.contains(PolicyReason::BatteryOverride),
{
    let r = spec_recommend(h, requested).reasons;
    if r.contains(PolicyReason::BatteryOverride) {
        let i = choose|i: int| 0 <= i < r.len() && r[i] == PolicyReason::BatteryOverride;
        assert(r[i] == PolicyReason::BatteryOverride);
    }
}

/// The profile always uses at least one thread and never more threads than
/// the host has logical cores (counting an unknown core count as one).
pub proof fn law_threads_within_cores(h: HostConditions, requested: RuntimeMode)
    ensures
        1 <= spec_recommend(h, requested).cpu_threads <= at_least_one(h.logical_cores as int),
{
}

/// Without a GPU nothing is offloaded, every layer stays on the CPU, and
/// the profile says so.
pub proof fn law_no_gpu_no_offload(h: HostConditions, requested: RuntimeMode)
    requires
        !h.has_gpu,
    ensures
        spec_recommend(h, requested).gpu_offload == GpuOffload::Disabled,
        spec_recommend(h, requested).gpu_placement == GpuPlacement::CpuOnly,
        spec_recommend(h, requested).reasons.contains(PolicyReason::NoGpu),
{
    let mode = spec_effective_mode(h.on_ac, requested);
    let r = spec_recommend(h, requested).reasons;
    if requested != mode {
        assert(r[2] == PolicyReason::NoGpu);
    } else {
        assert(r[1] == PolicyReason::NoGpu);
    }
}

/// The GPU placement carries the offload decision: layers reach the GPU
/// exactly when something is offloaded.
pub proof fn law_placement_follows_offload(h: HostConditions, requested: RuntimeMode)
    ensures
        (spec_recommend(h, requested).gpu_placement == GpuPlacement::CpuOnly)
            <==> (spec_recommend(h, requested).gpu_offload == GpuOffload::Disabled),
{
}

/// With neither guard on, each mode has its own table row, with `c` the
/// logical cores (at least one) and every thread count at least one:
///
/// | mode       | threads  | context | batch | offload with a GPU |
/// |------------|----------|---------|-------|--------------------|
/// | Performance| c        | 8192    | 512   | maximum that fits  |
/// | Balanced   | 3c/4     | 4096    | 256   | maximum that fits  |
/// | Battery    | c/2      | 4096    | 128   | conservative       |
/// | Background | c/4      | 2048    | 64    | none               |
///
/// The micro-batch equals the batch, one request is served at a time, and
/// the KV cache stays `f16`.
pub proof fn law_mode_baselines(h: HostConditions, requested: RuntimeMode)
    requires
        !h.thermally_hot,
        !h.memory_tight,
    ensures
        ({
            let p = spec_recommend(h, requested);
            let c: int = if h.logical_cores < 1 { 1 } else { h.logical_cores as int };
            &&& p.mode == RuntimeMode::Performance ==> {
                &&& p.cpu_threads == c
                &&& p.context_size == 8192
                &&& p.batch_size == 512
                &&& p.gpu_offload == (if h.has_gpu { GpuOffload::MaximumFitting } else { GpuOffload::Disabled })
            }
            &&& p.mode == RuntimeMode::Balanced ==> {
                &&& p.cpu_threads == (if c * 3 / 4 < 1 { 1 } else { c * 3 / 4 })
                &&& p.context_size == 4096
                &&& p.batch_size == 256
                &&& p.gpu_offload == (if h.has_gpu { GpuOffload::MaximumFitting } else { GpuOffload::Disabled })
            }
            &&& p.mode == RuntimeMode::Battery ==> {
                &&& p.cpu_threads == (if c / 2 < 1 { 1 } else { c / 2 })
                &&& p.context_size == 4096
                &&& p.batch_size == 128
                &&& p.gpu_offload == (if h.has_gpu { GpuOffload::Conservative } else { GpuOffload::Disabled })
            }
            &&& p.mode == RuntimeMode::Background ==> {
                &&& p.cpu_threads == (if c / 4 < 1 { 1 } else { c / 4 })
                &&& p.context_size == 2048
                &&& p.batch_size == 64
                &&& p.gpu_offload == GpuOffload::Disabled
            }
            &&& p.ubatch_size == p.batch_size
            &&& p.parallel_slots == 1
            &&& p.kv_cache_type == "f16"@
        }),
{
}

/// What the guards do, exactly, with `c` the logical cores (at least one)
/// and the mode's table row as in [`law_mode_baselines`]: heat caps the
/// threads at half the cores (at least one), caps the batch at 128 and
/// turns offload down to conservative (none without a GPU); tight memory
/// caps the context at 2048 and the batch at 128 and quantizes the KV cache
/// to `q8_0`. The reasons list the applied policy, then the battery
/// override, the missing GPU, the thermal guard and the memory guard, each
/// exactly when it applies.
pub proof fn law_guard_effects(h: HostConditions, requested: RuntimeMode)
    ensures
        ({
            let p = spec_recommend(h, requested);
            let c: int = if h.logical_cores < 1 { 1 } else { h.logical_cores as int };
            let half: int = if c / 2 < 1 { 1 } else { c / 2 };
            let unguarded = spec_recommend(
                HostConditions { thermally_hot: false, memory_tight: false, ..h },
                requested,
            );
            &&& p.mode == unguarded.mode
            &&& p.cpu_threads == (if h.thermally_hot && unguarded.cpu_threads > half {
                half
            } else {
                unguarded.cpu_threads as int
            })
            &&& p.batch_size == (if (h.thermally_hot || h.memory_tight) && unguarded.batch_size > 128 {
                128
            } else {
                unguarded.batch_size as int
            })
            &&& p.context_size == (if h.memory_tight && unguarded.context_size > 2048 {
                2048
            } else {
                unguarded.context_size as int
            })
            &&& p.gpu_offload == (if h.thermally_hot {
                if h.has_gpu { GpuOffload::Conservative } else { GpuOffload::Disabled }
            } else {
                unguarded.gpu_offload
            })
            &&& p.kv_cache_type == (if h.memory_tight { "q8_0"@ } else { "f16"@ })
            &&& p.ubatch_size == p.batch_size
            &&& p.parallel_slots == 1
            &&& p.reasons == seq![PolicyReason::SelectedPolicy(p.mode)]
                + (if p.mode != requested { seq![PolicyReason::BatteryOverride] } else { seq![] })
                + (if !h.has_gpu { seq![PolicyReason::NoGpu] } else { seq![] })
                + (if h.thermally_hot { seq![PolicyReason::ThermalGuard] } else { seq![] })
                + (if h.memory_tight { seq![PolicyReason::MemoryGuard] } else { seq![] })
        }),
{
}

/// The batch shrinks from mode to mode as the policy saves more power:
/// with the same host and no guard, Performance batches more than
/// Balanced, Balanced more than Battery, Battery more than Background.
pub proof fn law_batch_order(h: HostConditions)
    requires
        !h.thermally_hot,
        !h.memory_tight,
        h.on_ac != Some(false),
    ensures
        spec_recommend(h, RuntimeMode::Performance).batch_size > spec_recommend(h, RuntimeMode::Balanced).batch_size,
        spec_recommend(h, RuntimeMode::Balanced).batch_size > spec_recommend(h, RuntimeMode::Battery).batch_size,
        spec_recommend(h, RuntimeMode::Battery).batch_size > spec_recommend(h, RuntimeMode::Background).batch_size,
{
}

/// The memory guard caps the context at 2048 tokens and the batch at 128,
/// and quantizes the KV cache to `q8_0`; otherwise the cache stays `f16`.
pub proof fn law_memory_guard(h: HostConditions, requested: RuntimeMode)
    ensures
        h.memory_tight ==> spec_recommend(h, requested).context_size <= 2048,
        h.memory_tight ==> spec_recommend(h, requested).batch_size <= 128,
        h.memory_tight ==> spec_recommend(h, requested).kv_cache_type == "q8_0"@,
        !h.memory_tight ==> spec_recommend(h, requested).kv_cache_type == "f16"@,
{
}

/// The thermal guard halves the threads (at most), caps the batch at 128
/// and never offloads the maximum to the GPU.
pub proof fn law_thermal_guard(h: HostConditions, requested: RuntimeMode)
    requires
        h.thermally_hot,
    ensures
        spec_recommend(h, requested).cpu_threads <= at_least_one(at_least_one(h.logical_cores as int) / 2),
        spec_recommend(h, requested).batch_size <= 128,
        spec_recommend(h, requested).gpu_offload != GpuOffload::MaximumFitting,
{
}

/// Guards only take away: with a guard switched on, the threads, context
/// and batch are never larger than without it, on the same host and request.
pub proof fn law_guards_only_reduce(h: HostConditions, requested: RuntimeMode, guarded: HostConditions)
    requires
        guarded.logical_cores == h.logical_cores,
        guarded.has_gpu == h.has_gpu,
        guarded.on_ac == h.on_ac,
        h.thermally_hot ==> guarded.thermally_hot,
        h.memory_tight ==> guarded.memory_tight,
    ensures
        spec_recommend(guarded, requested).cpu_threads <= spec_recommend(h, requested).cpu_threads,
        spec_recommend(guarded, requested).context_size <= spec_recommend(h, requested).context_size,
        spec_recommend(guarded, requested).batch_size <= spec_recommend(h, requested).batch_size,
{
}

} // verus!
