use ai_local_runtime::policy::{recommend, GpuOffload, GpuPlacement, HostConditions, PolicyReason, RuntimeMode};

/// The test host: 16 logical cores, 16 GiB of memory with 10 GiB available,
/// one discrete GPU, the CPU at 55 C, on AC power.
struct Host {
    logical_cores: usize,
    total_bytes: u64,
    available_bytes: u64,
    accelerators: usize,
    temperatures: Vec<f64>,
    on_ac: Option<bool>,
}

fn snapshot() -> Host {
    Host {
        logical_cores: 16,
        total_bytes: 16 * 1024_u64.pow(3),
        available_bytes: 10 * 1024_u64.pow(3),
        accelerators: 1,
        temperatures: vec![55.0],
        on_ac: Some(true),
    }
}

/// The conditions that the policy reads of a host.
fn conditions(host: &Host) -> HostConditions {
    let pressure = if host.total_bytes == 0 {
        0.0
    } else {
        1.0 - host.available_bytes as f64 / host.total_bytes as f64
    };
    let memory_gib = host.available_bytes as f64 / 1024_f64.powi(3);
    let hottest = host
        .temperatures
        .iter()
        .copied()
        .filter(|value| value.is_finite())
        .max_by(f64::total_cmp);
    HostConditions {
        logical_cores: host.logical_cores,
        has_gpu: host.accelerators > 0,
        on_ac: host.on_ac,
        thermally_hot: hottest.is_some_and(|t| t >= 85.0),
        memory_tight: pressure >= 0.80 || memory_gib < 3.0,
    }
}

#[test]
fn balanced_profile_uses_available_gpu() {
    let profile = recommend(&conditions(&snapshot()), RuntimeMode::Balanced);

    assert_eq!(profile.cpu_threads, 12);
    assert_eq!(profile.gpu_offload, GpuOffload::MaximumFitting);
    assert_eq!(profile.context_size, 4096);
}

#[test]
fn battery_state_overrides_performance() {
    let mut host = snapshot();
    host.on_ac = Some(false);

    let profile = recommend(&conditions(&host), RuntimeMode::Performance);

    assert_eq!(profile.mode, RuntimeMode::Battery);
    assert_eq!(profile.gpu_offload, GpuOffload::Conservative);
}

#[test]
fn memory_pressure_reduces_context_and_quantizes_kv_cache() {
    let mut host = snapshot();
    host.available_bytes = 2 * 1024_u64.pow(3);

    let profile = recommend(&conditions(&host), RuntimeMode::Balanced);

    assert_eq!(profile.context_size, 2048);
    assert_eq!(profile.kv_cache_type, "q8_0");
}

#[test]
fn each_mode_has_its_baseline() {
    let host = conditions(&snapshot());
    let performance = recommend(&host, RuntimeMode::Performance);
    assert_eq!((performance.cpu_threads, performance.context_size, performance.batch_size), (16, 8192, 512));
    assert_eq!(performance.kv_cache_type, "f16");
    let battery = recommend(&host, RuntimeMode::Battery);
    assert_eq!((battery.cpu_threads, battery.context_size, battery.batch_size), (8, 4096, 128));
    assert_eq!(battery.gpu_offload, GpuOffload::Conservative);
    let background = recommend(&host, RuntimeMode::Background);
    assert_eq!((background.cpu_threads, background.context_size, background.batch_size), (4, 2048, 64));
    assert_eq!(background.gpu_offload, GpuOffload::Disabled);
    assert_eq!(background.gpu_placement, GpuPlacement::CpuOnly);
    assert_eq!(performance.gpu_placement, GpuPlacement::Auto);
    assert_eq!(battery.gpu_placement, GpuPlacement::Auto);
    assert_eq!((performance.ubatch_size, performance.parallel_slots), (512, 1));
    assert_eq!((background.ubatch_size, background.parallel_slots), (64, 1));
    assert_eq!(background.reasons, vec![PolicyReason::SelectedPolicy(RuntimeMode::Background)]);
}

#[test]
fn thermal_guard_halves_threads_and_limits_offload() {
    let mut host = snapshot();
    host.temperatures = vec![f64::NAN, 70.0, 91.5];
    let profile = recommend(&conditions(&host), RuntimeMode::Performance);
    assert_eq!(profile.cpu_threads, 8);
    assert_eq!(profile.batch_size, 128);
    assert_eq!(profile.gpu_offload, GpuOffload::Conservative);
    assert_eq!(
        profile.reasons,
        vec![PolicyReason::SelectedPolicy(RuntimeMode::Performance), PolicyReason::ThermalGuard]
    );
}

#[test]
fn no_gpu_and_single_core_hosts() {
    let mut host = snapshot();
    host.accelerators = 0;
    host.logical_cores = 0;
    host.on_ac = Some(false);
    let profile = recommend(&conditions(&host), RuntimeMode::Balanced);
    assert_eq!(profile.mode, RuntimeMode::Battery);
    assert_eq!(profile.cpu_threads, 1);
    assert_eq!(profile.gpu_offload, GpuOffload::Disabled);
    assert_eq!(
        profile.reasons,
        vec![
            PolicyReason::SelectedPolicy(RuntimeMode::Battery),
            PolicyReason::BatteryOverride,
            PolicyReason::NoGpu,
        ]
    );
}

#[test]
fn high_pressure_applies_the_memory_guard() {
    let mut host = snapshot();
    host.total_bytes = 64 * 1024_u64.pow(3);
    host.available_bytes = 12 * 1024_u64.pow(3);
    let profile = recommend(&conditions(&host), RuntimeMode::Performance);
    assert_eq!(profile.context_size, 2048);
    assert_eq!(profile.batch_size, 128);
    assert_eq!(profile.reasons.last(), Some(&PolicyReason::MemoryGuard));
}
