use ai_local_runtime::model::AcceleratorKind;
use ai_local_runtime::probe::{
    accelerator_from_card, count_physical_cores, cpu_model_from_cpuinfo, is_primary_card_name,
    memory_from_meminfo, nvidia_free_bytes, os_name_from_release, power_summary, read_available_vram,
    read_vram_total, vendor_name, vram_source, CardReadings, CpuDirectoryEntry, PowerSupplyReadings,
    VramSource,
};

#[test]
fn identifies_only_primary_drm_cards() {
    assert!(is_primary_card_name("card0"));
    assert!(is_primary_card_name("card12"));
    assert!(!is_primary_card_name("card0-DP-1"));
    assert!(!is_primary_card_name("renderD128"));
    assert!(!is_primary_card_name("card"));
}

#[test]
fn names_pci_vendors() {
    assert_eq!(vendor_name("0x10de"), "NVIDIA");
    assert_eq!(vendor_name("0x1002"), "AMD");
    assert_eq!(vendor_name("0x8086"), "Intel");
    assert_eq!(vendor_name("0x106b"), "Apple");
    assert_eq!(vendor_name("0x17cb"), "Qualcomm");
    assert_eq!(vendor_name("0x1234"), "Unknown");
    assert_eq!(vram_source("0x1002"), VramSource::AmdSysfs);
    assert_eq!(vram_source("0x10de"), VramSource::NvidiaSmi);
    assert_eq!(vram_source("0x8086"), VramSource::Unavailable);
}

#[test]
fn reads_the_cpu_model() {
    let cpuinfo = "processor\t: 0\nvendor_id\t: GenuineIntel\nmodel name\t: Intel(R) Core(TM) i7 \r\nmodel name\t: second\n";
    assert_eq!(cpu_model_from_cpuinfo(cpuinfo), "Intel(R) Core(TM) i7");
    assert_eq!(cpu_model_from_cpuinfo("Hardware : BCM2835\n"), "BCM2835");
    assert_eq!(cpu_model_from_cpuinfo("processor : 0\n"), "unknown");
    assert_eq!(cpu_model_from_cpuinfo(""), "unknown");
}

#[test]
fn reads_memory_sizes_in_bytes() {
    let meminfo = "MemTotal:       16000000 kB\nMemFree:  1 kB\nMemAvailable:   8000000 kB\nSwapTotal: 0 kB\nSwapFree: x kB\nbroken line\n";
    let memory = memory_from_meminfo(meminfo).unwrap();
    assert_eq!(memory.total_bytes, 16_000_000 * 1024);
    assert_eq!(memory.available_bytes, 8_000_000 * 1024);
    assert_eq!(memory.swap_total_bytes, 0);
    assert_eq!(memory.swap_free_bytes, 0);

    let repeated = memory_from_meminfo("MemTotal: 1 kB\nMemTotal: 2 kB").unwrap();
    assert_eq!(repeated.total_bytes, 2048);

    assert!(memory_from_meminfo("Huge: 18446744073709551615 kB\n").is_none());
}

#[test]
fn reads_the_os_name() {
    let release = Some("NAME=\"Ubuntu\"\nPRETTY_NAME=\"Ubuntu 24.04 LTS\"\nID=ubuntu\n".to_string());
    assert_eq!(os_name_from_release(&release), "Ubuntu 24.04 LTS");
    assert_eq!(os_name_from_release(&Some("ID=arch\n".to_string())), "Linux");
    assert_eq!(os_name_from_release(&None), "Linux");
}

#[test]
fn keeps_a_carriage_return_that_ends_the_text() {
    let crlf = Some("ID=x\r\nPRETTY_NAME=\"X\"\r\n".to_string());
    assert_eq!(os_name_from_release(&crlf), "X");
    let bare = Some("PRETTY_NAME=\"X\"\r".to_string());
    assert_eq!(os_name_from_release(&bare), "X\"\r");
}

fn cpu(name: &str, package: Option<&str>, core: Option<&str>) -> CpuDirectoryEntry {
    CpuDirectoryEntry {
        name: name.into(),
        physical_package_id: package.map(str::to_string),
        core_id: core.map(str::to_string),
    }
}

#[test]
fn counts_distinct_physical_cores() {
    let entries = vec![
        cpu("cpu0", Some("0\n"), Some("0\n")),
        cpu("cpu1", Some("0\n"), Some("1\n")),
        cpu("cpufreq", None, None),
        cpu("cpu2", Some("0\n"), Some("0\n")),
        cpu("cpu3", Some("0\n"), Some("1\n")),
        cpu("online", None, None),
    ];
    assert_eq!(count_physical_cores(&entries), Some(2));
    assert_eq!(count_physical_cores(&vec![cpu("cpuidle", None, None)]), None);
    assert_eq!(count_physical_cores(&vec![cpu("cpu0", Some("0"), None)]), None);
}

fn supply(kind: Option<&str>, online: Option<&str>) -> PowerSupplyReadings {
    PowerSupplyReadings {
        supply_type: kind.map(str::to_string),
        online: online.map(str::to_string),
    }
}

#[test]
fn decides_the_power_source() {
    let supplies = vec![
        supply(Some("Battery\n"), None),
        supply(Some("Mains\n"), Some("0\n")),
        supply(Some("USB_C\n"), Some("1\n")),
        supply(Some("USB\n"), None),
    ];
    let summary = power_summary(&supplies);
    assert_eq!(summary.on_ac, Some(true));
    assert_eq!(summary.battery, Some(0));
    let none = power_summary(&vec![supply(Some("Battery"), None)]);
    assert_eq!(none.on_ac, None);
}

#[test]
fn reads_video_memory() {
    assert_eq!(read_vram_total(&Some("8589934592\n".into()), &None), Some(8_589_934_592));
    assert_eq!(read_vram_total(&Some("junk".into()), &Some("256\n".into())), Some(256));
    assert_eq!(read_vram_total(&None, &None), None);
    assert_eq!(read_available_vram("0x1002", Some(1000), &Some("300".into()), None), Some(700));
    assert_eq!(read_available_vram("0x1002", Some(1000), &Some("3000".into()), None), Some(0));
    assert_eq!(read_available_vram("0x10de", None, &None, Some(5)), Some(5));
    assert_eq!(read_available_vram("0x8086", Some(1000), &Some("1".into()), Some(5)), None);
    assert_eq!(nvidia_free_bytes("2800\n3000\n"), Some(2800 * 1024 * 1024));
    assert_eq!(nvidia_free_bytes(" 12 \r\n"), Some(12 * 1024 * 1024));
    assert_eq!(nvidia_free_bytes("[N/A]\n"), None);
    assert_eq!(nvidia_free_bytes("18446744073709551615\n"), None);
}

#[test]
fn describes_a_drm_card() {
    let card = CardReadings {
        card_name: "card1".into(),
        vendor: Some("0x10de\n".into()),
        device: Some("0x25a9\n".into()),
        driver: Some("nvidia".into()),
        boot_vga: Some("1\n".into()),
        vram_total: None,
        visible_vram_total: None,
        vram_used: None,
        nvidia_free_bytes: Some(1024),
        telemetry_probe: false,
    };
    let gpu = accelerator_from_card(&card);
    assert_eq!(gpu.kind, AcceleratorKind::DiscreteGpu);
    assert_eq!(gpu.name, "NVIDIA GPU 0x25a9 (nvidia)");
    assert_eq!(gpu.vendor, "NVIDIA");
    assert_eq!(gpu.device_path.as_deref(), Some("/sys/class/drm/card1"));
    assert_eq!(gpu.available_memory_bytes, Some(1024));
    assert!(gpu.telemetry_available);

    let integrated = CardReadings {
        card_name: "card0".into(),
        vendor: Some("0x8086".into()),
        device: None,
        driver: None,
        boot_vga: Some("1".into()),
        vram_total: None,
        visible_vram_total: None,
        vram_used: None,
        nvidia_free_bytes: None,
        telemetry_probe: false,
    };
    let igpu = accelerator_from_card(&integrated);
    assert_eq!(igpu.kind, AcceleratorKind::IntegratedGpu);
    assert_eq!(igpu.name, "Intel GPU ");
    assert!(!igpu.telemetry_available);
}
