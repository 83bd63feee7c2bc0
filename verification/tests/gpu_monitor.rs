use neohtop::gpu::{
    describe_sysfs_device, discover_nvidia_devices, edge_sensor, find_hwmon,
    parse_nvidia_smi_output, read_hex_id, read_number, read_sysfs_stats, select_cards,
    vendor_name, GpuMonitor, GpuSource, GpuValues, HwmonFiles, SysfsFiles, SysfsProbe,
};
use neohtop::pci::{lookup_pci_name, shorten_model_name};

const PCI_IDS: &str = "# PCI id database excerpt\n\
#\tcomment with a tab\n\
\n\
1002  Advanced Micro Devices, Inc. [AMD/ATI]\n\
\t73ff  Navi 23 [Radeon RX 6600/6600 XT/6600M]\n\
\t\t1002 0e0d  Radeon RX 6600 reference\n\
\t744c  Navi 31 [Radeon RX 7900 XT/7900 XTX/7900 GRE/7900M]\n\
10de  NVIDIA Corporation\n\
\t2684  AD102 [GeForce RTX 4090]\n\
8086  Intel Corporation\n\
\t56a0  DG2 [Arc A770]\n";

fn amd_probe() -> SysfsProbe {
    SysfsProbe {
        has_busy_percent: true,
        has_vram_total: true,
        vendor: Some("0x1002\n".to_string()),
        device: Some("0x73ff\n".to_string()),
    }
}

fn amd_files() -> SysfsFiles {
    SysfsFiles {
        busy_percent: Some("37\n".to_string()),
        vram_total: Some("8573157376\n".to_string()),
        vram_used: Some("1073741824\n".to_string()),
        hwmon: Some(HwmonFiles {
            temperature: Some("52000\n".to_string()),
            power_average: None,
            power_input: Some("31000000\n".to_string()),
            shader_clock: Some("2491000000\n".to_string()),
        }),
    }
}

fn sample_monitor() -> (GpuMonitor, Vec<Vec<String>>) {
    let amd = describe_sysfs_device(
        "/sys/class/drm/card1/device".to_string(),
        &amd_probe(),
        Some(PCI_IDS),
        Some("/sys/class/drm/card1/device/hwmon/hwmon3".to_string()),
    )
    .expect("an amdgpu card is described");
    let rows = parse_nvidia_smi_output(
        "NVIDIA GeForce RTX 4090, 12, 24564, 1024, 45, 35.20, 210\n\n",
    );
    let nvidia = discover_nvidia_devices(&rows);
    (GpuMonitor::new(vec![amd], nvidia), rows)
}

/// Discovery yields one reading per card on every refresh
#[test]
fn test_gpu_monitor_creation() {
    let (monitor, rows) = sample_monitor();
    let files: Vec<SysfsFiles> = monitor.devices().iter().map(|_| amd_files()).collect();
    assert_eq!(monitor.devices().len(), monitor.collect(&rows, &files).len());

    let empty = GpuMonitor::new(Vec::new(), Vec::new());
    assert_eq!(empty.devices().len(), empty.collect(&Vec::new(), &Vec::new()).len());
}

/// Readings must stay inside their documented ranges
#[test]
fn test_collected_stats_are_plausible() {
    let (monitor, rows) = sample_monitor();
    let files: Vec<SysfsFiles> = monitor.devices().iter().map(|_| amd_files()).collect();
    for gpu in monitor.collect(&rows, &files) {
        assert!(!gpu.name.is_empty());
        match gpu.values {
            GpuValues::Sysfs(stats) => {
                assert!(stats.utilization_percent.is_some() || stats.memory_total.is_some());
                if let Some(utilization) = stats.utilization_percent {
                    assert!((0.0..=100.0).contains(&(utilization as f32)));
                }
                if let (Some(used), Some(total)) = (stats.memory_used, stats.memory_total) {
                    assert!(used <= total);
                }
            }
            GpuValues::Nvidia(row) => {
                let utilization: f64 = row[1].parse().unwrap();
                assert!((0.0..=100.0).contains(&utilization));
                let total: f64 = row[2].parse().unwrap();
                let used: f64 = row[3].parse().unwrap();
                assert!(used <= total);
            }
        }
    }
}

/// The marketing name in brackets is preferred over the code name
#[test]
fn test_shorten_model_name() {
    assert_eq!(
        shorten_model_name("Navi 23 [Radeon RX 6600/6600 XT/6600M]"),
        "Radeon RX 6600/6600 XT/6600M"
    );
    assert_eq!(shorten_model_name("Some Plain Name"), "Some Plain Name");
    assert_eq!(shorten_model_name("Empty []"), "Empty []");
}

#[test]
fn shorten_model_name_uses_first_open_and_last_close() {
    assert_eq!(shorten_model_name("A [B] C [D]"), "B] C [D");
    assert_eq!(shorten_model_name("Only ] then ["), "Only ] then [");
    assert_eq!(shorten_model_name("[x]"), "x");
    assert_eq!(shorten_model_name(""), "");
}

#[test]
fn lookup_finds_device_in_vendor_block() {
    assert_eq!(
        lookup_pci_name(PCI_IDS, 0x1002, 0x73ff).as_deref(),
        Some("Radeon RX 6600/6600 XT/6600M")
    );
    assert_eq!(
        lookup_pci_name(PCI_IDS, 0x10de, 0x2684).as_deref(),
        Some("GeForce RTX 4090")
    );
    assert_eq!(lookup_pci_name(PCI_IDS, 0x8086, 0x56a0).as_deref(), Some("Arc A770"));
}

#[test]
fn lookup_stops_at_the_end_of_the_vendor_block() {
    // 2684 is an NVIDIA device, not an AMD one
    assert_eq!(lookup_pci_name(PCI_IDS, 0x1002, 0x2684), None);
    // subsystem lines (two tabs in) are not devices
    assert_eq!(lookup_pci_name(PCI_IDS, 0x1002, 0x1002), None);
    // unknown vendor
    assert_eq!(lookup_pci_name(PCI_IDS, 0xabcd, 0x73ff), None);
    assert_eq!(lookup_pci_name("", 0x1002, 0x73ff), None);
}

#[test]
fn lookup_handles_crlf_and_uppercase_is_not_matched() {
    let db = "1002  AMD\r\n\t73ff  Navi 23 [RX 6600]\r\n";
    assert_eq!(lookup_pci_name(db, 0x1002, 0x73ff).as_deref(), Some("RX 6600"));
    let upper = "1002  AMD\n\t73FF  Navi 23 [RX 6600]\n";
    assert_eq!(lookup_pci_name(upper, 0x1002, 0x73ff), None);
}

#[test]
fn hex_ids_are_read_like_sysfs_writes_them() {
    assert_eq!(read_hex_id("0x1002\n"), Some(0x1002));
    assert_eq!(read_hex_id("  0x10DE  "), Some(0x10de));
    assert_eq!(read_hex_id("0x0x8086"), Some(0x8086));
    assert_eq!(read_hex_id("8086"), Some(0x8086));
    assert_eq!(read_hex_id("+ff"), Some(0xff));
    assert_eq!(read_hex_id("0x10000"), None);
    assert_eq!(read_hex_id("0x"), None);
    assert_eq!(read_hex_id("0xzz"), None);
    assert_eq!(read_hex_id(""), None);
}

#[test]
fn numbers_are_read_like_sysfs_writes_them() {
    assert_eq!(read_number("42\n"), Some(42));
    assert_eq!(read_number(" 18446744073709551615 "), Some(u64::MAX));
    assert_eq!(read_number("18446744073709551616"), None);
    assert_eq!(read_number("-1"), None);
    assert_eq!(read_number("+7"), Some(7));
    assert_eq!(read_number("+"), None);
    assert_eq!(read_number("1 2"), None);
    assert_eq!(read_number(""), None);
}

#[test]
fn vendor_names() {
    assert_eq!(vendor_name(Some(0x1002)), "AMD");
    assert_eq!(vendor_name(Some(0x10de)), "NVIDIA");
    assert_eq!(vendor_name(Some(0x8086)), "Intel");
    assert_eq!(vendor_name(Some(0x1234)), "Unknown");
    assert_eq!(vendor_name(None), "Unknown");
}

#[test]
fn sysfs_devices_without_statistics_are_skipped() {
    let probe = SysfsProbe {
        has_busy_percent: false,
        has_vram_total: false,
        vendor: Some("0x8086".to_string()),
        device: Some("0x56a0".to_string()),
    };
    assert!(describe_sysfs_device("/d".to_string(), &probe, Some(PCI_IDS), None).is_none());
}

#[test]
fn sysfs_device_names_fall_back_to_ids() {
    let probe = SysfsProbe {
        has_busy_percent: true,
        has_vram_total: false,
        vendor: Some("0x1002".to_string()),
        device: Some("0x0abc".to_string()),
    };
    let d = describe_sysfs_device("/d".to_string(), &probe, Some(PCI_IDS), None).unwrap();
    assert_eq!(d.name, "1002:0abc");
    assert_eq!(d.vendor, "AMD");
    let d = describe_sysfs_device("/d".to_string(), &probe, None, None).unwrap();
    assert_eq!(d.name, "1002:0abc");

    let unknown = SysfsProbe { has_busy_percent: true, has_vram_total: true, vendor: None, device: Some("0x73ff".to_string()) };
    let d = describe_sysfs_device("/d".to_string(), &unknown, Some(PCI_IDS), Some("/h".to_string())).unwrap();
    assert_eq!(d.name, "Unknown GPU");
    assert_eq!(d.vendor, "Unknown");
    match d.source {
        GpuSource::Sysfs { device, hwmon } => {
            assert_eq!(device, "/d");
            assert_eq!(hwmon.as_deref(), Some("/h"));
        }
        GpuSource::NvidiaSmi { .. } => panic!("a sysfs card"),
    }
}

#[test]
fn sysfs_readings_are_converted() {
    let stats = read_sysfs_stats(&amd_files());
    assert_eq!(stats.utilization_percent, Some(37));
    assert_eq!(stats.memory_total, Some(8573157376));
    assert_eq!(stats.memory_used, Some(1073741824));
    assert_eq!(stats.temperature_millidegrees, Some(52000));
    // the average is missing, so the instantaneous power is used
    assert_eq!(stats.power_microwatts, Some(31000000));
    assert_eq!(stats.core_clock_mhz, Some(2491));

    let mut files = amd_files();
    files.hwmon.as_mut().unwrap().power_average = Some("29000000".to_string());
    assert_eq!(read_sysfs_stats(&files).power_microwatts, Some(29000000));

    files.hwmon = None;
    let stats = read_sysfs_stats(&files);
    assert_eq!(stats.temperature_millidegrees, None);
    assert_eq!(stats.power_microwatts, None);
    assert_eq!(stats.core_clock_mhz, None);
    assert_eq!(stats.utilization_percent, Some(37));
}

#[test]
fn edge_sensor_is_found_by_label() {
    let labels = vec![Some("junction\n".to_string()), None, Some(" edge\n".to_string())];
    assert_eq!(edge_sensor(&labels), 3);
    let labels = vec![Some("mem".to_string()), Some("junction".to_string()), None];
    assert_eq!(edge_sensor(&labels), 1);
    let labels = vec![Some("edge".to_string()), Some("edge".to_string())];
    assert_eq!(edge_sensor(&labels), 1);
}

#[test]
fn hwmon_directory_is_picked_by_name() {
    let names = vec!["power".to_string(), "hwmon4".to_string(), "hwmon2".to_string()];
    assert_eq!(find_hwmon(&names), Some(1));
    assert_eq!(find_hwmon(&vec!["device".to_string()]), None);
}

#[test]
fn nvidia_output_is_split_into_rows() {
    let rows = parse_nvidia_smi_output(
        "NVIDIA A100, 0, 40960, 3, 31, 54.12, 1410\r\n   \n, [N/A], 8192\nlast,row",
    );
    assert_eq!(
        rows,
        vec![
            vec!["NVIDIA A100", "0", "40960", "3", "31", "54.12", "1410"],
            vec!["", "[N/A]", "8192"],
            vec!["last", "row"],
        ]
    );
    assert!(parse_nvidia_smi_output("").is_empty());
}

#[test]
fn nvidia_devices_are_named_after_their_row() {
    let rows = parse_nvidia_smi_output("RTX 3060, 1\n, 2\n");
    let devices = discover_nvidia_devices(&rows);
    assert_eq!(devices.len(), 2);
    assert_eq!(devices[0].name, "RTX 3060");
    assert_eq!(devices[1].name, "NVIDIA GPU");
    assert_eq!(devices[1].vendor, "NVIDIA");
    assert!(matches!(devices[1].source, GpuSource::NvidiaSmi { index: 1 }));
}

#[test]
fn cards_are_selected_and_ordered() {
    let entries = vec![
        ("card1-DP-1".to_string(), "/a".to_string()),
        ("card10".to_string(), "/b".to_string()),
        ("renderD128".to_string(), "/c".to_string()),
        ("card2".to_string(), "/d".to_string()),
        ("card01".to_string(), "/e".to_string()),
        ("card1".to_string(), "/f".to_string()),
        ("version".to_string(), "/g".to_string()),
    ];
    assert_eq!(
        select_cards(entries),
        vec![
            (1, "/e".to_string()),
            (1, "/f".to_string()),
            (2, "/d".to_string()),
            (10, "/b".to_string()),
        ]
    );
}

#[test]
fn nvidia_smi_runs_only_for_nvidia_cards() {
    let (monitor, rows) = sample_monitor();
    assert!(monitor.uses_nvidia_smi());
    let only_amd = GpuMonitor::new(
        vec![describe_sysfs_device("/d".to_string(), &amd_probe(), None, None).unwrap()],
        Vec::new(),
    );
    assert!(!only_amd.uses_nvidia_smi());

    let files: Vec<SysfsFiles> = monitor.devices().iter().map(|_| amd_files()).collect();
    let readings = monitor.collect(&rows, &files);
    assert_eq!(readings[0].name, "Radeon RX 6600/6600 XT/6600M");
    assert_eq!(readings[1].name, "NVIDIA GeForce RTX 4090");
    // a card whose row is missing this refresh is left out
    let readings = monitor.collect(&Vec::new(), &files);
    assert_eq!(readings.len(), 1);
    assert_eq!(readings[0].name, "Radeon RX 6600/6600 XT/6600M");
}

#[test]
fn out_of_range_readings_are_dropped() {
    let mut files = amd_files();
    files.busy_percent = Some("150\n".to_string());
    files.vram_used = Some("9000000000\n".to_string());
    let stats = read_sysfs_stats(&files);
    assert_eq!(stats.utilization_percent, None);
    assert_eq!(stats.memory_used, None);
    assert_eq!(stats.memory_total, Some(8573157376));

    files.busy_percent = Some("100".to_string());
    files.vram_total = None;
    let stats = read_sysfs_stats(&files);
    assert_eq!(stats.utilization_percent, Some(100));
    assert_eq!(stats.memory_used, Some(9000000000));
}

#[test]
fn cards_reporting_nothing_are_left_out() {
    let (monitor, rows) = sample_monitor();
    let silent = SysfsFiles { busy_percent: None, vram_total: None, vram_used: Some("5".to_string()), hwmon: None };
    let readings = monitor.collect(&rows, &vec![silent, amd_files()]);
    assert_eq!(readings.len(), 1);
    assert_eq!(readings[0].name, "NVIDIA GeForce RTX 4090");

    let out_of_range = SysfsFiles { busy_percent: Some("101".to_string()), vram_total: None, vram_used: None, hwmon: None };
    assert_eq!(monitor.collect(&rows, &vec![out_of_range, amd_files()]).len(), 1);

    // a sysfs card whose files were not given reports nothing
    assert_eq!(monitor.collect(&rows, &Vec::new()).len(), 1);
    assert_eq!(monitor.collect(&rows, &vec![amd_files()]).len(), 2);
}
