use system_monitor::host::{describe_host, total_storage_bytes, DiskData, HostFacts};
use system_monitor::monitor::{
    history_len_for_rate, GpuDevice, InterfaceStats, SystemMonitor,
};

fn names(v: &[&str]) -> Vec<String> {
    v.iter().map(|s| s.to_string()).collect()
}

#[test]
fn history_len_spans_a_minute() {
    assert_eq!(history_len_for_rate(1000), 60);
    assert_eq!(history_len_for_rate(500), 120);
    assert_eq!(history_len_for_rate(7), 8571);
    assert_eq!(history_len_for_rate(60_000), 1);
    assert_eq!(history_len_for_rate(100_000), 1);
}

#[test]
fn new_fills_windows_with_zero() {
    let m = SystemMonitor::new(1000, 4, 2, &names(&["wlan0", "eth0", "lo"]), 0.0f32);
    assert_eq!(m.max_history(), 60);
    assert_eq!(m.get_cpu_count(), 4);
    assert_eq!(m.get_cpu_history(3), vec![0.0f32; 60]);
    assert_eq!(m.get_memory_history(), vec![0.0f32; 60]);
    assert_eq!(m.interface_names(), &names(&["eth0", "lo", "wlan0"]));
}

#[test]
fn get_cpu_history_past_last_core_is_empty() {
    let m = SystemMonitor::new(1000, 2, 0, &Vec::new(), 0.0f32);
    assert!(m.get_cpu_history(2).is_empty());
    assert!(m.get_cpu_history(usize::MAX).is_empty());
}

#[test]
fn refresh_slides_windows() {
    let mut m = SystemMonitor::new(20_000, 2, 0, &Vec::new(), 0u32);
    assert_eq!(m.max_history(), 3);
    m.refresh(&vec![1, 2], 10, &None, &Vec::new());
    m.refresh(&vec![3, 4], 20, &None, &Vec::new());
    assert_eq!(m.get_cpu_history(0), vec![0, 1, 3]);
    assert_eq!(m.get_cpu_history(1), vec![0, 2, 4]);
    assert_eq!(m.get_memory_history(), vec![0, 10, 20]);
    m.refresh(&vec![5, 6], 30, &None, &Vec::new());
    m.refresh(&vec![7, 8], 40, &None, &Vec::new());
    assert_eq!(m.get_cpu_history(0), vec![3, 5, 7]);
    assert_eq!(m.get_memory_history(), vec![20, 30, 40]);
}

#[test]
fn refresh_follows_core_count() {
    let mut m = SystemMonitor::new(20_000, 1, 0, &Vec::new(), 0u32);
    m.refresh(&vec![1, 2, 3], 0, &None, &Vec::new());
    assert_eq!(m.get_cpu_count(), 3);
    assert_eq!(m.get_cpu_history(0), vec![0, 0, 1]);
    assert_eq!(m.get_cpu_history(2), vec![0, 0, 3]);
    m.refresh(&vec![9], 0, &None, &Vec::new());
    assert_eq!(m.get_cpu_count(), 1);
    assert_eq!(m.get_cpu_history(0), vec![0, 1, 9]);
}

#[test]
fn refresh_gpu_readings() {
    let mut m = SystemMonitor::new(20_000, 0, 1, &Vec::new(), 0u32);
    // Count unreadable: nothing changes.
    m.refresh(&Vec::new(), 0, &None, &Vec::new());
    let dev = |i: u32| GpuDevice { index: i, name: None, mem_used_mb: 0u32, mem_total_mb: 0u32 };
    let d = m.get_gpu_data(&vec![dev(0)]);
    assert_eq!(d[0].util_history, vec![0, 0, 0]);
    // Two GPUs now; the second could not be opened.
    m.refresh(&Vec::new(), 0, &Some(vec![Some((50, 25)), None]), &Vec::new());
    let d = m.get_gpu_data(&vec![dev(0), dev(1)]);
    assert_eq!(d[0].util_history, vec![0, 0, 50]);
    assert_eq!(d[0].mem_history, vec![0, 0, 25]);
    assert_eq!(d[0].util, 50);
    assert_eq!(d[1].util_history, vec![0, 0, 0]);
    assert_eq!(d[1].util, 0);
}

#[test]
fn gpu_data_names_and_missing_windows() {
    let m = SystemMonitor::new(1000, 0, 1, &Vec::new(), 0.0f32);
    let devices = vec![
        GpuDevice { index: 0, name: Some("RTX".to_string()), mem_used_mb: 1.5f32, mem_total_mb: 8.0 },
        GpuDevice { index: 7, name: None, mem_used_mb: 0.0, mem_total_mb: 0.0 },
    ];
    let d = m.get_gpu_data(&devices);
    assert_eq!(d.len(), 2);
    assert_eq!(d[0].name, "RTX");
    assert_eq!(d[0].mem_used_mb, 1.5);
    assert_eq!(d[0].mem_total_mb, 8.0);
    assert_eq!(d[0].util_history.len(), 60);
    assert_eq!(d[1].name, "GPU 7");
    assert!(d[1].util_history.is_empty());
    assert!(d[1].mem_history.is_empty());
    assert_eq!(d[1].util, 0.0);
}

#[test]
fn set_refresh_rate_cuts_and_pads() {
    let mut m = SystemMonitor::new(15_000, 1, 0, &names(&["eth0"]), 0u32);
    assert_eq!(m.max_history(), 4);
    for x in 1..=4 {
        m.refresh(&vec![x], x, &None, &vec![Some(x)]);
    }
    assert_eq!(m.get_cpu_history(0), vec![1, 2, 3, 4]);
    m.set_refresh_rate(30_000);
    assert_eq!(m.max_history(), 2);
    // Cutting keeps the front of each window.
    assert_eq!(m.get_cpu_history(0), vec![1, 2]);
    assert_eq!(m.get_memory_history(), vec![1, 2]);
    m.set_refresh_rate(12_000);
    assert_eq!(m.max_history(), 5);
    assert_eq!(m.get_cpu_history(0), vec![1, 2, 0, 0, 0]);
    let stats = vec![Some(InterfaceStats {
        rx_bytes: 0,
        tx_bytes: 0,
        total_rx_bytes: 0,
        total_tx_bytes: 0,
        ips_v4: Vec::new(),
    })];
    let n = m.get_network_data(&stats, &None);
    assert_eq!(n[0].history, vec![1, 2, 0, 0, 0]);
}

#[test]
fn network_data_only_for_found_interfaces() {
    let mut m = SystemMonitor::new(20_000, 0, 0, &names(&["wlan0", "eth0", "lo"]), 0u32);
    // Readings are in sorted order: eth0, lo, wlan0.
    m.refresh(&Vec::new(), 0, &None, &vec![Some(5), None, Some(9)]);
    let stats = vec![
        Some(InterfaceStats {
            rx_bytes: 1,
            tx_bytes: 2,
            total_rx_bytes: 3,
            total_tx_bytes: 4,
            ips_v4: vec!["10.0.0.2".to_string()],
        }),
        None,
        Some(InterfaceStats {
            rx_bytes: 5,
            tx_bytes: 6,
            total_rx_bytes: 7,
            total_tx_bytes: 8,
            ips_v4: Vec::new(),
        }),
    ];
    let data = m.get_network_data(&stats, &Some("wlan0".to_string()));
    assert_eq!(data.len(), 2);
    assert_eq!(data[0].name, "eth0");
    assert_eq!(data[0].rx_bytes, 1);
    assert_eq!(data[0].tx_bytes, 2);
    assert_eq!(data[0].total_rx_bytes, 3);
    assert_eq!(data[0].total_tx_bytes, 4);
    assert_eq!(data[0].ips_v4, vec!["10.0.0.2".to_string()]);
    assert_eq!(data[0].history, vec![0, 0, 5]);
    assert!(!data[0].is_default);
    assert_eq!(data[1].name, "wlan0");
    assert_eq!(data[1].history, vec![0, 0, 9]);
    assert!(data[1].is_default);
    let none_default = m.get_network_data(&stats, &None);
    assert!(none_default.iter().all(|d| !d.is_default));
    // Fewer readings than interfaces: the rest count as not found.
    assert_eq!(m.get_network_data(&vec![None], &None).len(), 0);
}

#[test]
fn total_storage_sums_or_reports_overflow() {
    let disk = |t: u64| DiskData {
        name: "sda".to_string(),
        mount_point: "/".to_string(),
        total_space_bytes: t,
        available_space_bytes: 0,
    };
    assert_eq!(total_storage_bytes(&Vec::new()), Some(0));
    assert_eq!(total_storage_bytes(&vec![disk(10), disk(32)]), Some(42));
    assert_eq!(total_storage_bytes(&vec![disk(u64::MAX), disk(0)]), Some(u64::MAX));
    assert_eq!(total_storage_bytes(&vec![disk(u64::MAX), disk(1)]), None);
}

#[test]
fn static_info_uses_fallbacks() {
    let facts = HostFacts {
        hostname: None,
        os_name: None,
        os_version: None,
        kernel_version: None,
        cpu_brand: None,
        total_memory_text: "15.6 GB".to_string(),
        bios_version: None,
        total_storage_text: "931.5 GB".to_string(),
        gpus: Vec::new(),
    };
    let info = describe_host(&facts, 8);
    assert_eq!(info.0, "Unknown");
    assert_eq!(info.1, "Unknown ");
    assert_eq!(info.2, "Unknown");
    assert_eq!(info.3, "");
    assert_eq!(info.4, 8);
    assert_eq!(info.5, "15.6 GB");
    assert_eq!(info.6, "Unknown");
    assert_eq!(info.7, "931.5 GB");
    assert_eq!(info.8, "");
}

#[test]
fn static_info_joins_gpu_names() {
    let facts = HostFacts {
        hostname: Some("box".to_string()),
        os_name: Some("Ubuntu".to_string()),
        os_version: Some("24.04".to_string()),
        kernel_version: Some("6.8.0".to_string()),
        cpu_brand: Some("Ryzen".to_string()),
        total_memory_text: "31.2 GB".to_string(),
        bios_version: Some("  F12\n".to_string()),
        total_storage_text: "1.8 GB".to_string(),
        gpus: vec![(0, Some("RTX 4090".to_string())), (2, None)],
    };
    let m = SystemMonitor::new(1000, 16, 0, &Vec::new(), 0.0f32);
    let info = m.get_static_info(&facts);
    assert_eq!(info.4, m.get_cpu_count());
    assert_eq!(info.4, 16);
    assert_eq!(info.0, "box");
    assert_eq!(info.1, "Ubuntu 24.04");
    assert_eq!(info.2, "6.8.0");
    assert_eq!(info.3, "Ryzen");
    assert_eq!(info.6, "F12");
    assert_eq!(info.8, "RTX 4090, NVIDIA GPU 2");
}

#[test]
fn gpu_and_net_windows_by_index() {
    let mut m = SystemMonitor::new(20_000, 0, 0, &names(&["eth0", "lo"]), 0u32);
    m.refresh(&Vec::new(), 0, &Some(vec![Some((7, 8))]), &vec![None, Some(3)]);
    assert_eq!(m.get_gpu_util_history(0), vec![0, 0, 7]);
    assert_eq!(m.get_gpu_mem_history(0), vec![0, 0, 8]);
    assert!(m.get_gpu_util_history(1).is_empty());
    assert!(m.get_gpu_mem_history(1).is_empty());
    assert_eq!(m.get_net_history(0), vec![0, 0, 0]);
    assert_eq!(m.get_net_history(1), vec![0, 0, 3]);
    assert!(m.get_net_history(2).is_empty());
}

#[test]
fn static_info_core_count_follows_polls() {
    let facts = HostFacts {
        hostname: None,
        os_name: None,
        os_version: None,
        kernel_version: None,
        cpu_brand: None,
        total_memory_text: String::new(),
        bios_version: None,
        total_storage_text: String::new(),
        gpus: Vec::new(),
    };
    let mut m = SystemMonitor::new(1000, 2, 0, &Vec::new(), 0u32);
    assert_eq!(m.get_static_info(&facts).4, 2);
    m.refresh(&vec![1, 2, 3], 0, &None, &Vec::new());
    assert_eq!(m.get_static_info(&facts).4, 3);
    assert_eq!(m.get_static_info(&facts).4, m.get_cpu_count());
}
