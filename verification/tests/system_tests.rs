use makutweaker::package_manager::PackageManagerHandler;
use makutweaker::performance::PerformanceHandler;
use makutweaker::process_manager::{arrange_process_list, format_memory, ProcessSample};
use makutweaker::system_info::{cpu_summary, disk_display_name, gpu_list_from, gpu_query_command, hardware_report};

fn args(c: &makutweaker::command::SystemCommand) -> Vec<&str> {
    c.args.iter().map(|a| a.as_str()).collect()
}

#[test]
fn flatpak_listing_is_parsed() {
    let p = PackageManagerHandler::new();
    let out = b"org.mozilla.firefox\tFirefox\ncom.valvesoftware.Steam  Steam  Client\r\nlonely\n\n".to_vec();
    let pkgs = p.parse_installed_packages(Some(out));
    let got: Vec<(&str, &str, &str)> =
        pkgs.iter().map(|x| (x.id.as_str(), x.name.as_str(), x.category.as_str())).collect();
    assert_eq!(
        got,
        vec![
            ("org.mozilla.firefox", "Firefox", "Flatpak"),
            ("com.valvesoftware.Steam", "Steam Client", "Flatpak"),
        ]
    );
}

#[test]
fn empty_listing_gives_defaults() {
    let p = PackageManagerHandler::new();
    for listing in [None, Some(Vec::new()), Some(b"one-word\n".to_vec())] {
        let pkgs = p.parse_installed_packages(listing);
        let got: Vec<(&str, &str, &str)> =
            pkgs.iter().map(|x| (x.id.as_str(), x.name.as_str(), x.category.as_str())).collect();
        assert_eq!(
            got,
            vec![("org.gnome.Tour", "GNOME Tour", "System"), ("tracker3", "Tracker3 Indexer", "Services")]
        );
    }
}

#[test]
fn uninstall_picks_the_package_manager() {
    let p = PackageManagerHandler::new();
    let f = p.uninstall_command("org.gnome.Tour");
    assert_eq!((f.program.as_str(), args(&f)), ("flatpak", vec!["uninstall", "-y", "org.gnome.Tour"]));
    let s = p.uninstall_command("tracker3");
    assert_eq!(
        (s.program.as_str(), args(&s)),
        ("sudo", vec!["pacman", "-Rns", "--noconfirm", "tracker3"])
    );
    let l = p.list_command();
    assert_eq!((l.program.as_str(), args(&l)), ("flatpak", vec!["list", "--columns=application,name"]));
}

#[test]
fn throttle_plan_follows_the_limit() {
    let h = PerformanceHandler::new();
    assert!(h.cpu_throttle_plan(9).is_none());
    assert!(h.cpu_throttle_plan(101).is_none());
    let cases = [(10, "power-saver"), (50, "power-saver"), (51, "balanced"), (85, "balanced"), (86, "performance"), (100, "performance")];
    for (percent, profile) in cases {
        let plan = h.cpu_throttle_plan(percent).unwrap();
        assert_eq!(args(&plan.profile_command), vec!["set", profile]);
        assert_eq!(plan.profile_command.program, "powerprofilesctl");
        assert_eq!(plan.pstate_path, "/sys/devices/system/cpu/intel_pstate/max_perf_pct");
        assert_eq!(plan.pstate_value, percent.to_string());
    }
    h.toggle_gamemode(true);
    h.toggle_gfx_env(false);
}

#[test]
fn throttle_reading_parses_the_file() {
    let h = PerformanceHandler::new();
    assert_eq!(h.throttle_from_reading(Some("75\n".to_string())), 75);
    assert_eq!(h.throttle_from_reading(Some(" +42 ".to_string())), 42);
    assert_eq!(h.throttle_from_reading(Some("abc".to_string())), 100);
    assert_eq!(h.throttle_from_reading(Some("".to_string())), 100);
    assert_eq!(h.throttle_from_reading(Some("-5".to_string())), 100);
    assert_eq!(h.throttle_from_reading(Some("+".to_string())), 100);
    assert_eq!(h.throttle_from_reading(Some("4294967295".to_string())), 4294967295);
    assert_eq!(h.throttle_from_reading(Some("4294967296".to_string())), 100);
    assert_eq!(h.throttle_from_reading(Some("7 5".to_string())), 100);
    assert_eq!(h.throttle_from_reading(None), 100);
}

#[test]
fn throttle_written_value_reads_back() {
    let h = PerformanceHandler::new();
    for p in 10..=100u32 {
        let plan = h.cpu_throttle_plan(p).unwrap();
        assert_eq!(h.throttle_from_reading(Some(plan.pstate_value)), p);
    }
}

fn sample(pid: u32, name: &str, mem: u64) -> ProcessSample {
    ProcessSample { pid, name: name.to_string(), cmd: vec![name.to_string(), "--flag".to_string()], memory_bytes: mem }
}

#[test]
fn process_list_is_sorted_and_filtered() {
    let samples = vec![
        sample(1, "systemd", 50 << 20),
        sample(10, "firefox", 300 << 20),
        sample(11, "bash", 5 << 20),
        sample(12, "code", 500 << 20),
        sample(13, "htop", 300 << 20),
        sample(14, "cat", 1000),
    ];
    let rows = arrange_process_list(&samples);
    let got: Vec<(usize, u32, &str, &str)> =
        rows.iter().map(|r| (r.source, r.pid, r.name.as_str(), r.memory_formatted.as_str())).collect();
    assert_eq!(
        got,
        vec![
            (3, 12, "code", "500 MB"),
            (1, 10, "firefox", "300 MB"),
            (4, 13, "htop", "300 MB"),
            (5, 14, "cat", "0 MB"),
        ]
    );
    assert_eq!(rows[0].cmdline, "code --flag");
    assert_eq!(rows[0].memory_bytes, 500 << 20);
}

#[test]
fn memory_is_shown_in_whole_mebibytes() {
    assert_eq!(format_memory(0), "0 MB");
    assert_eq!(format_memory(1048575), "0 MB");
    assert_eq!(format_memory(1048576), "1 MB");
    assert_eq!(format_memory(u64::MAX), "17592186044415 MB");
}

#[test]
fn gpu_list_from_lspci() {
    let out = b"00:02.0 VGA compatible controller: Intel Corporation UHD Graphics 620 (rev 07)\n01:00.0 3D controller:   NVIDIA Corporation GP108M  \n".to_vec();
    let names: Vec<String> = gpu_list_from(Some(out)).into_iter().map(|g| g.name).collect();
    assert_eq!(
        names,
        vec!["Intel Corporation UHD Graphics 620 (rev 07)", "NVIDIA Corporation GP108M"]
    );
    let none: Vec<String> = gpu_list_from(None).into_iter().map(|g| g.name).collect();
    assert_eq!(none, vec!["Standard Linux Video Device"]);
    let odd: Vec<String> = gpu_list_from(Some(b"no marker here\n".to_vec())).into_iter().map(|g| g.name).collect();
    assert_eq!(odd, vec!["Standard Linux Video Device"]);
}

#[test]
fn cpu_summary_takes_the_highest_frequency() {
    let (name, cores, freq) = cpu_summary(Some("AMD Ryzen 7".to_string()), Some(8), &vec![1400, 4200, 3800]);
    assert_eq!((name.as_str(), cores, freq), ("AMD Ryzen 7", 8, 4200));
    let (name, cores, freq) = cpu_summary(None, None, &vec![]);
    assert_eq!((name.as_str(), cores, freq), ("Unknown Linux CPU", 0, 0));
}

#[test]
fn unnamed_disk_is_the_system_disk() {
    assert_eq!(disk_display_name(String::new()), "System Disk");
    assert_eq!(disk_display_name("nvme0n1".to_string()), "nvme0n1");
}

#[test]
fn report_text() {
    let devices = vec![("nvme0n1".to_string(), "476.9 GB".to_string()), ("sda".to_string(), "931.5 GB".to_string())];
    let r = hardware_report("AMD Ryzen 7", 8, "4.20 GHz", "16 GB / DDR or LPDDR", &devices);
    assert_eq!(
        r,
        "SteeliumTweaker Hardware Report // Linux Native\n\n=== PROCESSOR ===\nName: AMD Ryzen 7\nCores: 8\nMax Frequency: 4.20 GHz\n\n=== RAM ===\nTotal Memory: 16 GB / DDR or LPDDR\n\n=== STORAGE DEVICES ===\n- nvme0n1: 476.9 GB\n- sda: 931.5 GB\n"
    );
}

#[test]
fn gpu_query_lists_display_controllers() {
    let c = gpu_query_command();
    assert_eq!((c.program.as_str(), args(&c)), ("sh", vec!["-c", "lspci | grep -E 'VGA|3D'"]));
}
