use makutweaker::performance::PerformanceHandler;
use makutweaker::quick_settings::QuickSettingsHandler;
use makutweaker::system_tweaks::SystemTweaksHandler;
use makutweaker::windows_update::WindowsUpdateTweaker;
use std::rc::Rc;

fn line(c: &makutweaker::command::SystemCommand) -> String {
    let mut s = c.program.clone();
    for a in &c.args {
        s.push(' ');
        s.push_str(a);
    }
    s
}

#[test]
fn telemetry_off_disables_services_and_locks_extensions() {
    let t = SystemTweaksHandler::new();
    let cmds: Vec<String> = t.telemetry_commands(true).iter().map(line).collect();
    assert_eq!(
        cmds,
        vec![
            "systemctl disable systemd-journal-gateway",
            "systemctl disable systemd-journal-remote",
            "systemctl disable apport",
            "systemctl disable ubuntu-report",
            "dconf write org.gnome.shell/disable-user-extensions-setting true",
        ]
    );
}

#[test]
fn telemetry_on_enables_services() {
    let t = SystemTweaksHandler::new();
    let cmds: Vec<String> = t.telemetry_commands(false).iter().map(line).collect();
    assert_eq!(
        cmds,
        vec![
            "systemctl enable systemd-journal-gateway",
            "systemctl enable systemd-journal-remote",
            "systemctl enable apport",
            "systemctl enable ubuntu-report",
        ]
    );
}

#[test]
fn battery_report_command() {
    let t = SystemTweaksHandler::new();
    assert_eq!(
        line(&t.battery_report_command()),
        "bash -c cat /sys/class/power_supply/BAT0/energy_full_design /sys/class/power_supply/BAT0/energy_full 2>/dev/null"
    );
    assert!(t.battery_present(true, false));
    assert!(t.battery_present(false, true));
    assert!(!t.battery_present(false, false));
    assert!(t.telemetry_disabled_given(false));
    assert!(!t.telemetry_disabled_given(true));
    assert_eq!(t.battery_paths(), ("/sys/class/power_supply/BAT0", "/sys/class/power_supply/BAT1"));
    assert_eq!(t.report_stats_path(), "/var/log/ubuntu-report-stats");
}

#[test]
fn update_status_is_read_from_systemctl() {
    let u = WindowsUpdateTweaker::new();
    assert_eq!(line(&u.updates_status_command()), "systemctl is-active dnf-automatic.timer");
    assert!(u.updates_blocked_from(None));
    assert!(u.updates_blocked_from(Some(b"inactive\n".to_vec())));
    assert!(u.updates_blocked_from(Some(b"unknown\n".to_vec())));
    assert!(!u.updates_blocked_from(Some(b"active\n".to_vec())));
    assert!(!u.updates_blocked_from(Some(b"failed\n".to_vec())));
}

#[test]
fn blocking_updates_disables_and_stops_each_unit() {
    let u = WindowsUpdateTweaker::new();
    let cmds: Vec<String> = u.toggle_updates_commands(true).iter().map(line).collect();
    assert_eq!(
        cmds,
        vec![
            "pkexec systemctl disable dnf-automatic.timer",
            "pkexec systemctl stop dnf-automatic.timer",
            "pkexec systemctl disable packagekit.service",
            "pkexec systemctl stop packagekit.service",
            "pkexec systemctl disable apt-daily.timer",
            "pkexec systemctl stop apt-daily.timer",
        ]
    );
    let cmds: Vec<String> = u.toggle_updates_commands(false).iter().map(line).collect();
    assert_eq!(cmds[0], "pkexec systemctl enable dnf-automatic.timer");
    assert_eq!(cmds[1], "pkexec systemctl start dnf-automatic.timer");
    assert_eq!(cmds.len(), 6);
}

#[test]
fn toggle_succeeds_only_when_every_command_ran() {
    let u = WindowsUpdateTweaker::new();
    assert!(u.toggle_updates_succeeded(&vec![true; 6]));
    assert!(u.toggle_updates_succeeded(&vec![]));
    assert!(!u.toggle_updates_succeeded(&vec![true, true, false, true, true, true]));
}

#[test]
fn cache_cleanup_follows_the_package_managers() {
    let u = WindowsUpdateTweaker::new();
    let (cmds, freed) = u.clean_update_cache_plan(true, false, true);
    let cmds: Vec<String> = cmds.iter().map(line).collect();
    assert_eq!(
        cmds,
        vec!["flatpak uninstall --unused -y", "pkexec pacman -Scc --noconfirm", "pkexec apt-get clean"]
    );
    assert_eq!(freed, 150);
    let (cmds, _) = u.clean_update_cache_plan(false, true, false);
    let cmds: Vec<String> = cmds.iter().map(line).collect();
    assert_eq!(cmds, vec!["flatpak uninstall --unused -y", "pkexec dnf clean all"]);
}

fn quick() -> QuickSettingsHandler {
    QuickSettingsHandler::new(
        Rc::new(PerformanceHandler::new()),
        Rc::new(SystemTweaksHandler::new()),
        Rc::new(WindowsUpdateTweaker::new()),
    )
}

#[test]
fn applicable_tweak_count() {
    let q = quick();
    assert_eq!(q.applicable_tweaks_count(false, Some(b"false\n".to_vec())), 2);
    assert_eq!(q.applicable_tweaks_count(true, Some(b"false\n".to_vec())), 1);
    assert_eq!(q.applicable_tweaks_count(false, Some(b"true\n".to_vec())), 1);
    assert_eq!(q.applicable_tweaks_count(true, None), 0);
    assert_eq!(line(&q.hidden_files_query_command()), "gsettings get org.gnome.nautilus.preferences show-hidden-files");
}

#[test]
fn makuos_preset_runs_in_order() {
    let q = quick();
    let cmds: Vec<String> = q.makuos_preset_commands().iter().map(line).collect();
    assert_eq!(cmds.len(), 16);
    assert_eq!(cmds[0], "systemctl disable systemd-journal-gateway");
    assert_eq!(cmds[4], "dconf write org.gnome.shell/disable-user-extensions-setting true");
    assert_eq!(cmds[5], "pkexec systemctl disable dnf-automatic.timer");
    assert_eq!(cmds[10], "pkexec systemctl stop apt-daily.timer");
    assert_eq!(cmds[11], "gsettings set org.gnome.nautilus.preferences show-hidden-files true");
    assert_eq!(cmds[14], "gsettings set org.gnome.desktop.interface enable-animations true");
    assert_eq!(cmds[15], "pkexec sysctl vm.swappiness=10");
    let _ = q.system_tweaks();
}
