use makutweaker::advanced::AdvancedHandler;
use makutweaker::confirmation_dialog::ConfirmationDialogHandler;
use makutweaker::personalization::PersonalizationHandler;
use makutweaker::sat_handler::SatHandler;
use makutweaker::settings_about::SettingsAboutHandler as AboutHandler;
use makutweaker::settings_info::SettingsAboutHandler as InfoHandler;
use makutweaker::windows_components::WindowsComponentsTweaker;

fn args(c: &makutweaker::command::SystemCommand) -> Vec<&str> {
    c.args.iter().map(|a| a.as_str()).collect()
}

#[test]
fn confirmation_accepts_the_phrase() {
    let d = ConfirmationDialogHandler::new();
    assert!(d.validate_input("ILOVESTEELIUMTWEAKER".to_string()));
    assert!(d.validate_input("  ILOVESTEELIUMTWEAKER\n".to_string()));
}

#[test]
fn confirmation_refuses_other_text() {
    let d = ConfirmationDialogHandler::new();
    assert!(!d.validate_input("ilovesteeliumtweaker".to_string()));
    assert!(!d.validate_input("ILOVE STEELIUMTWEAKER".to_string()));
    assert!(!d.validate_input(String::new()));
    assert!(!d.validate_input("ILOVESTEELIUMTWEAKER!".to_string()));
}

#[test]
fn service_actions_are_checked() {
    let a = AdvancedHandler::new();
    let c = a.control_service_command("bluetooth", "restart").unwrap();
    assert_eq!(c.program, "systemctl");
    assert_eq!(args(&c), vec!["restart", "bluetooth"]);
    for ok in ["start", "stop", "enable", "disable"] {
        assert!(a.control_service_command("sshd", ok).is_some());
    }
    assert!(a.control_service_command("sshd", "mask").is_none());
    assert!(a.control_service_command("sshd", "Start").is_none());
    assert!(a.control_service_command("sshd", "").is_none());
}

#[test]
fn fixed_service_commands() {
    let a = AdvancedHandler::new();
    let b = a.disable_bluetooth_command();
    assert_eq!((b.program.as_str(), args(&b)), ("systemctl", vec!["disable", "bluetooth"]));
    let w = a.disable_wifi_command();
    assert_eq!((w.program.as_str(), args(&w)), ("nmcli", vec!["radio", "wifi", "off"]));
    let f = a.enable_firewall_command();
    assert_eq!((f.program.as_str(), args(&f)), ("systemctl", vec!["enable", "ufw"]));
}

#[test]
fn personalization_accepts_everything() {
    let p = PersonalizationHandler::new();
    assert!(p.set_theme("Adwaita-dark"));
    assert!(p.set_wallpaper("/usr/share/backgrounds/a.png"));
    assert!(p.customize_desktop());
}

#[test]
fn status_is_normal() {
    assert_eq!(SatHandler::new().get_status(), "Система в норме");
}

#[test]
fn components_defaults() {
    let w = WindowsComponentsTweaker::new();
    assert!(w.is_photo_viewer_enabled());
    assert!(w.is_game_dvr_disabled());
    assert!(w.disable_game_dvr());
    w.disable_hyperv();
    assert_eq!(w.photo_viewer_dir(Some("/home/maku".to_string())), "/home/maku/.config/MangoHud");
    assert_eq!(w.photo_viewer_dir(None), "/tmp/.config/MangoHud");
}

#[test]
fn linux_about_page() {
    let s = InfoHandler::new();
    assert_eq!(s.version, "v4.0.0-linux");
    assert_eq!(s.authors, "Maku & Contributors");
    assert!(!s.check_winr_alias_status());
}

#[test]
fn about_page_version_takes_the_build_number() {
    let s = AboutHandler::new(b"  2431\n");
    assert_eq!(s.version, "5.7.3 (2431)");
    assert_eq!(s.authors, "Minish777");
    assert_eq!(s.github_url, "https://github.com/Minish777");
    assert_eq!(AboutHandler::get_build_number(b"\t77 \r\n"), "77");
    assert_eq!(AboutHandler::get_build_number(b"a\xffb"), "a\u{fffd}b");
}

#[test]
fn about_page_commands() {
    let s = AboutHandler::new(b"1");
    let o = s.open_github_command(false, true).unwrap();
    assert_eq!((o.program.as_str(), args(&o)), ("xdg-open", vec!["https://github.com/Minish777"]));
    assert!(s.open_github_command(false, false).is_none());
    let o = s.open_github_command(true, false).unwrap();
    assert_eq!((o.program.as_str(), args(&o)), ("cmd", vec!["/c", "start", "https://github.com/Minish777"]));
    let q = s.winr_alias_query_command();
    assert_eq!(
        args(&q),
        vec!["query", "HKLM\\SOFTWARE\\Microsoft\\Windows\\CurrentVersion\\App Paths\\makut.exe"]
    );
}

#[test]
fn alias_commands_cover_each_alias() {
    let s = AboutHandler::new(b"1");
    let on = s.winr_alias_commands(true, "C:\\maku\\makut.exe", "C:\\maku");
    assert_eq!(on.len(), 6);
    assert_eq!(
        args(&on[0]),
        vec![
            "add",
            "HKLM\\SOFTWARE\\Microsoft\\Windows\\CurrentVersion\\App Paths\\makut.exe",
            "/f",
            "/ve",
            "/t",
            "REG_SZ",
            "/d",
            "C:\\maku\\makut.exe"
        ]
    );
    assert_eq!(
        args(&on[5]),
        vec![
            "add",
            "HKLM\\SOFTWARE\\Microsoft\\Windows\\CurrentVersion\\App Paths\\mt.exe",
            "/v",
            "Path",
            "/f",
            "/t",
            "REG_SZ",
            "/d",
            "C:\\maku"
        ]
    );
    let off = s.winr_alias_commands(false, "x", "y");
    assert_eq!(off.len(), 3);
    assert_eq!(
        args(&off[1]),
        vec!["delete", "HKLM\\SOFTWARE\\Microsoft\\Windows\\CurrentVersion\\App Paths\\maku.exe", "/f"]
    );
}
