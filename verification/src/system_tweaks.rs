//! Privacy and power tweaks: telemetry services and the battery.
use vstd::prelude::*;

use crate::command::{cmd, command_views, CommandSpec, SystemCommand};

verus! {

broadcast use vstd::string::group_string_axioms;

/// The handler of the system tweaks page.
pub struct SystemTweaksHandler;

/// The services that collect and send usage data.
pub open spec fn telemetry_services() -> Seq<Seq<char>> {
    seq![
        "systemd-journal-gateway"@,
        "systemd-journal-remote"@,
        "apport"@,
        "ubuntu-report"@,
    ]
}

/// The `systemctl` action that turns telemetry off (`disable`) or back on.
pub open spec fn telemetry_action(disable: bool) -> Seq<char> {
    if disable {
        "disable"@
    } else {
        "enable"@
    }
}

/// The commands that switch telemetry off or on: each telemetry service is
/// disabled or enabled, in order, and when switching off, GNOME's user
/// extension setting is locked as well.
pub open spec fn telemetry_plan(disable: bool) -> Seq<CommandSpec> {
    let a = telemetry_action(disable);
    let services = telemetry_services().map_values(|s: Seq<char>| cmd("systemctl"@, seq![a, s]));
    if disable {
        services.push(
            cmd("dconf"@, seq!["write"@, "org.gnome.shell/disable-user-extensions-setting"@, "true"@]),
        )
    } else {
        services
    }
}

impl SystemTweaksHandler {
    pub fn new() -> Self {
        SystemTweaksHandler
    }

    /// The commands that switch telemetry off (`disable`) or back on.
    pub fn telemetry_commands(&self, disable: bool) -> (r: Vec<SystemCommand>)
        ensures
            command_views(r@) == telemetry_plan(disable),
    {
        let action = if disable {
            "disable"
        } else {
            "enable"
        };
        let services: [&str; 4] = [
            "systemd-journal-gateway",
            "systemd-journal-remote",
            "apport",
            "ubuntu-report",
        ];
        let mut r: Vec<SystemCommand> = Vec::new();
        let mut i: usize = 0;
        while i < 4
            invariant
                i <= 4,
                action@ == telemetry_action(disable),
                services@.map_values(|s: &str| s@) == telemetry_services(),
                r@.len() == i,
                forall|k: int| 0 <= k < i ==> (#[trigger] r@[k])@ == cmd("systemctl"@, seq![action@, telemetry_services()[k]]),
            decreases 4 - i,
        {
            let c = SystemCommand::new("systemctl", &[action, services[i]]);
            assert(c@.args =~= seq![action@, services@[i as int]@]);
            assert(telemetry_services()[i as int] == services@[i as int]@);
            r.push(c);
            i = i + 1;
        }
        let ghost svc = telemetry_services().map_values(|s: Seq<char>| cmd("systemctl"@, seq![action@, s]));
        assert(command_views(r@) =~= svc);
        if disable {
            let c = SystemCommand::new(
                "dconf",
                &["write", "org.gnome.shell/disable-user-extensions-setting", "true"],
            );
            assert(c@.args =~= seq![
                "write"@,
                "org.gnome.shell/disable-user-extensions-setting"@,
                "true"@,
            ]);
            r.push(c);
        }
        assert(command_views(r@) =~= telemetry_plan(disable));
        r
    }

    /// The power supplies whose presence shows a battery: `BAT0` and `BAT1`.
    pub fn battery_paths(&self) -> (r: (&'static str, &'static str))
        ensures
            r.0@ == "/sys/class/power_supply/BAT0"@,
            r.1@ == "/sys/class/power_supply/BAT1"@,
    {
        ("/sys/class/power_supply/BAT0", "/sys/class/power_supply/BAT1")
    }

    /// Whether there is a battery, given whether the power supplies `BAT0`
    /// and `BAT1` exist.
    pub fn battery_present(&self, bat0_exists: bool, bat1_exists: bool) -> (r: bool)
        ensures
            r == (bat0_exists || bat1_exists),
    {
        bat0_exists || bat1_exists
    }

    /// The file whose presence shows that Ubuntu usage reports are collected.
    pub fn report_stats_path(&self) -> (r: &'static str)
        ensures
            r@ == "/var/log/ubuntu-report-stats"@,
    {
        "/var/log/ubuntu-report-stats"
    }

    /// Whether usage reports are off, given whether the Ubuntu report
    /// statistics file exists.
    pub fn telemetry_disabled_given(&self, stats_file_exists: bool) -> (r: bool)
        ensures
            r == !stats_file_exists,
    {
        !stats_file_exists
    }

    /// The command that prints the design and present capacity of the first battery.
    pub fn battery_report_command(&self) -> (r: SystemCommand)
        ensures
            r@ == cmd(
                "bash"@,
                seq![
                    "-c"@,
                    "cat /sys/class/power_supply/BAT0/energy_full_design /sys/class/power_supply/BAT0/energy_full 2>/dev/null"@,
                ],
            ),
    {
        let c = SystemCommand::new(
            "bash",
            &[
                "-c",
                "cat /sys/class/power_supply/BAT0/energy_full_design /sys/class/power_supply/BAT0/energy_full 2>/dev/null",
            ],
        );
        assert(c@.args =~= seq![
            "-c"@,
            "cat /sys/class/power_supply/BAT0/energy_full_design /sys/class/power_supply/BAT0/energy_full 2>/dev/null"@,
        ]);
        c
    }
}

} // verus!
