//! Quick settings: how many quick tweaks are left, and the MakuOS preset.
use vstd::prelude::*;

use std::rc::Rc;

use crate::command::{cmd, command_views, CommandSpec, SystemCommand};
use crate::performance::PerformanceHandler;
use crate::system_tweaks::{telemetry_plan, SystemTweaksHandler};
use crate::text::{decode_lossy, has_substring, str_contains, utf8_lossy};
use crate::windows_update::{updates_plan, WindowsUpdateTweaker};

verus! {

broadcast use vstd::string::group_string_axioms;

/// The handler of the quick settings page.
pub struct QuickSettingsHandler {
    perf: Rc<PerformanceHandler>,
    sys: Rc<SystemTweaksHandler>,
    updates: Rc<WindowsUpdateTweaker>,
}

/// How many quick tweaks are still to apply: one when telemetry is on, and
/// one when the file manager's `show-hidden-files` setting reads `false`
/// (`hidden_files` is the output of the settings query, none when it could
/// not be run).
pub open spec fn applicable_tweaks(telemetry_disabled: bool, hidden_files: Option<Seq<u8>>) -> nat {
    (if telemetry_disabled {
        0nat
    } else {
        1nat
    }) + match hidden_files {
        Some(b) => if has_substring(utf8_lossy(b), "false"@) {
            1nat
        } else {
            0nat
        },
        None => 0nat,
    }
}

/// The settings the MakuOS preset changes after telemetry and updates.
pub open spec fn preset_settings_plan() -> Seq<CommandSpec> {
    seq![
        cmd("gsettings"@, seq!["set"@, "org.gnome.nautilus.preferences"@, "show-hidden-files"@, "true"@]),
        cmd("gsettings"@, seq!["set"@, "org.gnome.desktop.privacy"@, "report-technical-problems"@, "false"@]),
        cmd("gsettings"@, seq!["set"@, "org.gnome.desktop.privacy"@, "send-software-usage-stats"@, "false"@]),
        cmd("gsettings"@, seq!["set"@, "org.gnome.desktop.interface"@, "enable-animations"@, "true"@]),
        cmd("pkexec"@, seq!["sysctl"@, "vm.swappiness=10"@]),
    ]
}

/// The commands of the MakuOS preset: telemetry off, automatic updates
/// blocked, then the preset's settings, in that order.
pub open spec fn makuos_plan() -> Seq<CommandSpec> {
    telemetry_plan(true) + updates_plan(true) + preset_settings_plan()
}

impl QuickSettingsHandler {
    pub fn new(
        perf: Rc<PerformanceHandler>,
        sys: Rc<SystemTweaksHandler>,
        updates: Rc<WindowsUpdateTweaker>,
    ) -> Self {
        QuickSettingsHandler { perf, sys, updates }
    }

    /// The system tweaks handler the preset uses.
    pub fn system_tweaks(&self) -> &SystemTweaksHandler {
        &self.sys
    }

    /// The command that reads the file manager's `show-hidden-files` setting.
    pub fn hidden_files_query_command(&self) -> (r: SystemCommand)
        ensures
            r@ == cmd(
                "gsettings"@,
                seq!["get"@, "org.gnome.nautilus.preferences"@, "show-hidden-files"@],
            ),
    {
        let c = SystemCommand::new(
            "gsettings",
            &["get", "org.gnome.nautilus.preferences", "show-hidden-files"],
        );
        assert(c@.args =~= seq!["get"@, "org.gnome.nautilus.preferences"@, "show-hidden-files"@]);
        c
    }

    /// How many quick tweaks are still to apply.
    pub fn applicable_tweaks_count(&self, telemetry_disabled: bool, hidden_files: Option<Vec<u8>>) -> (r: usize)
        ensures
            r == applicable_tweaks(
                telemetry_disabled,
                match hidden_files {
                    Some(b) => Some(b@),
                    None => None,
                },
            ),
    {
        let mut count: usize = 0;
        if !telemetry_disabled {
            count = count + 1;
        }
        if let Some(bytes) = hidden_files {
            let text = decode_lossy(bytes.as_slice());
            if str_contains(text.as_str(), "false") {
                count = count + 1;
            }
        }
        count
    }

    /// The commands of the MakuOS preset.
    pub fn makuos_preset_commands(&self) -> (r: Vec<SystemCommand>)
        ensures
            command_views(r@) == makuos_plan(),
    {
        let mut r = self.sys.telemetry_commands(true);
        let mut u = self.updates.toggle_updates_commands(true);
        r.append(&mut u);
        let mut settings: Vec<SystemCommand> = Vec::new();
        let c = SystemCommand::new(
            "gsettings",
            &["set", "org.gnome.nautilus.preferences", "show-hidden-files", "true"],
        );
        assert(c@.args =~= seq!["set"@, "org.gnome.nautilus.preferences"@, "show-hidden-files"@, "true"@]);
        settings.push(c);
        let c = SystemCommand::new(
            "gsettings",
            &["set", "org.gnome.desktop.privacy", "report-technical-problems", "false"],
        );
        assert(c@.args =~= seq!["set"@, "org.gnome.desktop.privacy"@, "report-technical-problems"@, "false"@]);
        settings.push(c);
        let c = SystemCommand::new(
            "gsettings",
            &["set", "org.gnome.desktop.privacy", "send-software-usage-stats", "false"],
        );
        assert(c@.args =~= seq!["set"@, "org.gnome.desktop.privacy"@, "send-software-usage-stats"@, "false"@]);
        settings.push(c);
        let c = SystemCommand::new(
            "gsettings",
            &["set", "org.gnome.desktop.interface", "enable-animations", "true"],
        );
        assert(c@.args =~= seq!["set"@, "org.gnome.desktop.interface"@, "enable-animations"@, "true"@]);
        settings.push(c);
        let c = SystemCommand::new("pkexec", &["sysctl", "vm.swappiness=10"]);
        assert(c@.args =~= seq!["sysctl"@, "vm.swappiness=10"@]);
        settings.push(c);
        assert(command_views(settings@) =~= preset_settings_plan());
        r.append(&mut settings);
        assert(command_views(r@) =~= makuos_plan());
        r
    }
}


/// The MakuOS preset only turns GNOME's privacy reporting off: every
/// `gsettings` command of the preset under `org.gnome.desktop.privacy` is a
/// `set` of its key to `false`, and the preset does set both
/// `report-technical-problems` and `send-software-usage-stats` so.
pub proof fn law_preset_turns_privacy_reporting_off()
    ensures
        forall|i: int|
            #![trigger makuos_plan()[i]]
            0 <= i < makuos_plan().len() && makuos_plan()[i].program == "gsettings"@
                && makuos_plan()[i].args.len() >= 2 && makuos_plan()[i].args[1]
                == "org.gnome.desktop.privacy"@ ==> makuos_plan()[i].args.len() == 4
                && makuos_plan()[i].args[0] == "set"@ && makuos_plan()[i].args[3] == "false"@,
        exists|i: int|
            0 <= i < makuos_plan().len() && #[trigger] makuos_plan()[i] == cmd(
                "gsettings"@,
                seq!["set"@, "org.gnome.desktop.privacy"@, "send-software-usage-stats"@, "false"@],
            ),
        exists|i: int|
            0 <= i < makuos_plan().len() && #[trigger] makuos_plan()[i] == cmd(
                "gsettings"@,
                seq!["set"@, "org.gnome.desktop.privacy"@, "report-technical-problems"@, "false"@],
            ),
{
    reveal_strlit("gsettings");
    reveal_strlit("systemctl");
    reveal_strlit("dconf");
    reveal_strlit("pkexec");
    reveal_strlit("org.gnome.desktop.privacy");
    reveal_strlit("org.gnome.nautilus.preferences");
    reveal_strlit("org.gnome.desktop.interface");
    let t = telemetry_plan(true);
    let u = updates_plan(true);
    let p = preset_settings_plan();
    let plan = makuos_plan();
    assert(plan == t + u + p);
    assert(t.len() == 5);
    assert(u.len() == 6) by {
        reveal_with_fuel(crate::windows_update::units_plan, 4);
    }
    assert forall|i: int| 0 <= i < t.len() implies #[trigger] t[i].program != "gsettings"@ by {
        if i < 4 {
            assert(t[i].program == "systemctl"@);
            assert(t[i].program[0] != "gsettings"@[0]);
        } else {
            assert(t[i].program == "dconf"@);
            assert(t[i].program.len() != "gsettings"@.len());
        }
    }
    assert forall|i: int| 0 <= i < u.len() implies #[trigger] u[i].program == "pkexec"@ by {
        reveal_with_fuel(crate::windows_update::units_plan, 4);
    }
    assert("pkexec"@.len() != "gsettings"@.len());
    assert("org.gnome.nautilus.preferences"@.len() != "org.gnome.desktop.privacy"@.len());
    assert("org.gnome.desktop.interface"@.len() != "org.gnome.desktop.privacy"@.len());
    assert(plan[(t.len() + u.len() + 1) as int] == p[1]);
    assert(plan[(t.len() + u.len() + 2) as int] == p[2]);
    assert forall|i: int|
        #![trigger plan[i]]
        0 <= i < plan.len() && plan[i].program == "gsettings"@ && plan[i].args.len() >= 2
            && plan[i].args[1] == "org.gnome.desktop.privacy"@ implies plan[i].args.len() == 4
        && plan[i].args[0] == "set"@ && plan[i].args[3] == "false"@ by {
        if i < t.len() {
            assert(plan[i] == t[i]);
        } else if i < t.len() + u.len() {
            assert(plan[i] == u[i - t.len()]);
        } else {
            assert(plan[i] == p[i - t.len() - u.len()]);
        }
    }
}

} // verus!
