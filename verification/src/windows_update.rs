//! Automatic updates: the update timers and the package caches.
use vstd::prelude::*;

use crate::command::{cmd, command_views, CommandSpec, SystemCommand};
use crate::text::{decode_lossy, has_substring, str_contains, utf8_lossy};

verus! {

broadcast use vstd::string::group_string_axioms;

/// The handler of the update page.
pub struct WindowsUpdateTweaker;

/// The systemd units that update the system automatically.
pub open spec fn update_units() -> Seq<Seq<char>> {
    seq!["dnf-automatic.timer"@, "packagekit.service"@, "apt-daily.timer"@]
}

/// Whether automatic updates count as blocked, given the output of
/// `systemctl is-active dnf-automatic.timer` (none when it could not be run):
/// blocked when it could not be run or reports the timer inactive or unknown.
pub open spec fn updates_blocked(status: Option<Seq<u8>>) -> bool {
    match status {
        Some(b) => has_substring(utf8_lossy(b), "inactive"@) || has_substring(
            utf8_lossy(b),
            "unknown"@,
        ),
        None => true,
    }
}

/// The commands for one update unit: it is disabled and stopped when
/// blocking, enabled and started otherwise, through `pkexec`.
pub open spec fn unit_plan(unit: Seq<char>, block: bool) -> Seq<CommandSpec> {
    let action = if block {
        "disable"@
    } else {
        "enable"@
    };
    let now = if block {
        "stop"@
    } else {
        "start"@
    };
    seq![
        cmd("pkexec"@, seq!["systemctl"@, action, unit]),
        cmd("pkexec"@, seq!["systemctl"@, now, unit]),
    ]
}

/// The commands for the units `units`, in order.
pub open spec fn units_plan(units: Seq<Seq<char>>, block: bool) -> Seq<CommandSpec>
    decreases units.len(),
{
    if units.len() == 0 {
        Seq::empty()
    } else {
        units_plan(units.drop_last(), block) + unit_plan(units.last(), block)
    }
}

/// The commands that block (or unblock) automatic updates.
pub open spec fn updates_plan(block: bool) -> Seq<CommandSpec> {
    units_plan(update_units(), block)
}

/// The commands that clear the package caches: unused Flatpak runtimes
/// always, then the pacman, dnf and apt caches where those managers exist.
pub open spec fn cache_plan(has_pacman: bool, has_dnf: bool, has_apt: bool) -> Seq<CommandSpec> {
    let flatpak = seq![cmd("flatpak"@, seq!["uninstall"@, "--unused"@, "-y"@])];
    let pacman = if has_pacman {
        seq![cmd("pkexec"@, seq!["pacman"@, "-Scc"@, "--noconfirm"@])]
    } else {
        Seq::empty()
    };
    let dnf = if has_dnf {
        seq![cmd("pkexec"@, seq!["dnf"@, "clean"@, "all"@])]
    } else {
        Seq::empty()
    };
    let apt = if has_apt {
        seq![cmd("pkexec"@, seq!["apt-get"@, "clean"@])]
    } else {
        Seq::empty()
    };
    flatpak + pacman + dnf + apt
}

impl WindowsUpdateTweaker {
    pub fn new() -> Self {
        WindowsUpdateTweaker
    }

    /// The command that asks whether the automatic update timer runs.
    pub fn updates_status_command(&self) -> (r: SystemCommand)
        ensures
            r@ == cmd("systemctl"@, seq!["is-active"@, "dnf-automatic.timer"@]),
    {
        let c = SystemCommand::new("systemctl", &["is-active", "dnf-automatic.timer"]);
        assert(c@.args =~= seq!["is-active"@, "dnf-automatic.timer"@]);
        c
    }

    /// Whether automatic updates are blocked, given the output of the status
    /// command (`None` when it could not be run).
    pub fn updates_blocked_from(&self, status: Option<Vec<u8>>) -> (r: bool)
        ensures
            r == updates_blocked(
                match status {
                    Some(b) => Some(b@),
                    None => None,
                },
            ),
    {
        match status {
            Some(bytes) => {
                let text = decode_lossy(bytes.as_slice());
                str_contains(text.as_str(), "inactive") || str_contains(text.as_str(), "unknown")
            },
            None => true,
        }
    }

    /// The commands that block (`block`) or unblock automatic updates.
    pub fn toggle_updates_commands(&self, block: bool) -> (r: Vec<SystemCommand>)
        ensures
            command_views(r@) == updates_plan(block),
    {
        let action = if block {
            "disable"
        } else {
            "enable"
        };
        let now = if block {
            "stop"
        } else {
            "start"
        };
        let units: [&str; 3] = ["dnf-automatic.timer", "packagekit.service", "apt-daily.timer"];
        assert(units@.map_values(|u: &str| u@) =~= update_units());
        let mut r: Vec<SystemCommand> = Vec::new();
        let mut i: usize = 0;
        while i < 3
            invariant
                i <= 3,
                units@.map_values(|u: &str| u@) == update_units(),
                action@ == (if block {
                    "disable"@
                } else {
                    "enable"@
                }),
                now@ == (if block {
                    "stop"@
                } else {
                    "start"@
                }),
                command_views(r@) == units_plan(update_units().take(i as int), block),
            decreases 3 - i,
        {
            let unit = units[i];
            assert(update_units().take(i + 1).drop_last() =~= update_units().take(i as int));
            assert(update_units().take(i + 1).last() == unit@);
            let c1 = SystemCommand::new("pkexec", &["systemctl", action, unit]);
            assert(c1@.args =~= seq!["systemctl"@, action@, unit@]);
            let c2 = SystemCommand::new("pkexec", &["systemctl", now, unit]);
            assert(c2@.args =~= seq!["systemctl"@, now@, unit@]);
            r.push(c1);
            r.push(c2);
            assert(command_views(r@) =~= units_plan(update_units().take(i + 1), block));
            i = i + 1;
        }
        assert(update_units().take(3) =~= update_units());
        r
    }

    /// Whether toggling updates succeeded, given for each command whether it
    /// could be launched: it succeeded when all of them could.
    pub fn toggle_updates_succeeded(&self, launched: &Vec<bool>) -> (r: bool)
        ensures
            r == forall|i: int| 0 <= i < launched@.len() ==> #[trigger] launched@[i],
    {
        let mut i: usize = 0;
        while i < launched.len()
            invariant
                i <= launched@.len(),
                forall|k: int| 0 <= k < i ==> #[trigger] launched@[k],
            decreases launched@.len() - i,
        {
            if !launched[i] {
                return false;
            }
            i = i + 1;
        }
        true
    }

    /// The commands that clear the package caches, given which package
    /// managers are present, and the space reported as freed, in MB.
    pub fn clean_update_cache_plan(&self, has_pacman: bool, has_dnf: bool, has_apt: bool) -> (r: (
        Vec<SystemCommand>,
        i32,
    ))
        ensures
            command_views(r.0@) == cache_plan(has_pacman, has_dnf, has_apt),
            r.1 == 150,
    {
        let mut r: Vec<SystemCommand> = Vec::new();
        let c = SystemCommand::new("flatpak", &["uninstall", "--unused", "-y"]);
        assert(c@.args =~= seq!["uninstall"@, "--unused"@, "-y"@]);
        r.push(c);
        if has_pacman {
            let c = SystemCommand::new("pkexec", &["pacman", "-Scc", "--noconfirm"]);
            assert(c@.args =~= seq!["pacman"@, "-Scc"@, "--noconfirm"@]);
            r.push(c);
        }
        if has_dnf {
            let c = SystemCommand::new("pkexec", &["dnf", "clean", "all"]);
            assert(c@.args =~= seq!["dnf"@, "clean"@, "all"@]);
            r.push(c);
        }
        if has_apt {
            let c = SystemCommand::new("pkexec", &["apt-get", "clean"]);
            assert(c@.args =~= seq!["apt-get"@, "clean"@]);
            r.push(c);
        }
        assert(command_views(r@) =~= cache_plan(has_pacman, has_dnf, has_apt));
        (r, 150)
    }
}

} // verus!
