//! Advanced page: services, radios and the firewall.
use vstd::prelude::*;

use crate::command::{cmd, SystemCommand};
use crate::text::str_eq;

verus! {

broadcast use vstd::string::group_string_axioms;

/// The handler of the advanced page.
pub struct AdvancedHandler;

/// The `systemctl` actions a service may be given.
pub open spec fn valid_service_action(action: Seq<char>) -> bool {
    ||| action == "start"@
    ||| action == "stop"@
    ||| action == "restart"@
    ||| action == "enable"@
    ||| action == "disable"@
}

impl AdvancedHandler {
    pub fn new() -> Self {
        AdvancedHandler
    }

    /// The command that applies `action` to the service `name`: `None` when
    /// `action` is not one of start, stop, restart, enable and disable.
    pub fn control_service_command(&self, name: &str, action: &str) -> (r: Option<SystemCommand>)
        ensures
            match r {
                Some(c) => valid_service_action(action@) && c@ == cmd(
                    "systemctl"@,
                    seq![action@, name@],
                ),
                None => !valid_service_action(action@),
            },
    {
        if !(str_eq(action, "start") || str_eq(action, "stop") || str_eq(action, "restart")
            || str_eq(action, "enable") || str_eq(action, "disable")) {
            return None;
        }
        let c = SystemCommand::new("systemctl", &[action, name]);
        assert(c@.args =~= seq![action@, name@]);
        Some(c)
    }

    /// The command that disables the Bluetooth service.
    pub fn disable_bluetooth_command(&self) -> (r: SystemCommand)
        ensures
            r@ == cmd("systemctl"@, seq!["disable"@, "bluetooth"@]),
    {
        let c = SystemCommand::new("systemctl", &["disable", "bluetooth"]);
        assert(c@.args =~= seq!["disable"@, "bluetooth"@]);
        c
    }

    /// The command that turns the Wi-Fi radio off.
    pub fn disable_wifi_command(&self) -> (r: SystemCommand)
        ensures
            r@ == cmd("nmcli"@, seq!["radio"@, "wifi"@, "off"@]),
    {
        let c = SystemCommand::new("nmcli", &["radio", "wifi", "off"]);
        assert(c@.args =~= seq!["radio"@, "wifi"@, "off"@]);
        c
    }

    /// The command that enables the firewall service.
    pub fn enable_firewall_command(&self) -> (r: SystemCommand)
        ensures
            r@ == cmd("systemctl"@, seq!["enable"@, "ufw"@]),
    {
        let c = SystemCommand::new("systemctl", &["enable", "ufw"]);
        assert(c@.args =~= seq!["enable"@, "ufw"@]);
        c
    }
}

} // verus!
