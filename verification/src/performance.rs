//! Performance page: the processor power profile and frequency limit.
use vstd::prelude::*;

use crate::command::{cmd, SystemCommand};
use crate::text::{decimal, decimal_string, parse_u32, parse_u32_chars, trim, trimmed_chars};

verus! {

broadcast use vstd::string::group_string_axioms;

/// The handler of the performance page.
pub struct PerformanceHandler {}

/// What applying a processor limit does: switch the power profile, and
/// write the limit to the Intel P-state control file where that file exists.
pub struct ThrottlePlan {
    pub profile_command: SystemCommand,
    pub pstate_path: String,
    pub pstate_value: String,
}

/// The Intel P-state file that caps the processor's performance, in percent.
pub open spec fn pstate_path() -> Seq<char> {
    "/sys/devices/system/cpu/intel_pstate/max_perf_pct"@
}

/// The power profile chosen for a limit of `percent`: power saving up to 50,
/// balanced up to 85, full performance above.
pub open spec fn power_profile(percent: u32) -> Seq<char> {
    if percent <= 50 {
        "power-saver"@
    } else if percent <= 85 {
        "balanced"@
    } else {
        "performance"@
    }
}

/// The limits that are applied at all: 10 to 100 percent.
pub open spec fn throttle_in_range(percent: u32) -> bool {
    10 <= percent <= 100
}

/// The limit read back from the P-state file's contents (none when it could
/// not be read): the trimmed contents as a `u32`, else 100.
pub open spec fn throttle_reading(content: Option<Seq<char>>) -> u32 {
    match content {
        Some(c) => match parse_u32(trim(c)) {
            Some(v) => v,
            None => 100,
        },
        None => 100,
    }
}

impl PerformanceHandler {
    pub fn new() -> Self {
        PerformanceHandler {  }
    }

    /// Switching GameMode; there is nothing to do on this system.
    pub fn toggle_gamemode(&self, enable: bool) {
    }

    /// Switching the graphics environment tweaks; there is nothing to do on this system.
    pub fn toggle_gfx_env(&self, enable: bool) {
    }

    /// The path of the Intel P-state limit file.
    pub fn pstate_path(&self) -> (r: String)
        ensures
            r@ == pstate_path(),
    {
        "/sys/devices/system/cpu/intel_pstate/max_perf_pct".to_string()
    }

    /// What applying a limit of `percent` does; nothing (`None`) outside 10 to 100.
    pub fn cpu_throttle_plan(&self, percent: u32) -> (r: Option<ThrottlePlan>)
        ensures
            match r {
                Some(p) => {
                    &&& throttle_in_range(percent)
                    &&& p.profile_command@ == cmd(
                        "powerprofilesctl"@,
                        seq!["set"@, power_profile(percent)],
                    )
                    &&& p.pstate_path@ == pstate_path()
                    &&& p.pstate_value@ == decimal(percent as nat)
                },
                None => !throttle_in_range(percent),
            },
    {
        if percent < 10 || percent > 100 {
            return None;
        }
        let profile = if percent <= 50 {
            "power-saver"
        } else if percent <= 85 {
            "balanced"
        } else {
            "performance"
        };
        let c = SystemCommand::new("powerprofilesctl", &["set", profile]);
        assert(c@.args =~= seq!["set"@, power_profile(percent)]);
        Some(
            ThrottlePlan {
                profile_command: c,
                pstate_path: self.pstate_path(),
                pstate_value: decimal_string(percent as u64),
            },
        )
    }

    /// The current limit, from the contents of the P-state file (`None` when
    /// it could not be read): the trimmed contents as a number, else 100.
    pub fn throttle_from_reading(&self, content: Option<String>) -> (r: u32)
        ensures
            r == throttle_reading(
                match content {
                    Some(c) => Some(c@),
                    None => None,
                },
            ),
    {
        match content {
            Some(c) => {
                let t = trimmed_chars(c.as_str());
                match parse_u32_chars(&t) {
                    Some(v) => v,
                    None => 100,
                }
            },
            None => 100,
        }
    }
}

/// A decimal rendering has no whitespace to trim.
proof fn lemma_trim_decimal(n: nat)
    ensures
        trim(decimal(n)) == decimal(n),
{
    let d = decimal(n);
    crate::text::lemma_decimal_digits(n);
    assert(!crate::text::is_ws(d[0]));
    assert(!crate::text::is_ws(d[d.len() - 1]));
    assert(crate::text::first_non_ws(d, 0) == 0);
    assert(crate::text::last_non_ws_end(d, d.len() as int) == d.len());
    assert(d.subrange(0, d.len() as int) =~= d);
}

/// Reading back the value that applying a limit writes gives that limit.
pub proof fn law_throttle_read_back(percent: u32)
    requires
        throttle_in_range(percent),
    ensures
        throttle_reading(Some(decimal(percent as nat))) == percent,
{
    lemma_trim_decimal(percent as nat);
    crate::text::lemma_parse_decimal(percent as nat);
}

} // verus!
