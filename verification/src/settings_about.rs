//! The "About" settings: version, authors, project page, and the Win+R
//! launch aliases.
use vstd::prelude::*;

use crate::command::{cmd, command_views, CommandSpec, SystemCommand};
use crate::text::{
    chars_of, concat, decode_lossy, string_of_range, trim, trim_bounds, utf8_lossy,
};

verus! {

broadcast use vstd::string::group_string_axioms;

/// The version, authors and project page shown on the settings page.
pub struct SettingsAboutHandler {
    pub version: String,
    pub authors: String,
    pub github_url: String,
}

/// The build number stored in the build resource: its text, trimmed.
pub open spec fn build_number(resource: Seq<u8>) -> Seq<char> {
    trim(utf8_lossy(resource))
}

/// The registry key that registers `alias` as a launch alias.
pub open spec fn app_paths_key(alias: Seq<char>) -> Seq<char> {
    "HKLM\\SOFTWARE\\Microsoft\\Windows\\CurrentVersion\\App Paths\\"@ + alias
}

/// The launch aliases of the program.
pub open spec fn winr_aliases() -> Seq<Seq<char>> {
    seq!["makut.exe"@, "maku.exe"@, "mt.exe"@]
}

/// The registry commands for one alias: when enabling, the key's default
/// value is set to the program and its `Path` value to the program's
/// directory; when disabling, the key is deleted.
pub open spec fn alias_plan(alias: Seq<char>, enable: bool, exe: Seq<char>, dir: Seq<char>) -> Seq<
    CommandSpec,
> {
    let key = app_paths_key(alias);
    if enable {
        seq![
            cmd("reg"@, seq!["add"@, key, "/f"@, "/ve"@, "/t"@, "REG_SZ"@, "/d"@, exe]),
            cmd("reg"@, seq!["add"@, key, "/v"@, "Path"@, "/f"@, "/t"@, "REG_SZ"@, "/d"@, dir]),
        ]
    } else {
        seq![cmd("reg"@, seq!["delete"@, key, "/f"@])]
    }
}

/// The registry commands for the aliases `aliases`, in order.
pub open spec fn aliases_plan(
    aliases: Seq<Seq<char>>,
    enable: bool,
    exe: Seq<char>,
    dir: Seq<char>,
) -> Seq<CommandSpec>
    decreases aliases.len(),
{
    if aliases.len() == 0 {
        Seq::empty()
    } else {
        aliases_plan(aliases.drop_last(), enable, exe, dir) + alias_plan(
            aliases.last(),
            enable,
            exe,
            dir,
        )
    }
}

impl SettingsAboutHandler {
    /// The settings of release 5.7.3, with the build number taken from the
    /// build resource `build_resource`.
    pub fn new(build_resource: &[u8]) -> (r: Self)
        ensures
            r.version@ == "5.7.3 ("@ + build_number(build_resource@) + ")"@,
            r.authors@ == "Minish777"@,
            r.github_url@ == "https://github.com/Minish777"@,
    {
        let build = Self::get_build_number(build_resource);
        let v = concat("5.7.3 (", build.as_str());
        let version = concat(v.as_str(), ")");
        SettingsAboutHandler {
            version,
            authors: "Minish777".to_string(),
            github_url: "https://github.com/Minish777".to_string(),
        }
    }

    /// The build number in the build resource: its text, trimmed.
    pub fn get_build_number(resource: &[u8]) -> (r: String)
        ensures
            r@ == build_number(resource@),
    {
        let text = decode_lossy(resource);
        let cs = chars_of(text.as_str());
        let (lo, hi) = trim_bounds(&cs);
        string_of_range(&cs, lo, hi)
    }

    /// The command that opens the project page in the browser: `cmd /c start`
    /// on Windows, `xdg-open` on Linux, and none on other systems.
    pub fn open_github_command(&self, on_windows: bool, on_linux: bool) -> (r: Option<SystemCommand>)
        ensures
            match r {
                Some(c) => c@ == if on_windows {
                    cmd("cmd"@, seq!["/c"@, "start"@, self.github_url@])
                } else {
                    cmd("xdg-open"@, seq![self.github_url@])
                } && (on_windows || on_linux),
                None => !on_windows && !on_linux,
            },
    {
        if on_windows {
            let c = SystemCommand::new("cmd", &["/c", "start", self.github_url.as_str()]);
            assert(c@.args =~= seq!["/c"@, "start"@, self.github_url@]);
            Some(c)
        } else if on_linux {
            let c = SystemCommand::new("xdg-open", &[self.github_url.as_str()]);
            assert(c@.args =~= seq![self.github_url@]);
            Some(c)
        } else {
            None
        }
    }

    /// The registry query whose success shows that the launch alias is installed.
    pub fn winr_alias_query_command(&self) -> (r: SystemCommand)
        ensures
            r@ == cmd("reg"@, seq!["query"@, app_paths_key("makut.exe"@)]),
    {
        let key = concat("HKLM\\SOFTWARE\\Microsoft\\Windows\\CurrentVersion\\App Paths\\", "makut.exe");
        let c = SystemCommand::new("reg", &["query", key.as_str()]);
        assert(c@.args =~= seq!["query"@, app_paths_key("makut.exe"@)]);
        c
    }

    /// The registry commands that install (`enable`) or remove the launch
    /// aliases, for the program at `exe` in the directory `dir`.
    pub fn winr_alias_commands(&self, enable: bool, exe: &str, dir: &str) -> (r: Vec<
        SystemCommand,
    >)
        ensures
            command_views(r@) == aliases_plan(winr_aliases(), enable, exe@, dir@),
    {
        let aliases: [&str; 3] = ["makut.exe", "maku.exe", "mt.exe"];
        assert(aliases@.map_values(|a: &str| a@) =~= winr_aliases());
        let mut r: Vec<SystemCommand> = Vec::new();
        let mut i: usize = 0;
        while i < 3
            invariant
                i <= 3,
                aliases@.map_values(|a: &str| a@) == winr_aliases(),
                command_views(r@) == aliases_plan(winr_aliases().take(i as int), enable, exe@, dir@),
            decreases 3 - i,
        {
            let alias = aliases[i];
            assert(winr_aliases().take(i + 1).drop_last() =~= winr_aliases().take(i as int));
            assert(winr_aliases().take(i + 1).last() == alias@);
            let key = concat("HKLM\\SOFTWARE\\Microsoft\\Windows\\CurrentVersion\\App Paths\\", alias);
            let k = key.as_str();
            if enable {
                let c1 = SystemCommand::new("reg", &["add", k, "/f", "/ve", "/t", "REG_SZ", "/d", exe]);
                assert(c1@.args =~= seq!["add"@, k@, "/f"@, "/ve"@, "/t"@, "REG_SZ"@, "/d"@, exe@]);
                let c2 = SystemCommand::new(
                    "reg",
                    &["add", k, "/v", "Path", "/f", "/t", "REG_SZ", "/d", dir],
                );
                assert(c2@.args =~= seq!["add"@, k@, "/v"@, "Path"@, "/f"@, "/t"@, "REG_SZ"@, "/d"@, dir@]);
                r.push(c1);
                r.push(c2);
            } else {
                let c = SystemCommand::new("reg", &["delete", k, "/f"]);
                assert(c@.args =~= seq!["delete"@, k@, "/f"@]);
                r.push(c);
            }
            assert(command_views(r@) =~= aliases_plan(winr_aliases().take(i + 1), enable, exe@, dir@));
            i = i + 1;
        }
        assert(winr_aliases().take(3) =~= winr_aliases());
        r
    }
}

} // verus!
