//! The package manager page: reading the list of installed Flatpak
//! applications and choosing how a package is removed.
use vstd::prelude::*;

use crate::command::{cmd, SystemCommand};
use crate::text::{
    chars_of, decode_lossy, has_substring, join_from, join_spaces, lines, lines_of,
    str_contains, string_of_chars, string_views, utf8_lossy, views, words, words_of,
};

verus! {

broadcast use vstd::string::group_string_axioms;

/// An installed package.
#[derive(Clone)]
pub struct LinuxPackageItem {
    pub id: String,
    pub name: String,
    pub category: String,
}

/// What a package entry holds.
pub struct PackageSpec {
    pub id: Seq<char>,
    pub name: Seq<char>,
    pub category: Seq<char>,
}

impl View for LinuxPackageItem {
    type V = PackageSpec;

    open spec fn view(&self) -> PackageSpec {
        PackageSpec { id: self.id@, name: self.name@, category: self.category@ }
    }
}

/// The views of a list of packages.
pub open spec fn package_views(v: Seq<LinuxPackageItem>) -> Seq<PackageSpec> {
    v.map_values(|p: LinuxPackageItem| p@)
}

/// The package a line of `flatpak list` output names: its first word is the
/// application id, the remaining words joined by spaces are the name; a line
/// of fewer than two words names none.
pub open spec fn package_of_line(line: Seq<char>) -> Option<PackageSpec> {
    let ws = words(line);
    if ws.len() >= 2 {
        Some(
            PackageSpec {
                id: ws[0],
                name: join_spaces(ws.subrange(1, ws.len() as int)),
                category: "Flatpak"@,
            },
        )
    } else {
        None
    }
}

/// The packages the lines name, in order.
pub open spec fn packages_of_lines(ls: Seq<Seq<char>>) -> Seq<PackageSpec>
    decreases ls.len(),
{
    if ls.len() == 0 {
        Seq::empty()
    } else {
        let prev = packages_of_lines(ls.drop_last());
        match package_of_line(ls.last()) {
            Some(p) => prev.push(p),
            None => prev,
        }
    }
}

/// The entries shown when no Flatpak application was found.
pub open spec fn default_packages() -> Seq<PackageSpec> {
    seq![
        PackageSpec { id: "org.gnome.Tour"@, name: "GNOME Tour"@, category: "System"@ },
        PackageSpec { id: "tracker3"@, name: "Tracker3 Indexer"@, category: "Services"@ },
    ]
}

/// The package list shown for the output of `flatpak list` (none when it
/// could not be run): the packages its lines name, or the default entries when
/// there are none.
pub open spec fn installed_packages(listing: Option<Seq<u8>>) -> Seq<PackageSpec> {
    let found = match listing {
        Some(b) => packages_of_lines(lines(utf8_lossy(b))),
        None => Seq::empty(),
    };
    if found.len() == 0 {
        default_packages()
    } else {
        found
    }
}

/// The package list is never empty: when nothing was found, the default
/// entries are shown.
pub proof fn law_package_list_never_empty(listing: Option<Seq<u8>>)
    ensures
        installed_packages(listing).len() > 0,
{
}

/// How many of the first `k` lines have at least two words.
pub open spec fn package_lines_before(ls: Seq<Seq<char>>, k: int) -> nat
    decreases k,
{
    if k <= 0 {
        0
    } else {
        package_lines_before(ls, k - 1) + if words(ls[k - 1]).len() >= 2 {
            1nat
        } else {
            0nat
        }
    }
}

proof fn lemma_packages_by_count(ls: Seq<Seq<char>>, k: int)
    requires
        0 <= k <= ls.len(),
    ensures
        packages_of_lines(ls.take(k)).len() == package_lines_before(ls, k),
        forall|j: int|
            #![trigger ls[j]]
            0 <= j < k && words(ls[j]).len() >= 2 ==> package_lines_before(ls, j)
                < package_lines_before(ls, k) && packages_of_lines(ls.take(k))[package_lines_before(
                ls,
                j,
            ) as int] == (PackageSpec {
                id: words(ls[j])[0],
                name: join_spaces(words(ls[j]).subrange(1, words(ls[j]).len() as int)),
                category: "Flatpak"@,
            }),
    decreases k,
{
    if k > 0 {
        lemma_packages_by_count(ls, k - 1);
        assert(ls.take(k).drop_last() =~= ls.take(k - 1));
        assert(ls.take(k).last() == ls[k - 1]);
        let prev = packages_of_lines(ls.take(k - 1));
        let all = packages_of_lines(ls.take(k));
        assert forall|j: int|
            #![trigger ls[j]]
            0 <= j < k && words(ls[j]).len() >= 2 implies package_lines_before(ls, j)
            < package_lines_before(ls, k) && all[package_lines_before(ls, j) as int] == (PackageSpec {
            id: words(ls[j])[0],
            name: join_spaces(words(ls[j]).subrange(1, words(ls[j]).len() as int)),
            category: "Flatpak"@,
        }) by {
            if j < k - 1 {
                assert(all[package_lines_before(ls, j) as int] == prev[package_lines_before(
                    ls,
                    j,
                ) as int]);
            }
        }
    }
}

/// Every line of the `flatpak list` output with at least two words is a
/// package: when there are such lines, the list has one entry per such line,
/// in order, whose id is the line's first word, whose name is the other words
/// joined by single spaces, and whose category is `Flatpak`; when there are
/// none, the list is the two default entries.
pub proof fn law_package_list_names_each_line(b: Seq<u8>)
    ensures
        package_lines_before(lines(utf8_lossy(b)), lines(utf8_lossy(b)).len() as int) > 0
            ==> installed_packages(Some(b)).len() == package_lines_before(
            lines(utf8_lossy(b)),
            lines(utf8_lossy(b)).len() as int,
        ),
        package_lines_before(lines(utf8_lossy(b)), lines(utf8_lossy(b)).len() as int) == 0
            ==> installed_packages(Some(b)) == seq![
            (PackageSpec { id: "org.gnome.Tour"@, name: "GNOME Tour"@, category: "System"@ }),
            (PackageSpec { id: "tracker3"@, name: "Tracker3 Indexer"@, category: "Services"@ }),
        ],
        forall|j: int|
            #![trigger lines(utf8_lossy(b))[j]]
            0 <= j < lines(utf8_lossy(b)).len() && words(lines(utf8_lossy(b))[j]).len() >= 2
                ==> installed_packages(Some(b))[package_lines_before(lines(utf8_lossy(b)), j) as int]
                == (PackageSpec {
                id: words(lines(utf8_lossy(b))[j])[0],
                name: join_spaces(
                    words(lines(utf8_lossy(b))[j]).subrange(
                        1,
                        words(lines(utf8_lossy(b))[j]).len() as int,
                    ),
                ),
                category: "Flatpak"@,
            }),
{
    let ls = lines(utf8_lossy(b));
    lemma_packages_by_count(ls, ls.len() as int);
    assert(ls.take(ls.len() as int) =~= ls);
}

/// Without `flatpak list` output, the list is the two default entries.
pub proof fn law_package_list_without_output()
    ensures
        installed_packages(None) == seq![
            (PackageSpec { id: "org.gnome.Tour"@, name: "GNOME Tour"@, category: "System"@ }),
            (PackageSpec { id: "tracker3"@, name: "Tracker3 Indexer"@, category: "Services"@ }),
        ],
{
}

/// The handler of the package manager page.
pub struct PackageManagerHandler;

impl PackageManagerHandler {
    pub fn new() -> Self {
        PackageManagerHandler
    }

    /// The command that lists the installed Flatpak applications.
    pub fn list_command(&self) -> (r: SystemCommand)
        ensures
            r@ == cmd("flatpak"@, seq!["list"@, "--columns=application,name"@]),
    {
        let r = SystemCommand::new("flatpak", &["list", "--columns=application,name"]);
        assert(r@.args =~= seq!["list"@, "--columns=application,name"@]);
        r
    }

    /// The installed packages, read from the output of the list command
    /// (`None` when it could not be run).
    pub fn parse_installed_packages(&self, listing: Option<Vec<u8>>) -> (r: Vec<
        LinuxPackageItem,
    >)
        ensures
            package_views(r@) == installed_packages(
                match listing {
                    Some(b) => Some(b@),
                    None => None,
                },
            ),
    {
        let mut packages: Vec<LinuxPackageItem> = Vec::new();
        if let Some(bytes) = listing {
            let text = decode_lossy(bytes.as_slice());
            let cs = chars_of(text.as_str());
            let ls = lines_of(&cs);
            let ghost lv = views(ls@);
            let mut i: usize = 0;
            while i < ls.len()
                invariant
                    i <= ls@.len(),
                    lv == views(ls@),
                    package_views(packages@) == packages_of_lines(lv.take(i as int)),
                decreases ls@.len() - i,
            {
                assert(lv.take(i + 1).drop_last() =~= lv.take(i as int));
                assert(lv.take(i + 1).last() == ls@[i as int]@);
                let parts = words_of(&ls[i]);
                if parts.len() >= 2 {
                    let strs = Self::strings_of(&parts);
                    assert(strs@.len() == string_views(strs@).len());
                    let item = LinuxPackageItem {
                        id: string_of_chars(&parts[0]),
                        name: join_from(&strs, 1),
                        category: "Flatpak".to_string(),
                    };
                    assert(views(parts@)[0] == parts@[0]@);
                    packages.push(item);
                }
                assert(package_views(packages@) =~= packages_of_lines(lv.take(i + 1)));
                i = i + 1;
            }
            assert(lv.take(ls@.len() as int) =~= lv);
        }
        if packages.len() == 0 {
            packages.push(
                LinuxPackageItem {
                    id: "org.gnome.Tour".to_string(),
                    name: "GNOME Tour".to_string(),
                    category: "System".to_string(),
                },
            );
            packages.push(
                LinuxPackageItem {
                    id: "tracker3".to_string(),
                    name: "Tracker3 Indexer".to_string(),
                    category: "Services".to_string(),
                },
            );
            assert(package_views(packages@) =~= default_packages());
        }
        packages
    }

    fn strings_of(parts: &Vec<Vec<char>>) -> (r: Vec<String>)
        ensures
            string_views(r@) == views(parts@),
    {
        let mut r: Vec<String> = Vec::new();
        let mut i: usize = 0;
        while i < parts.len()
            invariant
                i <= parts@.len(),
                r@.len() == i,
                forall|k: int| 0 <= k < i ==> (#[trigger] r@[k])@ == parts@[k]@,
            decreases parts@.len() - i,
        {
            r.push(string_of_chars(&parts[i]));
            i = i + 1;
        }
        assert(string_views(r@) =~= views(parts@));
        r
    }

    /// The command that removes the package `package_id`: Flatpak for ids
    /// that contain `org.`, the system package manager otherwise.
    pub fn uninstall_command(&self, package_id: &str) -> (r: SystemCommand)
        ensures
            r@ == if has_substring(package_id@, "org."@) {
                cmd("flatpak"@, seq!["uninstall"@, "-y"@, package_id@])
            } else {
                cmd("sudo"@, seq!["pacman"@, "-Rns"@, "--noconfirm"@, package_id@])
            },
    {
        if str_contains(package_id, "org.") {
            let r = SystemCommand::new("flatpak", &["uninstall", "-y", package_id]);
            assert(r@.args =~= seq!["uninstall"@, "-y"@, package_id@]);
            r
        } else {
            let r = SystemCommand::new("sudo", &["pacman", "-Rns", "--noconfirm", package_id]);
            assert(r@.args =~= seq!["pacman"@, "-Rns"@, "--noconfirm"@, package_id@]);
            r
        }
    }
}

} // verus!
