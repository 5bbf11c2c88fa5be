//! The process list: which processes are shown and in what order.
use vstd::prelude::*;

use crate::text::{concat, decimal, decimal_string, join_from, join_spaces, str_eq, string_views};

verus! {

broadcast use vstd::string::group_string_axioms;

/// What the system reports of one running process.
pub struct ProcessSample {
    pub pid: u32,
    pub name: String,
    /// The command line, one argument per item.
    pub cmd: Vec<String>,
    /// Resident memory, in bytes.
    pub memory_bytes: u64,
}

/// One line of the process list.
pub struct ProcessRow {
    /// The position of the process among the samples it was made from.
    pub source: usize,
    pub pid: u32,
    pub name: String,
    pub cmdline: String,
    pub memory_bytes: u64,
    /// The memory in whole mebibytes, as `"<n> MB"`.
    pub memory_formatted: String,
}

/// Process names that the list never shows: the system's own processes, the
/// desktop session, shells and this program.
pub open spec fn excluded_names() -> Seq<Seq<char>> {
    seq![
        "systemd"@,
        "kthreadd"@,
        "init"@,
        "dbus-daemon"@,
        "wayland"@,
        "hyprland"@,
        "sway"@,
        "weston"@,
        "Xorg"@,
        "waybar"@,
        "pipewire"@,
        "wireplumber"@,
        "bash"@,
        "zsh"@,
        "fish"@,
        "makutweaker"@,
    ]
}

/// Sample `i` is shown in the list.
pub open spec fn shown(samples: Seq<ProcessSample>, i: int) -> bool {
    0 <= i < samples.len() && !excluded_names().contains(samples[i].name@)
}

/// `order` lists every shown sample exactly once, by decreasing memory, and
/// samples of equal memory in the order of `samples`: the order a stable sort
/// by decreasing memory gives.
pub open spec fn is_list_order(samples: Seq<ProcessSample>, order: Seq<usize>) -> bool {
    &&& forall|i: int| 0 <= i < order.len() ==> shown(samples, #[trigger] order[i] as int)
    &&& forall|k: int| shown(samples, k) ==> order.contains(k as usize)
    &&& forall|i: int, j: int| 0 <= i < j < order.len() ==> order[i] != order[j]
    &&& forall|i: int, j: int|
        0 <= i < j < order.len() ==> samples[order[i] as int].memory_bytes >= samples[order[j] as int].memory_bytes
    &&& forall|i: int, j: int|
        0 <= i < j < order.len() && samples[order[i] as int].memory_bytes
            == samples[order[j] as int].memory_bytes ==> order[i] < order[j]
}

/// The text shown for an amount of memory: whole mebibytes and `" MB"`.
pub open spec fn memory_text(bytes: u64) -> Seq<char> {
    decimal((bytes / 1024 / 1024) as nat) + " MB"@
}

/// `row` shows sample `i` of `samples`.
pub open spec fn row_of(samples: Seq<ProcessSample>, i: int, row: ProcessRow) -> bool {
    &&& row.source == i
    &&& row.pid == samples[i].pid
    &&& row.name@ == samples[i].name@
    &&& row.cmdline@ == join_spaces(string_views(samples[i].cmd@))
    &&& row.memory_bytes == samples[i].memory_bytes
    &&& row.memory_formatted@ == memory_text(samples[i].memory_bytes)
}

/// Whether `name` is one of the names the list never shows.
pub fn is_excluded(name: &str) -> (b: bool)
    ensures
        b == excluded_names().contains(name@),
{
    let names: [&str; 16] = [
        "systemd",
        "kthreadd",
        "init",
        "dbus-daemon",
        "wayland",
        "hyprland",
        "sway",
        "weston",
        "Xorg",
        "waybar",
        "pipewire",
        "wireplumber",
        "bash",
        "zsh",
        "fish",
        "makutweaker",
    ];
    assert(names@.map_values(|n: &str| n@) =~= excluded_names());
    let mut i: usize = 0;
    while i < 16
        invariant
            i <= 16,
            names@.map_values(|n: &str| n@) == excluded_names(),
            forall|k: int| 0 <= k < i ==> excluded_names()[k] != name@,
        decreases 16 - i,
    {
        assert(excluded_names()[i as int] == names@[i as int]@);
        if str_eq(names[i], name) {
            assert(excluded_names().contains(name@));
            return true;
        }
        i = i + 1;
    }
    false
}

/// The order in which the shown samples appear.
fn list_order(samples: &Vec<ProcessSample>) -> (order: Vec<usize>)
    ensures
        is_list_order(samples@, order@),
{
    let ghost s = samples@;
    let mut order: Vec<usize> = Vec::new();
    let mut k: usize = 0;
    while k < samples.len()
        invariant
            k <= samples@.len(),
            s == samples@,
            forall|i: int| 0 <= i < order@.len() ==> shown(s, #[trigger] order@[i] as int) && order@[i] < k,
            forall|m: int| 0 <= m < k && shown(s, m) ==> order@.contains(m as usize),
            forall|i: int, j: int| 0 <= i < j < order@.len() ==> order@[i] != order@[j],
            forall|i: int, j: int|
                0 <= i < j < order@.len() ==> s[order@[i] as int].memory_bytes >= s[order@[j] as int].memory_bytes,
            forall|i: int, j: int|
                0 <= i < j < order@.len() && s[order@[i] as int].memory_bytes
                    == s[order@[j] as int].memory_bytes ==> order@[i] < order@[j],
        decreases samples@.len() - k,
    {
        if !is_excluded(samples[k].name.as_str()) {
            let mem = samples[k].memory_bytes;
            let mut p: usize = 0;
            while p < order.len() && samples[order[p]].memory_bytes >= mem
                invariant
                    p <= order@.len(),
                    s == samples@,
                    k < samples@.len(),
                    mem == s[k as int].memory_bytes,
                    forall|i: int| 0 <= i < order@.len() ==> shown(s, #[trigger] order@[i] as int) && order@[i] < k,
                    forall|j: int| 0 <= j < p ==> s[order@[j] as int].memory_bytes >= mem,
                decreases order@.len() - p,
            {
                p = p + 1;
            }
            let ghost old_order = order@;
            proof {
                // everything from position `p` on holds less memory than sample `k`
                assert forall|j: int| p <= j < old_order.len() implies s[old_order[j] as int].memory_bytes
                    < mem by {
                    assert(s[old_order[p as int] as int].memory_bytes < mem);
                    if j > p {
                        assert(s[old_order[p as int] as int].memory_bytes >= s[old_order[j] as int].memory_bytes);
                    }
                }
            }
            order.insert(p, k);
            assert(order@ == old_order.insert(p as int, k));
            assert forall|m: int| 0 <= m < k + 1 && shown(s, m) implies order@.contains(m as usize) by {
                if m == k {
                    assert(order@[p as int] == k);
                } else {
                    assert(old_order.contains(m as usize));
                    let i = choose|i: int| 0 <= i < old_order.len() && old_order[i] == m as usize;
                    if i < p {
                        assert(order@[i] == m as usize);
                    } else {
                        assert(order@[i + 1] == m as usize);
                    }
                }
            }
        } else {
            assert forall|m: int| 0 <= m < k + 1 && shown(s, m) implies order@.contains(m as usize) by {
                assert(m != k);
            }
        }
        k = k + 1;
    }
    order
}

/// The text shown for an amount of memory.
pub fn format_memory(bytes: u64) -> (r: String)
    ensures
        r@ == memory_text(bytes),
{
    let n = decimal_string(bytes / 1024 / 1024);
    concat(n.as_str(), " MB")
}

/// The process list made from `samples`: every sample whose name is not
/// excluded, largest memory first, ties in the order of `samples`.
pub fn arrange_process_list(samples: &Vec<ProcessSample>) -> (rows: Vec<ProcessRow>)
    ensures
        is_list_order(samples@, rows@.map_values(|r: ProcessRow| r.source)),
        forall|i: int| 0 <= i < rows@.len() ==> row_of(samples@, (#[trigger] rows@[i]).source as int, rows@[i]),
{
    let order = list_order(samples);
    let mut rows: Vec<ProcessRow> = Vec::new();
    let mut i: usize = 0;
    while i < order.len()
        invariant
            i <= order@.len(),
            is_list_order(samples@, order@),
            rows@.len() == i,
            forall|j: int| 0 <= j < i ==> (#[trigger] rows@[j]).source == order@[j],
            forall|j: int| 0 <= j < i ==> row_of(samples@, (#[trigger] rows@[j]).source as int, rows@[j]),
        decreases order@.len() - i,
    {
        let k = order[i];
        assert(shown(samples@, order@[i as int] as int));
        let sample = &samples[k];
        let row = ProcessRow {
            source: k,
            pid: sample.pid,
            name: sample.name.clone(),
            cmdline: join_from(&sample.cmd, 0),
            memory_bytes: sample.memory_bytes,
            memory_formatted: format_memory(sample.memory_bytes),
        };
        assert(string_views(sample.cmd@).subrange(0, sample.cmd@.len() as int) =~= string_views(
            sample.cmd@,
        ));
        rows.push(row);
        i = i + 1;
    }
    assert(rows@.map_values(|r: ProcessRow| r.source) =~= order@);
    rows
}

} // verus!
