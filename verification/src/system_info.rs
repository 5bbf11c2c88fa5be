//! What the hardware page shows: the processor, the storage devices, the
//! graphics adapters, and the saved report.
use vstd::prelude::*;

use crate::command::{cmd, SystemCommand};
use crate::text::{
    chars_of, decimal, decimal_string, decode_lossy, find_chars, find_from, has_substring,
    lemma_find_from, lemma_find_iff_has_substring, lines, lines_of, occurs_at,
    trim, trimmed_range, utf8_lossy, views,
};

verus! {

broadcast use vstd::string::group_string_axioms;

/// A graphics adapter.
pub struct GpuInfo {
    pub name: String,
}

/// The marker after which `lspci` names a display controller.
pub open spec fn controller_marker() -> Seq<char> {
    "controller:"@
}

/// The adapter a line of `lspci` output names: the trimmed text after the
/// first `controller:`, if the line has one.
pub open spec fn gpu_of_line(line: Seq<char>) -> Option<Seq<char>> {
    match find_from(line, controller_marker(), 0) {
        Some(p) => Some(trim(line.subrange(p + controller_marker().len(), line.len() as int))),
        None => None,
    }
}

/// The adapters the lines name, in order.
pub open spec fn gpus_of_lines(ls: Seq<Seq<char>>) -> Seq<Seq<char>>
    decreases ls.len(),
{
    if ls.len() == 0 {
        Seq::empty()
    } else {
        let prev = gpus_of_lines(ls.drop_last());
        match gpu_of_line(ls.last()) {
            Some(g) => prev.push(g),
            None => prev,
        }
    }
}

/// The adapter list shown for the output of the `lspci` query (none when it
/// could not be run): the adapters its lines name, or a generic adapter when
/// there are none.
pub open spec fn gpu_names(listing: Option<Seq<u8>>) -> Seq<Seq<char>> {
    let found = match listing {
        Some(b) => gpus_of_lines(lines(utf8_lossy(b))),
        None => Seq::empty(),
    };
    if found.len() == 0 {
        seq!["Standard Linux Video Device"@]
    } else {
        found
    }
}

/// How many of the first `k` lines hold `controller:`.
pub open spec fn controller_lines_before(ls: Seq<Seq<char>>, k: int) -> nat
    decreases k,
{
    if k <= 0 {
        0
    } else {
        controller_lines_before(ls, k - 1) + if has_substring(ls[k - 1], "controller:"@) {
            1nat
        } else {
            0nat
        }
    }
}

/// `p` is where `controller:` first occurs in `line`.
pub open spec fn first_controller_at(line: Seq<char>, p: int) -> bool {
    &&& occurs_at(line, "controller:"@, p)
    &&& forall|q: int| 0 <= q < p ==> !occurs_at(line, "controller:"@, q)
}

proof fn lemma_gpu_of_line(line: Seq<char>)
    ensures
        gpu_of_line(line) is Some <==> has_substring(line, "controller:"@),
        forall|p: int|
            first_controller_at(line, p) ==> gpu_of_line(line) == Some(
                trim(line.subrange(p + 11, line.len() as int)),
            ),
{
    reveal_strlit("controller:");
    lemma_find_iff_has_substring(line, controller_marker());
    lemma_find_from(line, controller_marker(), 0);
    assert forall|p: int| first_controller_at(line, p) implies gpu_of_line(line) == Some(
        trim(line.subrange(p + 11, line.len() as int)),
    ) by {
        let k = find_from(line, controller_marker(), 0)->0;
        assert(find_from(line, controller_marker(), 0) is Some);
        if k < p {
            assert(!occurs_at(line, "controller:"@, k));
        }
        if p < k {
            assert(!occurs_at(line, controller_marker(), p));
        }
    }
}

proof fn lemma_gpus_by_count(ls: Seq<Seq<char>>, k: int)
    requires
        0 <= k <= ls.len(),
    ensures
        gpus_of_lines(ls.take(k)).len() == controller_lines_before(ls, k),
        forall|j: int, p: int|
            #![trigger ls[j], first_controller_at(ls[j], p)]
            0 <= j < k && first_controller_at(ls[j], p) ==> controller_lines_before(ls, j)
                < controller_lines_before(ls, k) && gpus_of_lines(ls.take(k))[controller_lines_before(
                ls,
                j,
            ) as int] == trim(ls[j].subrange(p + 11, ls[j].len() as int)),
    decreases k,
{
    if k > 0 {
        lemma_gpus_by_count(ls, k - 1);
        lemma_gpu_of_line(ls[k - 1]);
        assert(ls.take(k).drop_last() =~= ls.take(k - 1));
        assert(ls.take(k).last() == ls[k - 1]);
        let prev = gpus_of_lines(ls.take(k - 1));
        let all = gpus_of_lines(ls.take(k));
        assert forall|j: int, p: int|
            #![trigger ls[j], first_controller_at(ls[j], p)]
            0 <= j < k && first_controller_at(ls[j], p) implies controller_lines_before(ls, j)
            < controller_lines_before(ls, k) && all[controller_lines_before(ls, j) as int] == trim(
            ls[j].subrange(p + 11, ls[j].len() as int),
        ) by {
            assert(occurs_at(ls[j], "controller:"@, p));
            if j < k - 1 {
                assert(prev[controller_lines_before(ls, j) as int] == trim(
                    ls[j].subrange(p + 11, ls[j].len() as int),
                ));
            }
        }
    }
}

/// The adapter list names each display controller of the `lspci` output:
/// when some line holds `controller:`, the list has one entry per such line,
/// in order, each the trimmed text after the line's first `controller:`;
/// when no line does, it is the generic adapter alone.
pub proof fn law_gpu_list_names_each_controller(b: Seq<u8>)
    ensures
        controller_lines_before(
            lines(utf8_lossy(b)),
            lines(utf8_lossy(b)).len() as int,
        ) > 0 ==> gpu_names(Some(b)).len() == controller_lines_before(
            lines(utf8_lossy(b)),
            lines(utf8_lossy(b)).len() as int,
        ),
        controller_lines_before(lines(utf8_lossy(b)), lines(utf8_lossy(b)).len() as int) == 0
            ==> gpu_names(Some(b)) == seq!["Standard Linux Video Device"@],
        forall|j: int, p: int|
            #![trigger lines(utf8_lossy(b))[j], first_controller_at(lines(utf8_lossy(b))[j], p)]
            0 <= j < lines(utf8_lossy(b)).len() && first_controller_at(lines(utf8_lossy(b))[j], p)
                ==> gpu_names(Some(b))[controller_lines_before(lines(utf8_lossy(b)), j) as int]
                == trim(lines(utf8_lossy(b))[j].subrange(p + 11, lines(utf8_lossy(b))[j].len() as int)),
{
    let ls = lines(utf8_lossy(b));
    lemma_gpus_by_count(ls, ls.len() as int);
    assert(ls.take(ls.len() as int) =~= ls);
    assert forall|j: int, p: int|
        #![trigger ls[j], first_controller_at(ls[j], p)]
        0 <= j < ls.len() && first_controller_at(ls[j], p) implies gpu_names(Some(b))[
        controller_lines_before(ls, j) as int] == trim(ls[j].subrange(p + 11, ls[j].len() as int)) by {
        assert(controller_lines_before(ls, j) < controller_lines_before(ls, ls.len() as int));
    }
}

/// Without `lspci` output, the adapter list is the generic adapter alone.
pub proof fn law_gpu_list_without_output()
    ensures
        gpu_names(None) == seq!["Standard Linux Video Device"@],
{
}

/// The shell query that lists the display controllers.
pub fn gpu_query_command() -> (r: SystemCommand)
    ensures
        r@ == cmd("sh"@, seq!["-c"@, "lspci | grep -E 'VGA|3D'"@]),
{
    let c = SystemCommand::new("sh", &["-c", "lspci | grep -E 'VGA|3D'"]);
    assert(c@.args =~= seq!["-c"@, "lspci | grep -E 'VGA|3D'"@]);
    c
}

/// The adapter list is never empty: when no adapter was found, a generic one is shown.
pub proof fn law_gpu_list_never_empty(listing: Option<Seq<u8>>)
    ensures
        gpu_names(listing).len() > 0,
{
}

/// The graphics adapters named in the output of the `lspci` query.
pub fn gpu_list_from(listing: Option<Vec<u8>>) -> (r: Vec<GpuInfo>)
    ensures
        r@.map_values(|g: GpuInfo| g.name@) == gpu_names(
            match listing {
                Some(b) => Some(b@),
                None => None,
            },
        ),
{
    let mut gpus: Vec<GpuInfo> = Vec::new();
    if let Some(bytes) = listing {
        let text = decode_lossy(bytes.as_slice());
        let cs = chars_of(text.as_str());
        let ls = lines_of(&cs);
        let marker = chars_of("controller:");
        proof {
            reveal_strlit("controller:");
        }
        let ghost lv = views(ls@);
        let mut i: usize = 0;
        while i < ls.len()
            invariant
                i <= ls@.len(),
                lv == views(ls@),
                marker@ == controller_marker(),
                gpus@.map_values(|g: GpuInfo| g.name@) == gpus_of_lines(lv.take(i as int)),
            decreases ls@.len() - i,
        {
            assert(lv.take(i + 1).drop_last() =~= lv.take(i as int));
            assert(lv.take(i + 1).last() == ls@[i as int]@);
            let line = &ls[i];
            let line_len = line.len();
            if let Some(pos) = find_chars(line, &marker) {
                proof {
                    crate::text::lemma_find_from(line@, marker@, 0);
                    assert(crate::text::occurs_at(line@, marker@, pos as int));
                    assert(pos + marker@.len() <= line@.len());
                }
                let name = trimmed_range(line, pos + marker.len(), line_len);
                gpus.push(GpuInfo { name });
            }
            assert(gpus@.map_values(|g: GpuInfo| g.name@) =~= gpus_of_lines(lv.take(i + 1)));
            i = i + 1;
        }
        assert(lv.take(ls@.len() as int) =~= lv);
    }
    if gpus.len() == 0 {
        gpus.push(GpuInfo { name: "Standard Linux Video Device".to_string() });
        assert(gpus@.map_values(|g: GpuInfo| g.name@) =~= seq!["Standard Linux Video Device"@]);
    }
    gpus
}

/// The processor summary: the brand of the first processor (or
/// `"Unknown Linux CPU"` when none is known), the number of physical cores
/// (0 when unknown), and the highest frequency among the processors in MHz
/// (0 when there are none).
pub fn cpu_summary(first_brand: Option<String>, physical_cores: Option<usize>, frequencies: &Vec<
    u64,
>) -> (r: (String, usize, u64))
    ensures
        r.0@ == match first_brand {
            Some(b) => b@,
            None => "Unknown Linux CPU"@,
        },
        r.1 == match physical_cores {
            Some(c) => c,
            None => 0,
        },
        forall|i: int| 0 <= i < frequencies@.len() ==> frequencies@[i] <= r.2,
        frequencies@.len() == 0 ==> r.2 == 0,
        frequencies@.len() > 0 ==> frequencies@.contains(r.2),
{
    let name = match first_brand {
        Some(b) => b,
        None => "Unknown Linux CPU".to_string(),
    };
    let cores = match physical_cores {
        Some(c) => c,
        None => 0,
    };
    let mut max: u64 = 0;
    let mut i: usize = 0;
    while i < frequencies.len()
        invariant
            i <= frequencies@.len(),
            forall|k: int| 0 <= k < i ==> frequencies@[k] <= max,
            i == 0 ==> max == 0,
            i > 0 ==> frequencies@.take(i as int).contains(max),
        decreases frequencies@.len() - i,
    {
        if i == 0 || frequencies[i] > max {
            max = frequencies[i];
            assert(frequencies@.take(i + 1)[i as int] == max);
        } else {
            let ghost w = choose|k: int| 0 <= k < i && frequencies@.take(i as int)[k] == max;
            assert(frequencies@.take(i + 1)[w] == max);
        }
        i = i + 1;
    }
    if i > 0 {
        assert(frequencies@.take(i as int) =~= frequencies@);
    }
    (name, cores, max)
}

/// The name shown for a storage device: its name, or `"System Disk"` when it has none.
pub fn disk_display_name(name: String) -> (r: String)
    ensures
        r@ == if name@.len() == 0 {
            "System Disk"@
        } else {
            name@
        },
{
    if name.as_str().is_empty() {
        "System Disk".to_string()
    } else {
        name
    }
}

/// The report lines of the storage devices: `"- <name>: <size>"` each.
pub open spec fn storage_lines(devices: Seq<(String, String)>) -> Seq<char>
    decreases devices.len(),
{
    if devices.len() == 0 {
        Seq::empty()
    } else {
        storage_lines(devices.drop_last()) + "- "@ + devices.last().0@ + ": "@
            + devices.last().1@ + "\n"@
    }
}

/// The text of the hardware report.
pub open spec fn report_text(
    cpu_name: Seq<char>,
    cores: nat,
    freq: Seq<char>,
    ram: Seq<char>,
    devices: Seq<(String, String)>,
) -> Seq<char> {
    "SteeliumTweaker Hardware Report // Linux Native\n\n"@ + "=== PROCESSOR ===\nName: "@
        + cpu_name + "\nCores: "@ + decimal(cores) + "\nMax Frequency: "@ + freq + "\n\n"@
        + "=== RAM ===\nTotal Memory: "@ + ram + "\n\n"@ + "=== STORAGE DEVICES ===\n"@
        + storage_lines(devices)
}

/// The hardware report saved to a text file.
pub fn hardware_report(
    cpu_name: &str,
    cores: usize,
    freq: &str,
    ram: &str,
    devices: &Vec<(String, String)>,
) -> (r: String)
    ensures
        r@ == report_text(cpu_name@, cores as nat, freq@, ram@, devices@),
{
    let mut r = "SteeliumTweaker Hardware Report // Linux Native\n\n".to_string();
    r.append("=== PROCESSOR ===\nName: ");
    r.append(cpu_name);
    r.append("\nCores: ");
    let c = decimal_string(cores as u64);
    r.append(c.as_str());
    r.append("\nMax Frequency: ");
    r.append(freq);
    r.append("\n\n");
    r.append("=== RAM ===\nTotal Memory: ");
    r.append(ram);
    r.append("\n\n");
    r.append("=== STORAGE DEVICES ===\n");
    let ghost head = r@;
    let mut i: usize = 0;
    while i < devices.len()
        invariant
            i <= devices@.len(),
            r@ == head + storage_lines(devices@.take(i as int)),
        decreases devices@.len() - i,
    {
        assert(devices@.take(i + 1).drop_last() =~= devices@.take(i as int));
        assert(devices@.take(i + 1).last() == devices@[i as int]);
        r.append("- ");
        r.append(devices[i].0.as_str());
        r.append(": ");
        r.append(devices[i].1.as_str());
        r.append("\n");
        assert(r@ =~= head + storage_lines(devices@.take(i + 1)));
        i = i + 1;
    }
    assert(devices@.take(devices@.len() as int) =~= devices@);
    assert(r@ =~= report_text(cpu_name@, cores as nat, freq@, ram@, devices@));
    r
}

} // verus!
