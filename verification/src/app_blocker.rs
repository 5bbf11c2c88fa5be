//! Blocking of Yandex services through the hosts file, and of chosen
//! programs through stub executables.
use vstd::prelude::*;

use crate::command::{cmd, SystemCommand};
use crate::text::{
    byte_line_scan, byte_lines, chars_of, has_substring, str_contains, string_of_range,
    string_views, strip_cr_bytes, trim, trim_bounds, utf8_text,
};

verus! {

broadcast use vstd::string::group_string_axioms;

/// Handler of the application blocker page.
pub struct AppBlockerHandler {
    hosts_path: &'static str,
}

/// The hosts-file entries that send Yandex domains to the local machine.
pub open spec fn yandex_hosts() -> Seq<Seq<char>> {
    seq![
        "127.0.0.1 yandex.ru"@,
        "127.0.0.1 www.yandex.ru"@,
        "127.0.0.1 metrika.yandex.ru"@,
        "127.0.0.1 mc.yandex.ru"@,
        "127.0.0.1 passport.yandex.ru"@,
    ]
}

/// Some entry of `hosts` occurs in `line`.
pub open spec fn mentions_any(line: Seq<char>, hosts: Seq<Seq<char>>) -> bool {
    exists|j: int| 0 <= j < hosts.len() && has_substring(line, #[trigger] hosts[j])
}

/// Some line of `lines` contains `host`.
pub open spec fn mentioned(lines: Seq<Seq<char>>, host: Seq<char>) -> bool {
    exists|i: int| 0 <= i < lines.len() && has_substring(#[trigger] lines[i], host)
}

/// The lines after blocking: each entry of `hosts`, in order, is appended
/// unless some line (an earlier appended one included) already contains it.
pub open spec fn block_hosts(lines: Seq<Seq<char>>, hosts: Seq<Seq<char>>) -> Seq<Seq<char>>
    decreases hosts.len(),
{
    if hosts.len() == 0 {
        lines
    } else {
        let prev = block_hosts(lines, hosts.drop_last());
        if mentioned(prev, hosts.last()) {
            prev
        } else {
            prev.push(hosts.last())
        }
    }
}

/// The lines after unblocking: those that contain no entry of `hosts`, in order.
pub open spec fn unblock_hosts(lines: Seq<Seq<char>>, hosts: Seq<Seq<char>>) -> Seq<Seq<char>>
    decreases lines.len(),
{
    if lines.len() == 0 {
        lines
    } else {
        let prev = unblock_hosts(lines.drop_last(), hosts);
        if mentions_any(lines.last(), hosts) {
            prev
        } else {
            prev.push(lines.last())
        }
    }
}

/// The hosts file lines that `toggle_yandex_blocking` writes back.
pub open spec fn hosts_after_toggle(lines: Seq<Seq<char>>, block: bool) -> Seq<Seq<char>> {
    if block {
        block_hosts(lines, yandex_hosts())
    } else {
        unblock_hosts(lines, yandex_hosts())
    }
}

/// The lines of a file whose bytes are valid UTF-8, decoded; the others
/// are skipped (as `BufRead::lines` reports them as errors).
pub open spec fn decoded_lines(ls: Seq<Seq<u8>>) -> Seq<Seq<char>>
    decreases ls.len(),
{
    if ls.len() == 0 {
        Seq::empty()
    } else {
        let prev = decoded_lines(ls.drop_last());
        if vstd::utf8::valid_utf8(ls.last()) {
            prev.push(vstd::utf8::decode_utf8(ls.last()))
        } else {
            prev
        }
    }
}

/// The lines read from a hosts file with the bytes `b`.
pub open spec fn hosts_file_lines(b: Seq<u8>) -> Seq<Seq<char>> {
    decoded_lines(byte_lines(b))
}

/// The text written to the hosts file: each line followed by a line break.
pub open spec fn hosts_text(ls: Seq<Seq<char>>) -> Seq<char>
    decreases ls.len(),
{
    if ls.len() == 0 {
        Seq::empty()
    } else {
        hosts_text(ls.drop_last()) + ls.last() + seq!['\n']
    }
}

/// The Yandex entries, as strings.
fn yandex_host_entries() -> (r: Vec<&'static str>)
    ensures
        r@.map_values(|h: &str| h@) == yandex_hosts(),
{
    let r = vec![
        "127.0.0.1 yandex.ru",
        "127.0.0.1 www.yandex.ru",
        "127.0.0.1 metrika.yandex.ru",
        "127.0.0.1 mc.yandex.ru",
        "127.0.0.1 passport.yandex.ru",
    ];
    assert(r@.map_values(|h: &str| h@) =~= yandex_hosts());
    r
}

/// Whether some line of `lines` contains `host`.
fn any_line_contains(lines: &Vec<String>, host: &str) -> (b: bool)
    ensures
        b == mentioned(string_views(lines@), host@),
{
    let ghost ls = string_views(lines@);
    let mut i: usize = 0;
    while i < lines.len()
        invariant
            i <= lines@.len(),
            ls == string_views(lines@),
            forall|k: int| 0 <= k < i ==> !has_substring(#[trigger] ls[k], host@),
        decreases lines@.len() - i,
    {
        assert(ls[i as int] == lines@[i as int]@);
        if str_contains(lines[i].as_str(), host) {
            return true;
        }
        i = i + 1;
    }
    false
}

/// Whether `line` contains some entry of `hosts`.
fn line_mentions_any(line: &String, hosts: &Vec<&'static str>) -> (b: bool)
    ensures
        b == mentions_any(line@, hosts@.map_values(|h: &str| h@)),
{
    let ghost hs = hosts@.map_values(|h: &str| h@);
    let mut j: usize = 0;
    while j < hosts.len()
        invariant
            j <= hosts@.len(),
            hs == hosts@.map_values(|h: &str| h@),
            forall|k: int| 0 <= k < j ==> !has_substring(line@, #[trigger] hs[k]),
        decreases hosts@.len() - j,
    {
        assert(hs[j as int] == hosts@[j as int]@);
        if str_contains(line.as_str(), hosts[j]) {
            return true;
        }
        j = j + 1;
    }
    false
}

/// Scanning `s` for pieces separated by `,` or `\n`: the pieces ended so
/// far, and the piece being read.
pub open spec fn piece_scan(s: Seq<char>) -> (Seq<Seq<char>>, Seq<char>)
    decreases s.len(),
{
    if s.len() == 0 {
        (Seq::empty(), Seq::empty())
    } else {
        let p = piece_scan(s.drop_last());
        if s.last() == ',' || s.last() == '\n' {
            (p.0.push(p.1), Seq::empty())
        } else {
            (p.0, p.1.push(s.last()))
        }
    }
}

/// The pieces of `s` between separators `,` and `\n`, empty ones included
/// (what `str::split` with those separators yields).
pub open spec fn pieces(s: Seq<char>) -> Seq<Seq<char>> {
    piece_scan(s).0.push(piece_scan(s).1)
}

/// `n` names a file directly inside a directory: it is not empty, holds no
/// `/`, and is neither `.` nor `..`.
pub open spec fn is_file_name(n: Seq<char>) -> bool {
    &&& n.len() > 0
    &&& forall|k: int| 0 <= k < n.len() ==> #[trigger] n[k] != '/'
    &&& n != seq!['.']
    &&& n != seq!['.', '.']
}

/// The trimmed pieces that name a file directly inside the stub directory,
/// in order; empty pieces and paths that would lead elsewhere are left out.
pub open spec fn nonempty_trimmed(ps: Seq<Seq<char>>) -> Seq<Seq<char>>
    decreases ps.len(),
{
    if ps.len() == 0 {
        Seq::empty()
    } else {
        let prev = nonempty_trimmed(ps.drop_last());
        if is_file_name(trim(ps.last())) {
            prev.push(trim(ps.last()))
        } else {
            prev
        }
    }
}

/// The program names a user typed into the block list.
pub open spec fn blocked_apps(raw: Seq<char>) -> Seq<Seq<char>> {
    nonempty_trimmed(pieces(raw))
}

/// The text written into each stub executable.
pub open spec fn stub_script() -> Seq<char> {
    "#!/bin/sh\necho 'This application has been blocked by SteeliumTweaker!'\nexit 1\n"@
}

impl AppBlockerHandler {
    /// The path of the hosts file this handler edits.
    pub closed spec fn path(&self) -> Seq<char> {
        self.hosts_path@
    }

    /// A handler working on `/etc/hosts`.
    pub fn new() -> (r: Self)
        ensures
            r.path() == "/etc/hosts"@,
    {
        AppBlockerHandler { hosts_path: "/etc/hosts" }
    }

    /// The hosts file this handler edits.
    pub fn hosts_path(&self) -> (r: &'static str)
        ensures
            r@ == self.path(),
    {
        self.hosts_path
    }

    /// The new contents of the hosts file, given its current `lines`: when
    /// blocking, each Yandex entry that no line contains yet is appended; when
    /// unblocking, every line that contains a Yandex entry is dropped.
    pub fn updated_hosts_lines(&self, lines: Vec<String>, block: bool) -> (r: Vec<String>)
        ensures
            string_views(r@) == hosts_after_toggle(string_views(lines@), block),
    {
        let hosts = yandex_host_entries();
        let ghost hs = yandex_hosts();
        if block {
            let mut out = lines;
            let ghost start = string_views(out@);
            let mut k: usize = 0;
            while k < hosts.len()
                invariant
                    k <= hosts@.len(),
                    hosts@.map_values(|h: &str| h@) == hs,
                    hs == yandex_hosts(),
                    string_views(out@) == block_hosts(start, hs.take(k as int)),
                decreases hosts@.len() - k,
            {
                let host = hosts[k];
                assert(hs.take(k + 1).drop_last() =~= hs.take(k as int));
                assert(hs.take(k + 1).last() == host@);
                if !any_line_contains(&out, host) {
                    out.push(host.to_string());
                    assert(string_views(out@) =~= block_hosts(start, hs.take(k + 1)));
                }
                k = k + 1;
            }
            assert(hs.take(hosts@.len() as int) =~= hs);
            out
        } else {
            let mut out: Vec<String> = Vec::new();
            let ghost ls = string_views(lines@);
            let mut i: usize = 0;
            while i < lines.len()
                invariant
                    i <= lines@.len(),
                    ls == string_views(lines@),
                    hosts@.map_values(|h: &str| h@) == hs,
                    hs == yandex_hosts(),
                    string_views(out@) == unblock_hosts(ls.take(i as int), hs),
                decreases lines@.len() - i,
            {
                assert(ls.take(i + 1).drop_last() =~= ls.take(i as int));
                assert(ls.take(i + 1).last() == lines@[i as int]@);
                if !line_mentions_any(&lines[i], &hosts) {
                    out.push(lines[i].clone());
                    assert(string_views(out@) =~= unblock_hosts(ls.take(i + 1), hs));
                }
                i = i + 1;
            }
            assert(ls.take(lines@.len() as int) =~= ls);
            out
        }
    }

    /// The lines of a hosts file with the bytes `bytes`: cut after each line
    /// break, a carriage return before it dropped, lines that are not valid
    /// UTF-8 skipped.
    pub fn hosts_lines_from_bytes(&self, bytes: &[u8]) -> (r: Vec<String>)
        ensures
            string_views(r@) == hosts_file_lines(bytes@),
    {
        let mut out: Vec<String> = Vec::new();
        let mut cur: Vec<u8> = Vec::new();
        let mut i: usize = 0;
        while i < bytes.len()
            invariant
                i <= bytes@.len(),
                string_views(out@) == decoded_lines(byte_line_scan(bytes@.take(i as int)).0),
                cur@ == byte_line_scan(bytes@.take(i as int)).1,
            decreases bytes@.len() - i,
        {
            let b = bytes[i];
            assert(bytes@.take(i + 1).drop_last() =~= bytes@.take(i as int));
            if b == 10 {
                if cur.len() > 0 && cur[cur.len() - 1] == 13 {
                    cur.pop();
                }
                let ghost done = byte_line_scan(bytes@.take(i as int)).0;
                assert(done.push(cur@).drop_last() =~= done);
                Self::push_decoded(&mut out, &cur);
                cur = Vec::new();
            } else {
                cur.push(b);
            }
            i = i + 1;
        }
        assert(bytes@.take(bytes@.len() as int) =~= bytes@);
        if cur.len() > 0 {
            let ghost done = byte_line_scan(bytes@).0;
            assert(done.push(cur@).drop_last() =~= done);
            Self::push_decoded(&mut out, &cur);
        }
        out
    }

    fn push_decoded(out: &mut Vec<String>, line: &Vec<u8>)
        ensures
            string_views(final(out)@) == if vstd::utf8::valid_utf8(line@) {
                string_views(old(out)@).push(vstd::utf8::decode_utf8(line@))
            } else {
                string_views(old(out)@)
            },
    {
        if let Some(s) = utf8_text(line.as_slice()) {
            out.push(s);
            assert(string_views(final(out)@) =~= string_views(old(out)@).push(vstd::utf8::decode_utf8(line@)));
        }
    }

    /// The text written to the hosts file for `lines`: each line followed by
    /// a line break.
    pub fn render_hosts(&self, lines: &Vec<String>) -> (r: String)
        ensures
            r@ == hosts_text(string_views(lines@)),
    {
        let ghost ls = string_views(lines@);
        let mut r = String::new();
        let mut i: usize = 0;
        while i < lines.len()
            invariant
                i <= lines@.len(),
                ls == string_views(lines@),
                r@ == hosts_text(ls.take(i as int)),
            decreases lines@.len() - i,
        {
            assert(ls.take(i + 1).drop_last() =~= ls.take(i as int));
            assert(ls.take(i + 1).last() == lines@[i as int]@);
            r.append(lines[i].as_str());
            proof {
                reveal_strlit("\n");
            }
            r.append("\n");
            assert(r@ =~= hosts_text(ls.take(i + 1)));
            i = i + 1;
        }
        assert(ls.take(lines@.len() as int) =~= ls);
        r
    }

    /// The program names in `raw_input`: split at commas and line breaks,
    /// trimmed; empty names, and names that are not a single file name (one
    /// holding `/`, or `.` or `..`), left out, so that every stub stays in the
    /// stub directory.
    pub fn blocked_app_names(&self, raw_input: &str) -> (r: Vec<String>)
        ensures
            string_views(r@) == blocked_apps(raw_input@),
    {
        let cs = chars_of(raw_input);
        let mut out: Vec<String> = Vec::new();
        let mut cur: Vec<char> = Vec::new();
        let mut i: usize = 0;
        while i < cs.len()
            invariant
                i <= cs@.len(),
                cs@ == raw_input@,
                string_views(out@) == nonempty_trimmed(piece_scan(cs@.take(i as int)).0),
                cur@ == piece_scan(cs@.take(i as int)).1,
            decreases cs@.len() - i,
        {
            let c = cs[i];
            assert(cs@.take(i + 1).drop_last() =~= cs@.take(i as int));
            if c == ',' || c == '\n' {
                let ghost done = piece_scan(cs@.take(i as int)).0;
                assert(done.push(cur@).drop_last() =~= done);
                Self::push_trimmed(&mut out, &cur);
                cur = Vec::new();
            } else {
                cur.push(c);
            }
            i = i + 1;
        }
        assert(cs@.take(cs@.len() as int) =~= cs@);
        let ghost done = piece_scan(cs@).0;
        assert(done.push(cur@).drop_last() =~= done);
        Self::push_trimmed(&mut out, &cur);
        out
    }

    fn push_trimmed(out: &mut Vec<String>, piece: &Vec<char>)
        ensures
            string_views(final(out)@) == if is_file_name(trim(piece@)) {
                string_views(old(out)@).push(trim(piece@))
            } else {
                string_views(old(out)@)
            },
    {
        let (lo, hi) = trim_bounds(piece);
        if lo < hi && Self::names_one_file(piece, lo, hi) {
            let t = string_of_range(piece, lo, hi);
            out.push(t);
            assert(string_views(final(out)@) =~= string_views(old(out)@).push(trim(piece@)));
        }
    }

    /// Whether `cs[lo..hi]` is a single file name.
    fn names_one_file(cs: &Vec<char>, lo: usize, hi: usize) -> (b: bool)
        requires
            lo < hi <= cs@.len(),
        ensures
            b == is_file_name(cs@.subrange(lo as int, hi as int)),
    {
        let ghost n = cs@.subrange(lo as int, hi as int);
        let mut i = lo;
        while i < hi
            invariant
                lo <= i <= hi <= cs@.len(),
                n == cs@.subrange(lo as int, hi as int),
                forall|k: int| 0 <= k < i - lo ==> #[trigger] n[k] != '/',
            decreases hi - i,
        {
            if cs[i] == '/' {
                assert(n[i - lo] == '/');
                return false;
            }
            i = i + 1;
        }
        if hi - lo == 1 && cs[lo] == '.' {
            assert(n =~= seq!['.']);
            return false;
        }
        if hi - lo == 2 && cs[lo] == '.' && cs[lo + 1] == '.' {
            assert(n =~= seq!['.', '.']);
            return false;
        }
        assert(n.len() == 1 ==> n != seq!['.']) by {
            if n.len() == 1 && n == seq!['.'] {
                assert(n[0] == cs@[lo as int]);
            }
        }
        assert(n.len() == 2 ==> n != seq!['.', '.']) by {
            if n.len() == 2 && n == seq!['.', '.'] {
                assert(n[0] == cs@[lo as int]);
                assert(n[1] == cs@[lo + 1]);
            }
        }
        true
    }

    /// The text of a stub executable that refuses to run.
    pub fn stub_script(&self) -> (r: String)
        ensures
            r@ == stub_script(),
    {
        "#!/bin/sh\necho 'This application has been blocked by SteeliumTweaker!'\nexit 1\n".to_string()
    }

    /// The command that makes the stub written at `path` executable.
    pub fn make_executable_command(&self, path: &str) -> (r: SystemCommand)
        ensures
            r@ == cmd("chmod"@, seq!["+x"@, path@]),
    {
        let c = SystemCommand::new("chmod", &["+x", path]);
        assert(c@.args =~= seq!["+x"@, path@]);
        c
    }
}


// ---------------------------------------------------------------------------
// Properties of blocking and unblocking
// ---------------------------------------------------------------------------

proof fn lemma_self_substring(h: Seq<char>)
    ensures
        has_substring(h, h),
{
    assert(h.subrange(0, h.len() as int) =~= h);
    assert(crate::text::occurs_at(h, h, 0));
}

proof fn lemma_mentioned_push(lines: Seq<Seq<char>>, x: Seq<char>, h: Seq<char>)
    requires
        mentioned(lines, h),
    ensures
        mentioned(lines.push(x), h),
{
    let i = choose|i: int| 0 <= i < lines.len() && has_substring(#[trigger] lines[i], h);
    assert(lines.push(x)[i] == lines[i]);
}

/// Blocking keeps the given lines as a prefix and appends only entries of `hosts`.
proof fn lemma_block_extends(lines: Seq<Seq<char>>, hosts: Seq<Seq<char>>)
    ensures
        block_hosts(lines, hosts).len() >= lines.len(),
        block_hosts(lines, hosts).subrange(0, lines.len() as int) == lines,
        forall|k: int|
            lines.len() <= k < block_hosts(lines, hosts).len() ==> hosts.contains(
                #[trigger] block_hosts(lines, hosts)[k],
            ),
    decreases hosts.len(),
{
    if hosts.len() > 0 {
        let hp = hosts.drop_last();
        lemma_block_extends(lines, hp);
        let prev = block_hosts(lines, hp);
        let cur = block_hosts(lines, hosts);
        assert forall|k: int| lines.len() <= k < cur.len() implies hosts.contains(#[trigger] cur[k]) by {
            if k < prev.len() {
                assert(cur[k] == prev[k]);
                assert(hp.contains(prev[k]));
                let j = choose|j: int| 0 <= j < hp.len() && hp[j] == prev[k];
                assert(hosts[j] == hp[j]);
            } else {
                assert(cur[k] == hosts[hosts.len() - 1]);
            }
        }
        assert(cur.subrange(0, lines.len() as int) =~= prev.subrange(0, lines.len() as int));
    } else {
        assert(lines.subrange(0, lines.len() as int) =~= lines);
    }
}

/// After blocking, every entry of `hosts` is contained in some line.
proof fn lemma_block_mentions_all(lines: Seq<Seq<char>>, hosts: Seq<Seq<char>>)
    ensures
        forall|j: int| 0 <= j < hosts.len() ==> mentioned(block_hosts(lines, hosts), #[trigger] hosts[j]),
    decreases hosts.len(),
{
    if hosts.len() > 0 {
        let hp = hosts.drop_last();
        lemma_block_mentions_all(lines, hp);
        let prev = block_hosts(lines, hp);
        let last = hosts.last();
        assert forall|j: int| 0 <= j < hosts.len() implies mentioned(block_hosts(lines, hosts), #[trigger] hosts[j]) by {
            if j < hosts.len() - 1 {
                assert(hosts[j] == hp[j]);
                if !mentioned(prev, last) {
                    lemma_mentioned_push(prev, last, hosts[j]);
                }
            } else if !mentioned(prev, last) {
                lemma_self_substring(last);
                let cur = prev.push(last);
                assert(cur[prev.len() as int] == last);
            }
        }
    }
}

/// Blocking changes nothing when every entry is already contained in some line.
proof fn lemma_block_noop(lines: Seq<Seq<char>>, hosts: Seq<Seq<char>>)
    requires
        forall|j: int| 0 <= j < hosts.len() ==> mentioned(lines, #[trigger] hosts[j]),
    ensures
        block_hosts(lines, hosts) == lines,
    decreases hosts.len(),
{
    if hosts.len() > 0 {
        let hp = hosts.drop_last();
        assert forall|j: int| 0 <= j < hp.len() implies mentioned(lines, #[trigger] hp[j]) by {
            assert(hp[j] == hosts[j]);
        }
        lemma_block_noop(lines, hp);
        assert(mentioned(lines, hosts[hosts.len() - 1]));
    }
}

/// Unblocking keeps only lines of `lines`, and none of them contains an entry.
proof fn lemma_unblock_clean(lines: Seq<Seq<char>>, hosts: Seq<Seq<char>>)
    ensures
        forall|i: int|
            0 <= i < unblock_hosts(lines, hosts).len() ==> !mentions_any(
                #[trigger] unblock_hosts(lines, hosts)[i],
                hosts,
            ),
    decreases lines.len(),
{
    if lines.len() > 0 {
        lemma_unblock_clean(lines.drop_last(), hosts);
        let prev = unblock_hosts(lines.drop_last(), hosts);
        let cur = unblock_hosts(lines, hosts);
        assert forall|i: int| 0 <= i < cur.len() implies !mentions_any(#[trigger] cur[i], hosts) by {
            if i < prev.len() {
                assert(cur[i] == prev[i]);
            }
        }
    }
}

/// Unblocking changes nothing when no line contains an entry.
proof fn lemma_unblock_noop(lines: Seq<Seq<char>>, hosts: Seq<Seq<char>>)
    requires
        forall|i: int| 0 <= i < lines.len() ==> !mentions_any(#[trigger] lines[i], hosts),
    ensures
        unblock_hosts(lines, hosts) == lines,
    decreases lines.len(),
{
    if lines.len() > 0 {
        let lp = lines.drop_last();
        assert forall|i: int| 0 <= i < lp.len() implies !mentions_any(#[trigger] lp[i], hosts) by {
            assert(lp[i] == lines[i]);
        }
        lemma_unblock_noop(lp, hosts);
        assert(!mentions_any(lines[lines.len() - 1], hosts));
        assert(lp.push(lines.last()) =~= lines);
    }
}

/// Unblocking a concatenation unblocks each part.
proof fn lemma_unblock_append(a: Seq<Seq<char>>, b: Seq<Seq<char>>, hosts: Seq<Seq<char>>)
    ensures
        unblock_hosts(a + b, hosts) == unblock_hosts(a, hosts) + unblock_hosts(b, hosts),
    decreases b.len(),
{
    if b.len() == 0 {
        assert(a + b =~= a);
        assert(unblock_hosts(a, hosts) + unblock_hosts(b, hosts) =~= unblock_hosts(a, hosts));
    } else {
        lemma_unblock_append(a, b.drop_last(), hosts);
        assert((a + b).drop_last() =~= a + b.drop_last());
        assert((a + b).last() == b.last());
        let ua = unblock_hosts(a, hosts);
        let ub = unblock_hosts(b.drop_last(), hosts);
        assert((ua + ub).push(b.last()) =~= ua + ub.push(b.last()));
    }
}

/// Lines that are all entries of `hosts` vanish on unblocking.
proof fn lemma_unblock_entries(x: Seq<Seq<char>>, hosts: Seq<Seq<char>>)
    requires
        forall|k: int| 0 <= k < x.len() ==> hosts.contains(#[trigger] x[k]),
    ensures
        unblock_hosts(x, hosts) == Seq::<Seq<char>>::empty(),
    decreases x.len(),
{
    if x.len() > 0 {
        let xp = x.drop_last();
        assert forall|k: int| 0 <= k < xp.len() implies hosts.contains(#[trigger] xp[k]) by {
            assert(xp[k] == x[k]);
        }
        lemma_unblock_entries(xp, hosts);
        let k = x.len() - 1;
        assert(hosts.contains(x[k]));
        let j = choose|j: int| 0 <= j < hosts.len() && hosts[j] == x[k];
        lemma_self_substring(hosts[j]);
        assert(mentions_any(x.last(), hosts));
    }
}

/// Blocking keeps every line of the hosts file, in place, and appends only
/// Yandex entries after them.
pub proof fn law_block_keeps_lines(lines: Seq<Seq<char>>)
    ensures
        hosts_after_toggle(lines, true).subrange(0, lines.len() as int) == lines,
        forall|k: int|
            lines.len() <= k < hosts_after_toggle(lines, true).len() ==> yandex_hosts().contains(
                #[trigger] hosts_after_toggle(lines, true)[k],
            ),
{
    lemma_block_extends(lines, yandex_hosts());
}

/// After blocking, every Yandex entry is contained in some line of the hosts file.
pub proof fn law_block_covers_every_entry(lines: Seq<Seq<char>>)
    ensures
        forall|j: int|
            0 <= j < yandex_hosts().len() ==> mentioned(
                hosts_after_toggle(lines, true),
                #[trigger] yandex_hosts()[j],
            ),
{
    lemma_block_mentions_all(lines, yandex_hosts());
}

/// Blocking twice writes the same file as blocking once.
pub proof fn law_block_idempotent(lines: Seq<Seq<char>>)
    ensures
        hosts_after_toggle(hosts_after_toggle(lines, true), true) == hosts_after_toggle(lines, true),
{
    let b = block_hosts(lines, yandex_hosts());
    lemma_block_mentions_all(lines, yandex_hosts());
    lemma_block_noop(b, yandex_hosts());
}

/// After unblocking, no line of the hosts file contains a Yandex entry.
pub proof fn law_unblock_clears_every_entry(lines: Seq<Seq<char>>)
    ensures
        forall|i: int|
            0 <= i < hosts_after_toggle(lines, false).len() ==> !mentions_any(
                #[trigger] hosts_after_toggle(lines, false)[i],
                yandex_hosts(),
            ),
{
    lemma_unblock_clean(lines, yandex_hosts());
}

/// Unblocking twice writes the same file as unblocking once.
pub proof fn law_unblock_idempotent(lines: Seq<Seq<char>>)
    ensures
        hosts_after_toggle(hosts_after_toggle(lines, false), false) == hosts_after_toggle(
            lines,
            false,
        ),
{
    lemma_unblock_clean(lines, yandex_hosts());
    lemma_unblock_noop(unblock_hosts(lines, yandex_hosts()), yandex_hosts());
}

/// Unblocking after blocking gives what unblocking alone gives; a hosts file
/// that held no Yandex entry comes back unchanged.
pub proof fn law_unblock_undoes_block(lines: Seq<Seq<char>>)
    ensures
        hosts_after_toggle(hosts_after_toggle(lines, true), false) == hosts_after_toggle(
            lines,
            false,
        ),
        (forall|i: int| 0 <= i < lines.len() ==> !mentions_any(#[trigger] lines[i], yandex_hosts()))
            ==> hosts_after_toggle(hosts_after_toggle(lines, true), false) == lines,
{
    let hs = yandex_hosts();
    let b = block_hosts(lines, hs);
    lemma_block_extends(lines, hs);
    let x = b.subrange(lines.len() as int, b.len() as int);
    assert(b =~= lines + x);
    assert forall|k: int| 0 <= k < x.len() implies hs.contains(#[trigger] x[k]) by {
        assert(x[k] == b[k + lines.len()]);
    }
    lemma_unblock_entries(x, hs);
    lemma_unblock_append(lines, x, hs);
    assert(unblock_hosts(lines, hs) + Seq::<Seq<char>>::empty() =~= unblock_hosts(lines, hs));
    if forall|i: int| 0 <= i < lines.len() ==> !mentions_any(#[trigger] lines[i], hs) {
        lemma_unblock_noop(lines, hs);
    }
}

/// A separator of the block list.
pub open spec fn is_separator(c: char) -> bool {
    c == ',' || c == '\n'
}

proof fn lemma_pieces_have_no_separator(s: Seq<char>)
    ensures
        forall|i: int, k: int|
            0 <= i < piece_scan(s).0.len() && 0 <= k < piece_scan(s).0[i].len() ==> !is_separator(
                #[trigger] piece_scan(s).0[i][k],
            ),
        forall|k: int| 0 <= k < piece_scan(s).1.len() ==> !is_separator(#[trigger] piece_scan(s).1[k]),
    decreases s.len(),
{
    if s.len() > 0 {
        lemma_pieces_have_no_separator(s.drop_last());
        let p = piece_scan(s.drop_last());
        let q = piece_scan(s);
        if is_separator(s.last()) {
            assert forall|i: int, k: int| 0 <= i < q.0.len() && 0 <= k < q.0[i].len() implies !is_separator(
                #[trigger] q.0[i][k],
            ) by {
                if i < p.0.len() {
                    assert(q.0[i] == p.0[i]);
                } else {
                    assert(q.0[i] == p.1);
                }
            }
        } else {
            assert forall|k: int| 0 <= k < q.1.len() implies !is_separator(#[trigger] q.1[k]) by {
                if k < p.1.len() {
                    assert(q.1[k] == p.1[k]);
                }
            }
        }
    }
}

proof fn lemma_trim_is_clean(x: Seq<char>)
    requires
        forall|k: int| 0 <= k < x.len() ==> !is_separator(#[trigger] x[k]),
        trim(x).len() > 0,
    ensures
        forall|k: int| 0 <= k < trim(x).len() ==> !is_separator(#[trigger] trim(x)[k]),
        !crate::text::is_ws(trim(x)[0]),
        !crate::text::is_ws(trim(x)[trim(x).len() - 1]),
{
    crate::text::lemma_first_non_ws_bounds(x, 0);
    crate::text::lemma_last_non_ws_bounds(x, x.len() as int);
    let lo = crate::text::first_non_ws(x, 0);
    let hi = crate::text::last_non_ws_end(x, x.len() as int);
    assert(trim(x) == x.subrange(lo, hi));
    assert forall|k: int| 0 <= k < trim(x).len() implies !is_separator(#[trigger] trim(x)[k]) by {
        assert(trim(x)[k] == x[lo + k]);
    }
}

proof fn lemma_nonempty_trimmed_clean(ps: Seq<Seq<char>>)
    requires
        forall|i: int, k: int| 0 <= i < ps.len() && 0 <= k < ps[i].len() ==> !is_separator(#[trigger] ps[i][k]),
    ensures
        forall|i: int| 0 <= i < nonempty_trimmed(ps).len() ==> {
            let n = #[trigger] nonempty_trimmed(ps)[i];
            &&& is_file_name(n)
            &&& !crate::text::is_ws(n[0])
            &&& !crate::text::is_ws(n[n.len() - 1])
            &&& forall|k: int| 0 <= k < n.len() ==> !is_separator(#[trigger] n[k])
        },
    decreases ps.len(),
{
    if ps.len() > 0 {
        let pp = ps.drop_last();
        assert forall|i: int, k: int| 0 <= i < pp.len() && 0 <= k < pp[i].len() implies !is_separator(#[trigger] pp[i][k]) by {
            assert(pp[i] == ps[i]);
        }
        lemma_nonempty_trimmed_clean(pp);
        let last = ps.last();
        assert forall|k: int| 0 <= k < last.len() implies !is_separator(#[trigger] last[k]) by {
            assert(last[k] == ps[ps.len() - 1][k]);
        }
        if is_file_name(trim(last)) {
            lemma_trim_is_clean(last);
        }
        let prev = nonempty_trimmed(pp);
        let cur = nonempty_trimmed(ps);
        assert forall|i: int| 0 <= i < cur.len() implies {
            let n = #[trigger] cur[i];
            &&& is_file_name(n)
            &&& !crate::text::is_ws(n[0])
            &&& !crate::text::is_ws(n[n.len() - 1])
            &&& forall|k: int| 0 <= k < n.len() ==> !is_separator(#[trigger] n[k])
        } by {
            if i < prev.len() {
                assert(cur[i] == prev[i]);
            }
        }
    }
}

/// Every name taken from the block list is a single file name (non-empty, no
/// `/`, neither `.` nor `..`), so its stub lies directly in the stub directory;
/// it starts and ends with a non-whitespace character and holds no comma or
/// line break.
pub proof fn law_blocked_names_are_clean(raw: Seq<char>)
    ensures
        forall|i: int| 0 <= i < blocked_apps(raw).len() ==> {
            let n = #[trigger] blocked_apps(raw)[i];
            &&& is_file_name(n)
            &&& !crate::text::is_ws(n[0])
            &&& !crate::text::is_ws(n[n.len() - 1])
            &&& forall|k: int| 0 <= k < n.len() ==> !is_separator(#[trigger] n[k])
        },
{
    lemma_pieces_have_no_separator(raw);
    let p = piece_scan(raw);
    let ps = pieces(raw);
    assert forall|i: int, k: int| 0 <= i < ps.len() && 0 <= k < ps[i].len() implies !is_separator(#[trigger] ps[i][k]) by {
        if i < p.0.len() {
            assert(ps[i] == p.0[i]);
        } else {
            assert(ps[i] == p.1);
        }
    }
    lemma_nonempty_trimmed_clean(ps);
}

/// A line that the hosts file keeps as it is when written and read back:
/// no line break in it, and no carriage return at its end.
pub open spec fn plain_line(l: Seq<char>) -> bool {
    &&& forall|k: int| 0 <= k < l.len() ==> #[trigger] l[k] != '\n'
    &&& (l.len() > 0 ==> l.last() != '\r')
}

proof fn lemma_hosts_text_scan(ls: Seq<Seq<char>>)
    requires
        forall|i: int| 0 <= i < ls.len() ==> plain_line(#[trigger] ls[i]),
    ensures
        byte_line_scan(vstd::utf8::encode_utf8(hosts_text(ls))) == (
            ls.map_values(|l: Seq<char>| vstd::utf8::encode_utf8(l)),
            Seq::<u8>::empty(),
        ),
    decreases ls.len(),
{
    let enc = |l: Seq<char>| vstd::utf8::encode_utf8(l);
    if ls.len() == 0 {
        assert(hosts_text(ls) =~= Seq::<char>::empty());
        assert(vstd::utf8::encode_utf8(Seq::<char>::empty()) =~= Seq::<u8>::empty());
        assert(ls.map_values(enc) =~= Seq::<Seq<u8>>::empty());
    } else {
        let lp = ls.drop_last();
        assert forall|i: int| 0 <= i < lp.len() implies plain_line(#[trigger] lp[i]) by {
            assert(lp[i] == ls[i]);
        }
        lemma_hosts_text_scan(lp);
        let l = ls.last();
        assert(plain_line(ls[ls.len() - 1]));
        let t = hosts_text(lp);
        crate::text::lemma_encode_utf8_concat(t + l, seq!['\n']);
        crate::text::lemma_encode_utf8_concat(t, l);
        let et = vstd::utf8::encode_utf8(t);
        let el = vstd::utf8::encode_utf8(l);
        assert(seq!['\n'].drop_first() =~= Seq::<char>::empty());
        assert(vstd::utf8::encode_utf8(seq!['\n']) =~= vstd::utf8::encode_scalar('\n' as u32)
            + vstd::utf8::encode_utf8(Seq::<char>::empty()));
        assert(vstd::utf8::encode_utf8(seq!['\n']) =~= seq![10u8]) by {
            crate::text::lemma_ascii_newline();
        }
        let whole = et + el + seq![10u8];
        assert(vstd::utf8::encode_utf8(hosts_text(ls)) == whole);
        crate::text::lemma_encode_no_newline(l);
        crate::text::lemma_byte_scan_append(et, el);
        assert(byte_line_scan(et).1 + el =~= el);
        assert(whole.drop_last() =~= et + el);
        assert(whole.last() == 10);
        if l.len() > 0 {
            crate::text::lemma_encode_last_byte(l);
        } else {
            assert(el =~= Seq::<u8>::empty());
        }
        assert(strip_cr_bytes(el) == el);
        assert(lp.map_values(enc).push(el) =~= ls.map_values(enc));
    }
}

proof fn lemma_decode_encoded(ls: Seq<Seq<char>>)
    ensures
        decoded_lines(ls.map_values(|l: Seq<char>| vstd::utf8::encode_utf8(l))) == ls,
    decreases ls.len(),
{
    broadcast use vstd::utf8::encode_utf8_valid_utf8, vstd::utf8::encode_utf8_decode_utf8;

    let enc = |l: Seq<char>| vstd::utf8::encode_utf8(l);
    if ls.len() > 0 {
        lemma_decode_encoded(ls.drop_last());
        assert(ls.map_values(enc).drop_last() =~= ls.drop_last().map_values(enc));
        assert(ls.map_values(enc).last() == vstd::utf8::encode_utf8(ls.last()));
        assert(ls.drop_last().push(ls.last()) =~= ls);
    } else {
        assert(ls.map_values(enc) =~= Seq::<Seq<u8>>::empty());
    }
}

/// Reading back the hosts file that was written for `lines` gives `lines`,
/// when no line holds a line break or ends with a carriage return.
pub proof fn law_hosts_file_reads_back(lines: Seq<Seq<char>>)
    requires
        forall|i: int| 0 <= i < lines.len() ==> plain_line(#[trigger] lines[i]),
    ensures
        hosts_file_lines(vstd::utf8::encode_utf8(hosts_text(lines))) == lines,
{
    lemma_hosts_text_scan(lines);
    lemma_decode_encoded(lines);
}

proof fn lemma_entries_plain()
    ensures
        forall|j: int| 0 <= j < yandex_hosts().len() ==> plain_line(#[trigger] yandex_hosts()[j]),
{
    reveal_strlit("127.0.0.1 yandex.ru");
    reveal_strlit("127.0.0.1 www.yandex.ru");
    reveal_strlit("127.0.0.1 metrika.yandex.ru");
    reveal_strlit("127.0.0.1 mc.yandex.ru");
    reveal_strlit("127.0.0.1 passport.yandex.ru");
    assert(plain_line(yandex_hosts()[0]));
    assert(plain_line(yandex_hosts()[1]));
    assert(plain_line(yandex_hosts()[2]));
    assert(plain_line(yandex_hosts()[3]));
    assert(plain_line(yandex_hosts()[4]));
}

proof fn lemma_unblock_subset(lines: Seq<Seq<char>>, hosts: Seq<Seq<char>>)
    ensures
        forall|i: int|
            0 <= i < unblock_hosts(lines, hosts).len() ==> lines.contains(
                #[trigger] unblock_hosts(lines, hosts)[i],
            ),
    decreases lines.len(),
{
    if lines.len() > 0 {
        let lp = lines.drop_last();
        lemma_unblock_subset(lp, hosts);
        let prev = unblock_hosts(lp, hosts);
        let cur = unblock_hosts(lines, hosts);
        assert forall|i: int| 0 <= i < cur.len() implies lines.contains(#[trigger] cur[i]) by {
            if i < prev.len() {
                assert(cur[i] == prev[i]);
                assert(lp.contains(prev[i]));
                let j = choose|j: int| 0 <= j < lp.len() && lp[j] == prev[i];
                assert(lines[j] == lp[j]);
            } else {
                assert(cur[i] == lines[lines.len() - 1]);
            }
        }
    }
}

/// The hosts file written after blocking or unblocking reads back as exactly
/// the lines that were computed, when the file's lines held no line break and
/// ended with no carriage return.
pub proof fn law_toggled_hosts_file_reads_back(lines: Seq<Seq<char>>, block: bool)
    requires
        forall|i: int| 0 <= i < lines.len() ==> plain_line(#[trigger] lines[i]),
    ensures
        hosts_file_lines(vstd::utf8::encode_utf8(hosts_text(hosts_after_toggle(lines, block))))
            == hosts_after_toggle(lines, block),
{
    let out = hosts_after_toggle(lines, block);
    if block {
        lemma_block_extends(lines, yandex_hosts());
        lemma_entries_plain();
        assert forall|i: int| 0 <= i < out.len() implies plain_line(#[trigger] out[i]) by {
            if i < lines.len() {
                assert(out.subrange(0, lines.len() as int)[i] == out[i]);
            } else {
                assert(yandex_hosts().contains(out[i]));
                let j = choose|j: int| 0 <= j < yandex_hosts().len() && yandex_hosts()[j] == out[i];
                assert(plain_line(yandex_hosts()[j]));
            }
        }
    } else {
        lemma_unblock_subset(lines, yandex_hosts());
        assert forall|i: int| 0 <= i < out.len() implies plain_line(#[trigger] out[i]) by {
            assert(lines.contains(out[i]));
            let j = choose|j: int| 0 <= j < lines.len() && lines[j] == out[i];
            assert(plain_line(lines[j]));
        }
    }
    law_hosts_file_reads_back(out);
}

} // verus!
