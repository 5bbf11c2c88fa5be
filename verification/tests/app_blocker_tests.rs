use makutweaker::app_blocker::AppBlockerHandler;

fn lines(v: &[&str]) -> Vec<String> {
    v.iter().map(|s| s.to_string()).collect()
}

const ENTRIES: [&str; 5] = [
    "127.0.0.1 yandex.ru",
    "127.0.0.1 www.yandex.ru",
    "127.0.0.1 metrika.yandex.ru",
    "127.0.0.1 mc.yandex.ru",
    "127.0.0.1 passport.yandex.ru",
];

#[test]
fn hosts_path_is_etc_hosts() {
    let h = AppBlockerHandler::new();
    assert_eq!(h.hosts_path(), "/etc/hosts");
}

#[test]
fn block_appends_missing_entries_after_existing_lines() {
    let h = AppBlockerHandler::new();
    let before = lines(&["127.0.0.1 localhost", "::1 localhost"]);
    let after = h.updated_hosts_lines(before.clone(), true);
    let mut expected = before.clone();
    expected.extend(ENTRIES.iter().map(|s| s.to_string()));
    assert_eq!(after, expected);
}

#[test]
fn block_skips_entries_already_present() {
    let h = AppBlockerHandler::new();
    let before = lines(&["127.0.0.1 mc.yandex.ru # added by hand", "127.0.0.1 localhost"]);
    let after = h.updated_hosts_lines(before.clone(), true);
    assert_eq!(
        after,
        lines(&[
            "127.0.0.1 mc.yandex.ru # added by hand",
            "127.0.0.1 localhost",
            "127.0.0.1 yandex.ru",
            "127.0.0.1 www.yandex.ru",
            "127.0.0.1 metrika.yandex.ru",
            "127.0.0.1 passport.yandex.ru",
        ])
    );
}

#[test]
fn block_twice_equals_block_once() {
    let h = AppBlockerHandler::new();
    let once = h.updated_hosts_lines(lines(&["a", "b"]), true);
    let twice = h.updated_hosts_lines(once.clone(), true);
    assert_eq!(once, twice);
}

#[test]
fn unblock_drops_every_line_with_an_entry() {
    let h = AppBlockerHandler::new();
    let before = lines(&[
        "127.0.0.1 localhost",
        "127.0.0.1 yandex.ru",
        "# 127.0.0.1 passport.yandex.ru commented",
        "10.0.0.1 router",
    ]);
    let after = h.updated_hosts_lines(before, false);
    assert_eq!(after, lines(&["127.0.0.1 localhost", "10.0.0.1 router"]));
}

#[test]
fn unblock_after_block_restores_a_clean_file() {
    let h = AppBlockerHandler::new();
    let before = lines(&["127.0.0.1 localhost", "", "::1 ip6-localhost"]);
    let blocked = h.updated_hosts_lines(before.clone(), true);
    let restored = h.updated_hosts_lines(blocked, false);
    assert_eq!(restored, before);
}

#[test]
fn unblock_is_idempotent() {
    let h = AppBlockerHandler::new();
    let once = h.updated_hosts_lines(lines(&["x", "127.0.0.1 yandex.ru", "y"]), false);
    let twice = h.updated_hosts_lines(once.clone(), false);
    assert_eq!(once, twice);
    assert_eq!(once, lines(&["x", "y"]));
}

#[test]
fn empty_hosts_file_blocks_to_the_entries() {
    let h = AppBlockerHandler::new();
    let after = h.updated_hosts_lines(Vec::new(), true);
    assert_eq!(after.len(), 5);
    assert!(h.updated_hosts_lines(Vec::new(), false).is_empty());
}

#[test]
fn block_list_is_split_at_commas_and_newlines() {
    let h = AppBlockerHandler::new();
    let names = h.blocked_app_names("firefox, telegram-desktop\n  steam ,,\n\t\n code ");
    assert_eq!(names, vec!["firefox", "telegram-desktop", "steam", "code"]);
}

#[test]
fn block_list_of_blanks_is_empty() {
    let h = AppBlockerHandler::new();
    assert!(h.blocked_app_names("").is_empty());
    assert!(h.blocked_app_names(" , \n ,").is_empty());
}

#[test]
fn block_list_trims_unicode_whitespace() {
    let h = AppBlockerHandler::new();
    let names = h.blocked_app_names("\u{3000}vlc\u{a0},gimp");
    assert_eq!(names, vec!["vlc", "gimp"]);
}

#[test]
fn stub_script_refuses_to_run() {
    let h = AppBlockerHandler::new();
    assert_eq!(
        h.stub_script(),
        "#!/bin/sh\necho 'This application has been blocked by SteeliumTweaker!'\nexit 1\n"
    );
}

#[test]
fn hosts_file_bytes_are_cut_into_lines() {
    let h = AppBlockerHandler::new();
    let got = h.hosts_lines_from_bytes(b"127.0.0.1 localhost\r\n\n::1 x\nbad \xff line\nlast");
    assert_eq!(got, lines(&["127.0.0.1 localhost", "", "::1 x", "last"]));
    assert!(h.hosts_lines_from_bytes(b"").is_empty());
    assert_eq!(h.hosts_lines_from_bytes(b"a\n"), lines(&["a"]));
    assert_eq!(h.hosts_lines_from_bytes(b"a\r"), lines(&["a\r"]));
}

#[test]
fn hosts_file_text_ends_each_line() {
    let h = AppBlockerHandler::new();
    assert_eq!(h.render_hosts(&lines(&["a", "", "b c"])), "a\n\nb c\n");
    assert_eq!(h.render_hosts(&Vec::new()), "");
}

#[test]
fn written_hosts_file_reads_back() {
    let h = AppBlockerHandler::new();
    let hosts = lines(&["127.0.0.1 localhost", "", "# комментарий", "::1 ip6"]);
    for block in [true, false] {
        let updated = h.updated_hosts_lines(hosts.clone(), block);
        let text = h.render_hosts(&updated);
        assert_eq!(h.hosts_lines_from_bytes(text.as_bytes()), updated);
    }
}

#[test]
fn block_list_keeps_only_names_inside_the_stub_directory() {
    let h = AppBlockerHandler::new();
    let names = h.blocked_app_names("/x, ../x, /etc/hosts, a/b, ., .., ..., .hidden, ok");
    assert_eq!(names, vec!["...", ".hidden", "ok"]);
}

#[test]
fn stubs_are_made_executable_with_chmod() {
    let h = AppBlockerHandler::new();
    let c = h.make_executable_command("/home/u/.local/bin/vlc");
    assert_eq!(c.program, "chmod");
    assert_eq!(c.args, vec!["+x".to_string(), "/home/u/.local/bin/vlc".to_string()]);
}
