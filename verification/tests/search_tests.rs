use makutweaker::mainwindow::{JsonValue, MainWindowHandler};

fn s(x: &str) -> JsonValue {
    JsonValue::Str(x.to_string())
}

fn obj(members: Vec<(&str, JsonValue)>) -> JsonValue {
    JsonValue::Object(members.into_iter().map(|(k, v)| (k.to_string(), v)).collect())
}

fn catalog() -> JsonValue {
    obj(vec![(
        "categories",
        obj(vec![
            (
                "base",
                obj(vec![(
                    "catname",
                    obj(vec![("privacy", s("Конфиденциальность")), ("explorer", s("Проводник"))]),
                )]),
            ),
            ("pmgr", obj(vec![("main", obj(vec![("x", s("Менеджер пакетов"))]))])),
            (
                "explorer",
                obj(vec![(
                    "main",
                    obj(vec![
                        ("label", s("Проводник")),
                        ("hidden", s("Show hidden files")),
                        ("tooltip_hidden", s("Tooltip text")),
                        ("ext", s("Show file extensions")),
                        ("count", JsonValue::Number("3".to_string())),
                    ]),
                )]),
            ),
            (
                "privacy",
                obj(vec![(
                    "main",
                    obj(vec![
                        ("telemetry", s("Disable telemetry")),
                        ("long", s(&"x".repeat(91))),
                        ("edge", s(&"y".repeat(90))),
                    ]),
                )]),
            ),
            ("misc", obj(vec![("main", obj(vec![("hidden2", s("Hidden tray icons"))]))])),
            ("nomain", obj(vec![("other", s("ignored"))])),
        ]),
    )])
}

#[test]
fn library_holds_the_tweaks_of_each_category() {
    let h = MainWindowHandler::new(&catalog());
    let lib = h.suggestions();
    let got: Vec<(&str, &str, &str, &str)> = lib
        .iter()
        .map(|t| {
            (
                t.id.as_str(),
                t.display_name.as_str(),
                t.category_key.as_str(),
                t.internal_category_tag.as_str(),
            )
        })
        .collect();
    let edge = "y".repeat(90);
    assert_eq!(
        got,
        vec![
            ("hidden", "Show hidden files", "Проводник", "explorer"),
            ("ext", "Show file extensions", "Проводник", "explorer"),
            ("telemetry", "Disable telemetry", "Конфиденциальность", "privacy"),
            ("edge", edge.as_str(), "Конфиденциальность", "privacy"),
            ("hidden2", "Hidden tray icons", "misc", "misc"),
        ]
    );
}

#[test]
fn byte_length_limit_counts_utf8_bytes() {
    // 46 Cyrillic letters are 92 bytes, over the limit; 45 are 90 bytes
    let long = "я".repeat(46);
    let fits = "я".repeat(45);
    let cat = obj(vec![(
        "categories",
        obj(vec![("c", obj(vec![("main", obj(vec![("k1", s(&long)), ("k2", s(&fits))]))]))]),
    )]);
    let h = MainWindowHandler::new(&cat);
    let names: Vec<&str> = h.suggestions().iter().map(|t| t.display_name.as_str()).collect();
    assert_eq!(names, vec![fits.as_str()]);
}

#[test]
fn unparsable_catalog_gives_empty_library() {
    let h = MainWindowHandler::new(&JsonValue::Null);
    assert!(h.suggestions().is_empty());
    assert!(h.handle_search_changed("a".to_string()).is_empty());
    let h = MainWindowHandler::new(&obj(vec![("categories", JsonValue::Array(Vec::new()))]));
    assert!(h.suggestions().is_empty());
}

#[test]
fn category_names_need_all_strings() {
    let cat = obj(vec![(
        "categories",
        obj(vec![
            ("base", obj(vec![("catname", obj(vec![("c", s("Named")), ("d", JsonValue::Bool(true))]))])),
            ("c", obj(vec![("main", obj(vec![("a", s("Tweak A"))]))])),
        ]),
    )]);
    let h = MainWindowHandler::new(&cat);
    assert_eq!(h.suggestions()[0].category_key, "c");
}

#[test]
fn search_is_case_insensitive() {
    let h = MainWindowHandler::new(&catalog());
    assert_eq!(h.handle_search_changed("HIDDEN".to_string()), vec!["Show hidden files", "Hidden tray icons"]);
    assert_eq!(h.handle_search_changed("telemetry".to_string()), vec!["Disable telemetry"]);
    assert!(h.handle_search_changed("nothing like this".to_string()).is_empty());
}

#[test]
fn blank_query_gives_nothing() {
    let h = MainWindowHandler::new(&catalog());
    assert!(h.handle_search_changed(String::new()).is_empty());
    assert!(h.handle_search_changed("   \t".to_string()).is_empty());
}

#[test]
fn query_is_not_trimmed_for_matching() {
    let h = MainWindowHandler::new(&catalog());
    assert_eq!(h.handle_search_changed(" file".to_string()), vec!["Show hidden files", "Show file extensions"]);
    assert!(h.handle_search_changed("files ".to_string()).is_empty());
}

#[test]
fn at_most_ten_suggestions() {
    let members: Vec<(String, JsonValue)> =
        (0..15).map(|i| (format!("t{}", i), s(&format!("Tweak number {}", i)))).collect();
    let cat = obj(vec![(
        "categories",
        obj(vec![("c", obj(vec![("main", JsonValue::Object(members))]))]),
    )]);
    let h = MainWindowHandler::new(&cat);
    let r = h.handle_search_changed("tweak".to_string());
    assert_eq!(r.len(), 10);
    assert_eq!(r[0], "Tweak number 0");
    assert_eq!(r[9], "Tweak number 9");
}

#[test]
fn duplicate_member_names_are_refused() {
    assert!(MainWindowHandler::checked_new(&catalog()).is_some());
    assert!(MainWindowHandler::checked_new(&JsonValue::Null).is_some());
    let dup = obj(vec![(
        "categories",
        obj(vec![("c", obj(vec![("main", obj(vec![("k", s("One")), ("k", s("Two"))]))]))]),
    )]);
    assert!(MainWindowHandler::checked_new(&dup).is_none());
    let dup_root = obj(vec![("categories", JsonValue::Null), ("categories", JsonValue::Null)]);
    assert!(MainWindowHandler::checked_new(&dup_root).is_none());
    let h = MainWindowHandler::checked_new(&catalog()).unwrap();
    assert_eq!(h.suggestions().len(), 5);
}

#[test]
fn catalog_text_is_parsed_into_the_library() {
    let text = r#"{
        "categories": {
            "zz": { "main": { "x": "Second tweak", "a": "First tweak", "label": "Heading" } },
            "base": { "catname": { "zz": "Last category", "aa": "First category" } },
            "aa": { "main": { "t": "Tweak of aa", "n": 5 } },
            "quick": { "main": { "q": "Quick tweak" } }
        }
    }"#;
    let h = MainWindowHandler::from_catalog_text(text);
    let got: Vec<(&str, &str, &str, &str)> = h
        .suggestions()
        .iter()
        .map(|t| {
            (
                t.id.as_str(),
                t.display_name.as_str(),
                t.category_key.as_str(),
                t.internal_category_tag.as_str(),
            )
        })
        .collect();
    assert_eq!(
        got,
        vec![
            ("t", "Tweak of aa", "First category", "aa"),
            ("a", "First tweak", "Last category", "zz"),
            ("x", "Second tweak", "Last category", "zz"),
        ]
    );
    assert_eq!(h.handle_search_changed("tweak".to_string()).len(), 3);
}

#[test]
fn catalog_text_that_is_not_json_gives_empty_library() {
    assert!(MainWindowHandler::from_catalog_text("").suggestions().is_empty());
    assert!(MainWindowHandler::from_catalog_text("{ \"categories\": ").suggestions().is_empty());
    assert!(MainWindowHandler::from_catalog_text("[1, 2]").suggestions().is_empty());
}

#[test]
fn catalog_text_with_repeated_member_keeps_the_last() {
    let h = MainWindowHandler::from_catalog_text(
        r#"{"categories": {"c": {"main": {"k": "One", "k": "Two"}}}}"#,
    );
    let names: Vec<&str> = h.suggestions().iter().map(|t| t.display_name.as_str()).collect();
    assert_eq!(names, vec!["Two"]);
}

#[test]
fn upper_and_lower_case_queries_agree() {
    let h = MainWindowHandler::new(&catalog());
    for q in ["hidden", "HIDDEN", "HiDdEn", "  tray "] {
        let upper = h.handle_search_changed(q.to_ascii_uppercase());
        let lower = h.handle_search_changed(q.to_ascii_lowercase());
        assert_eq!(upper, lower);
        assert_eq!(h.handle_search_changed(q.to_string()), lower);
    }
}
