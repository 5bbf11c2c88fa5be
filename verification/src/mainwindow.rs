//! The main window: the tweak search built from the localization catalog.
use vstd::prelude::*;

use crate::text::{
    ascii_lower, ascii_lower_char, lemma_trim_ascii_lower, has_prefix, has_substring, lowercase, str_contains, str_eq, str_starts_with,
    to_lowercase, trim, trimmed_chars, utf8_longer_than,
};

verus! {

use vstd::utf8::is_ascii_chars;

broadcast use vstd::string::group_string_axioms;

/// A JSON document, as the localization catalog is written.
pub enum JsonValue {
    Null,
    Bool(bool),
    /// A number, kept in its decimal text.
    Number(String),
    Str(String),
    Array(Vec<JsonValue>),
    /// The members of an object, in order.
    Object(Vec<(String, JsonValue)>),
}

/// `serde_json::Value`, the document that `serde_json` parses text into.
#[verifier::external_type_specification]
#[verifier::external_body]
pub struct ExSerdeJsonValue(serde_json::Value);

/// What `serde_json::from_str` parses `text` into, in the library's JSON
/// form; `None` when `text` is not a JSON document.
pub uninterp spec fn parsed_catalog(text: Seq<char>) -> Option<JsonValue>;

/// The library's JSON form of a parsed `serde_json::Value`: each variant
/// becomes the variant of the same name, a number its decimal text, and an
/// object its members in the order the map yields them.
#[verifier::external_body]
fn json_of(v: serde_json::Value) -> JsonValue {
    match v {
        serde_json::Value::Null => JsonValue::Null,
        serde_json::Value::Bool(b) => JsonValue::Bool(b),
        serde_json::Value::Number(n) => JsonValue::Number(n.to_string()),
        serde_json::Value::String(t) => JsonValue::Str(t),
        serde_json::Value::Array(a) => JsonValue::Array(a.into_iter().map(json_of).collect()),
        serde_json::Value::Object(o) => JsonValue::Object(
            o.into_iter().map(|(k, m)| (k, json_of(m))).collect(),
        ),
    }
}

/// `serde_json::from_str` into a `serde_json::Value`, in the library's JSON
/// form; `None` when the text is not JSON. The result is named by
/// `parsed_catalog`. Each object of a parsed document is a `serde_json::Map`
/// (a `BTreeMap`, or an `IndexMap` with the `preserve_order` feature), into
/// which the parser inserts every member, so no two members of an object
/// share a name; what the parse gives beyond that is left to the name.
#[verifier::external_body]
fn parse_catalog(text: &str) -> (r: Option<JsonValue>)
    ensures
        r == parsed_catalog(text@),
        match r {
            Some(v) => catalog_well_formed(v),
            None => true,
        },
{
    serde_json::from_str::<serde_json::Value>(text).ok().map(json_of)
}

/// A tweak that the search box can suggest.
#[derive(Debug, Clone)]
pub struct TweakSuggestion {
    pub id: String,
    pub display_name: String,
    pub category_key: String,
    pub internal_category_tag: String,
}

/// What a suggestion holds.
pub struct SuggestionSpec {
    pub id: Seq<char>,
    pub display_name: Seq<char>,
    pub category_key: Seq<char>,
    pub internal_category_tag: Seq<char>,
}

impl View for TweakSuggestion {
    type V = SuggestionSpec;

    open spec fn view(&self) -> SuggestionSpec {
        SuggestionSpec {
            id: self.id@,
            display_name: self.display_name@,
            category_key: self.category_key@,
            internal_category_tag: self.internal_category_tag@,
        }
    }
}

/// The views of a list of suggestions.
pub open spec fn suggestion_views(v: Seq<TweakSuggestion>) -> Seq<SuggestionSpec> {
    v.map_values(|t: TweakSuggestion| t@)
}

/// The value of member `key` among `entries`; a later member wins over an
/// earlier one of the same name.
pub open spec fn lookup(entries: Seq<(String, JsonValue)>, key: Seq<char>) -> Option<JsonValue>
    decreases entries.len(),
{
    if entries.len() == 0 {
        None
    } else if entries.last().0@ == key {
        Some(entries.last().1)
    } else {
        lookup(entries.drop_last(), key)
    }
}

/// Member `key` of `v` when `v` is an object (what `Value::get` gives).
pub open spec fn json_get(v: JsonValue, key: Seq<char>) -> Option<JsonValue> {
    match v {
        JsonValue::Object(es) => lookup(es@, key),
        _ => None,
    }
}

/// The names of the categories: the members of `categories.base.catname`
/// when that is an object of strings, else none.
pub open spec fn category_names(categories: JsonValue) -> Option<Seq<(String, JsonValue)>> {
    match json_get(categories, "base"@) {
        Some(base) => match json_get(base, "catname"@) {
            Some(JsonValue::Object(es)) => if forall|i: int|
                0 <= i < es@.len() ==> (#[trigger] es@[i]).1 is Str {
                Some(es@)
            } else {
                None
            },
            _ => None,
        },
        None => None,
    }
}

/// The name shown for category `cat`: its entry in `names`, else `cat` itself.
pub open spec fn display_category(names: Option<Seq<(String, JsonValue)>>, cat: Seq<char>) -> Seq<
    char,
> {
    match names {
        Some(es) => match lookup(es, cat) {
            Some(JsonValue::Str(d)) => d@,
            _ => cat,
        },
        None => cat,
    }
}

/// Categories that the search leaves out.
pub open spec fn skipped_category(name: Seq<char>) -> bool {
    ||| name == "base"@
    ||| name == "pmgr"@
    ||| name == "perfor"@
    ||| name == "settings"@
    ||| name == "ab"@
    ||| name == "quick"@
}

/// Keys of a category's `main` object that are labels, not tweaks.
pub open spec fn ignored_key(k: Seq<char>) -> bool {
    ||| k == "label"@
    ||| k == "choose"@
    ||| k == "showall"@
    ||| k == "info1"@
    ||| k == "info2"@
    ||| k == "info3"@
    ||| k == "chk"@
    ||| k == "comp"@
    ||| k == "b"@
    ||| k == "mode1"@
    ||| k == "mode2"@
    ||| k == "mode3"@
    ||| k == "tpmy"@
    ||| k == "tpmn"@
    ||| k == "tooltip"@
    ||| k == "title"@
    ||| k == "info"@
    ||| has_prefix(k, "tooltip"@)
}

/// The suggestion a tweak member gives, if any: it must not be a label, its
/// value must be a string, and that string at most 90 bytes long in UTF-8.
pub open spec fn tweak_entry_suggestion(
    entry: (String, JsonValue),
    tag: Seq<char>,
    display: Seq<char>,
) -> Option<SuggestionSpec> {
    if ignored_key(entry.0@) {
        None
    } else {
        match entry.1 {
            JsonValue::Str(d) => if vstd::utf8::encode_utf8(d@).len() > 90 {
                None
            } else {
                Some(
                    SuggestionSpec {
                        id: entry.0@,
                        display_name: d@,
                        category_key: display,
                        internal_category_tag: tag,
                    },
                )
            },
            _ => None,
        }
    }
}

/// The suggestions of the members `tweaks` of a category's `main` object.
pub open spec fn tweak_suggestions(
    tweaks: Seq<(String, JsonValue)>,
    tag: Seq<char>,
    display: Seq<char>,
) -> Seq<SuggestionSpec>
    decreases tweaks.len(),
{
    if tweaks.len() == 0 {
        Seq::empty()
    } else {
        let prev = tweak_suggestions(tweaks.drop_last(), tag, display);
        match tweak_entry_suggestion(tweaks.last(), tag, display) {
            Some(s) => prev.push(s),
            None => prev,
        }
    }
}

/// The suggestions of one category member.
pub open spec fn category_entry_suggestions(
    entry: (String, JsonValue),
    names: Option<Seq<(String, JsonValue)>>,
) -> Seq<SuggestionSpec> {
    if skipped_category(entry.0@) {
        Seq::empty()
    } else {
        match json_get(entry.1, "main"@) {
            Some(JsonValue::Object(tweaks)) => tweak_suggestions(
                tweaks@,
                entry.0@,
                display_category(names, entry.0@),
            ),
            _ => Seq::empty(),
        }
    }
}

/// The suggestions of the category members `cats`, in order.
pub open spec fn category_suggestions(
    cats: Seq<(String, JsonValue)>,
    names: Option<Seq<(String, JsonValue)>>,
) -> Seq<SuggestionSpec>
    decreases cats.len(),
{
    if cats.len() == 0 {
        Seq::empty()
    } else {
        category_suggestions(cats.drop_last(), names) + category_entry_suggestions(
            cats.last(),
            names,
        )
    }
}

/// The search library built from the localization catalog `root`.
pub open spec fn search_library_of(root: JsonValue) -> Seq<SuggestionSpec> {
    match json_get(root, "categories"@) {
        Some(categories) => match categories {
            JsonValue::Object(cats) => category_suggestions(cats@, category_names(categories)),
            _ => Seq::empty(),
        },
        None => Seq::empty(),
    }
}

/// The search library built from the localization catalog written as JSON in
/// `text`; empty when `text` is not JSON.
pub open spec fn catalog_library(text: Seq<char>) -> Seq<SuggestionSpec> {
    match parsed_catalog(text) {
        Some(root) => search_library_of(root),
        None => Seq::empty(),
    }
}

/// The display names of `lib`, in order, whose lowercase form contains `q`.
pub open spec fn search_hits(lib: Seq<SuggestionSpec>, q: Seq<char>) -> Seq<Seq<char>>
    decreases lib.len(),
{
    if lib.len() == 0 {
        Seq::empty()
    } else {
        let prev = search_hits(lib.drop_last(), q);
        if has_substring(lowercase(lib.last().display_name), q) {
            prev.push(lib.last().display_name)
        } else {
            prev
        }
    }
}

/// The suggestions shown for `query`: none for a blank query, else the first
/// ten display names (or fewer) whose lowercase form contains the lowercase query.
pub open spec fn search_results(lib: Seq<SuggestionSpec>, query: Seq<char>) -> Seq<Seq<char>> {
    if trim(query).len() == 0 {
        Seq::empty()
    } else {
        let hits = search_hits(lib, lowercase(query));
        if hits.len() <= 10 {
            hits
        } else {
            hits.take(10)
        }
    }
}

/// The suggestions for a query of ASCII characters whose letters, made small,
/// give `lq`: none when it is blank, else the first ten (or fewer) display
/// names whose lowercase form contains `lq`. It depends on the query only
/// through `lq`, so the case of the query's letters does not matter.
pub open spec fn ascii_search_results(lib: Seq<SuggestionSpec>, lq: Seq<char>) -> Seq<Seq<char>> {
    if trim(lq).len() == 0 {
        Seq::empty()
    } else {
        let hits = search_hits(lib, lq);
        if hits.len() <= 10 {
            hits
        } else {
            hits.take(10)
        }
    }
}

/// The uppercase form of `c` when it is an ASCII small letter, else `c`.
pub open spec fn ascii_upper_char(c: char) -> char {
    if 97 <= (c as u32) <= 122 {
        ((c as u32) - 32) as char
    } else {
        c
    }
}

/// `s` with every ASCII small letter made capital (what
/// `str::to_ascii_uppercase` gives).
pub open spec fn ascii_upper(s: Seq<char>) -> Seq<char> {
    s.map_values(|c: char| ascii_upper_char(c))
}

proof fn lemma_case_of_char(c: char)
    requires
        '\0' <= c <= '\u{7f}',
    ensures
        '\0' <= ascii_upper_char(c) <= '\u{7f}',
        '\0' <= ascii_lower_char(c) <= '\u{7f}',
        ascii_lower_char(ascii_upper_char(c)) == ascii_lower_char(c),
        ascii_lower_char(ascii_lower_char(c)) == ascii_lower_char(c),
{
    let u = c as u32;
    if 97 <= u <= 122 {
        assert((u - 32) as char as u32 == u - 32);
    }
    if 65 <= u <= 90 {
        assert((u + 32) as char as u32 == u + 32);
    }
}

/// The search ignores the case of an ASCII query: the query, its uppercase
/// form and its lowercase form are all ASCII, and all three get the same
/// suggestions (see `handle_search_changed`).
pub proof fn law_search_ignores_ascii_case(lib: Seq<SuggestionSpec>, query: Seq<char>)
    requires
        is_ascii_chars(query),
    ensures
        is_ascii_chars(ascii_upper(query)),
        is_ascii_chars(ascii_lower(query)),
        ascii_search_results(lib, ascii_lower(ascii_upper(query))) == ascii_search_results(
            lib,
            ascii_lower(query),
        ),
        ascii_search_results(lib, ascii_lower(ascii_lower(query))) == ascii_search_results(
            lib,
            ascii_lower(query),
        ),
{
    assert forall|i: int| 0 <= i < query.len() implies ascii_lower(ascii_upper(query))[i]
        == ascii_lower(query)[i] && ascii_lower(ascii_lower(query))[i] == ascii_lower(query)[i]
        && '\0' <= #[trigger] ascii_upper(query)[i] <= '\u{7f}' && '\0' <= ascii_lower(query)[i]
        <= '\u{7f}' by {
        lemma_case_of_char(query[i]);
    }
    assert(ascii_lower(ascii_upper(query)) =~= ascii_lower(query));
    assert(ascii_lower(ascii_lower(query)) =~= ascii_lower(query));
}

proof fn lemma_tweak_ids_not_labels(
    tweaks: Seq<(String, JsonValue)>,
    tag: Seq<char>,
    display: Seq<char>,
)
    ensures
        forall|i: int|
            0 <= i < tweak_suggestions(tweaks, tag, display).len() ==> !ignored_key(
                (#[trigger] tweak_suggestions(tweaks, tag, display)[i]).id,
            ),
    decreases tweaks.len(),
{
    if tweaks.len() > 0 {
        lemma_tweak_ids_not_labels(tweaks.drop_last(), tag, display);
        let prev = tweak_suggestions(tweaks.drop_last(), tag, display);
        let all = tweak_suggestions(tweaks, tag, display);
        match tweak_entry_suggestion(tweaks.last(), tag, display) {
            Some(x) => {
                assert(x.id == tweaks.last().0@);
                assert(all == prev.push(x));
                assert forall|i: int| 0 <= i < all.len() implies !ignored_key(
                    (#[trigger] all[i]).id,
                ) by {
                    if i < prev.len() {
                        assert(all[i] == prev[i]);
                    }
                }
            },
            None => {},
        }
    }
}

proof fn lemma_category_ids_not_labels(
    cats: Seq<(String, JsonValue)>,
    names: Option<Seq<(String, JsonValue)>>,
)
    ensures
        forall|i: int|
            0 <= i < category_suggestions(cats, names).len() ==> !ignored_key(
                (#[trigger] category_suggestions(cats, names)[i]).id,
            ),
    decreases cats.len(),
{
    if cats.len() > 0 {
        lemma_category_ids_not_labels(cats.drop_last(), names);
        let prev = category_suggestions(cats.drop_last(), names);
        let last = category_entry_suggestions(cats.last(), names);
        let e = cats.last();
        if !skipped_category(e.0@) {
            match json_get(e.1, "main"@) {
                Some(JsonValue::Object(tweaks)) => {
                    lemma_tweak_ids_not_labels(tweaks@, e.0@, display_category(names, e.0@));
                },
                _ => {},
            }
        }
        let all = category_suggestions(cats, names);
        assert(all == prev + last);
        assert forall|i: int| 0 <= i < all.len() implies !ignored_key((#[trigger] all[i]).id) by {
            if i < prev.len() {
                assert(all[i] == prev[i]);
            } else {
                assert(all[i] == last[i - prev.len()]);
            }
        }
    }
}

/// No suggestion of the search library built from any catalog has as its id a
/// label key of a category page (`label`, `choose`, `showall`, `info1` to
/// `info3`, `chk`, `comp`, `b`, `mode1` to `mode3`, `tpmy`, `tpmn`,
/// `tooltip`, `title`, `info`) or a key that starts with `tooltip`: headings
/// and tooltips are never offered as tweaks.
pub proof fn law_library_has_no_label_keys(root: JsonValue)
    ensures
        forall|i: int|
            #![trigger search_library_of(root)[i]]
            0 <= i < search_library_of(root).len() ==> {
                let id = search_library_of(root)[i].id;
                &&& id != "label"@
                &&& id != "choose"@
                &&& id != "showall"@
                &&& id != "info1"@
                &&& id != "info2"@
                &&& id != "info3"@
                &&& id != "chk"@
                &&& id != "comp"@
                &&& id != "b"@
                &&& id != "mode1"@
                &&& id != "mode2"@
                &&& id != "mode3"@
                &&& id != "tpmy"@
                &&& id != "tpmn"@
                &&& id != "tooltip"@
                &&& id != "title"@
                &&& id != "info"@
                &&& !(id.len() >= 7 && id.subrange(0, 7) == "tooltip"@)
            },
{
    reveal_strlit("tooltip");
    match json_get(root, "categories"@) {
        Some(JsonValue::Object(cats)) => {
            let c = JsonValue::Object(cats);
            lemma_category_ids_not_labels(cats@, category_names(c));
        },
        _ => {},
    }
}

/// How many of the first `k` entries of `lib` have a display name whose
/// lowercase form contains `q`.
pub open spec fn matches_before(lib: Seq<SuggestionSpec>, q: Seq<char>, k: int) -> nat
    decreases k,
{
    if k <= 0 {
        0
    } else {
        matches_before(lib, q, k - 1) + if has_substring(lowercase(lib[k - 1].display_name), q) {
            1nat
        } else {
            0nat
        }
    }
}

proof fn lemma_hits_by_count(lib: Seq<SuggestionSpec>, q: Seq<char>, k: int)
    requires
        0 <= k <= lib.len(),
    ensures
        search_hits(lib.take(k), q).len() == matches_before(lib, q, k),
        forall|j: int|
            #![trigger lib[j]]
            0 <= j < k && has_substring(lowercase(lib[j].display_name), q) ==> matches_before(
                lib,
                q,
                j,
            ) < matches_before(lib, q, k) && search_hits(lib.take(k), q)[matches_before(
                lib,
                q,
                j,
            ) as int] == lib[j].display_name,
    decreases k,
{
    if k > 0 {
        lemma_hits_by_count(lib, q, k - 1);
        assert(lib.take(k).drop_last() =~= lib.take(k - 1));
        assert(lib.take(k).last() == lib[k - 1]);
        let prev = search_hits(lib.take(k - 1), q);
        let all = search_hits(lib.take(k), q);
        assert forall|j: int|
            #![trigger lib[j]]
            0 <= j < k && has_substring(lowercase(lib[j].display_name), q) implies matches_before(
                lib,
                q,
                j,
            ) < matches_before(lib, q, k) && all[matches_before(lib, q, j) as int]
            == lib[j].display_name by {
            if j < k - 1 {
                assert(prev[matches_before(lib, q, j) as int] == lib[j].display_name);
            }
        }
    }
}

/// The search finds every match until it has ten: for a query that is not
/// blank, it shows as many suggestions as there are library entries whose
/// lowercase display name contains the lowercase query, but at most ten, and
/// each such entry with fewer than ten matching entries before it is shown,
/// at the place its number among the matches gives. This holds for every
/// query, whatever its alphabet.
pub proof fn law_search_results_complete(lib: Seq<SuggestionSpec>, query: Seq<char>)
    requires
        trim(query).len() > 0,
    ensures
        search_results(lib, query).len() == if matches_before(lib, lowercase(query), lib.len() as int)
            <= 10 {
            matches_before(lib, lowercase(query), lib.len() as int)
        } else {
            10
        },
        forall|j: int|
            #![trigger lib[j]]
            0 <= j < lib.len() && has_substring(lowercase(lib[j].display_name), lowercase(query))
                && matches_before(lib, lowercase(query), j) < 10 ==> search_results(lib, query)[
            matches_before(lib, lowercase(query), j) as int] == lib[j].display_name,
{
    let q = lowercase(query);
    lemma_hits_by_count(lib, q, lib.len() as int);
    assert(lib.take(lib.len() as int) =~= lib);
}

/// The hits of a prefix of a library are a prefix of the hits of the library.
pub proof fn lemma_search_hits_prefix(lib: Seq<SuggestionSpec>, q: Seq<char>, i: int)
    requires
        0 <= i <= lib.len(),
    ensures
        search_hits(lib.take(i), q).len() <= search_hits(lib, q).len(),
        search_hits(lib, q).take(search_hits(lib.take(i), q).len() as int) == search_hits(
            lib.take(i),
            q,
        ),
    decreases lib.len() - i,
{
    if i == lib.len() {
        assert(lib.take(i) =~= lib);
        assert(search_hits(lib, q).take(search_hits(lib, q).len() as int) =~= search_hits(lib, q));
    } else {
        lemma_search_hits_prefix(lib, q, i + 1);
        assert(lib.take(i + 1).drop_last() =~= lib.take(i));
        let a = search_hits(lib.take(i), q);
        let b = search_hits(lib.take(i + 1), q);
        let c = search_hits(lib, q);
        assert(b.take(a.len() as int) =~= a);
        assert(c.take(a.len() as int) =~= c.take(b.len() as int).take(a.len() as int));
    }
}

proof fn lemma_search_hits_sound(lib: Seq<SuggestionSpec>, q: Seq<char>)
    ensures
        forall|i: int|
            0 <= i < search_hits(lib, q).len() ==> has_substring(
                lowercase(#[trigger] search_hits(lib, q)[i]),
                q,
            ) && exists|j: int| 0 <= j < lib.len() && lib[j].display_name == search_hits(lib, q)[i],
    decreases lib.len(),
{
    if lib.len() > 0 {
        let lp = lib.drop_last();
        lemma_search_hits_sound(lp, q);
        let prev = search_hits(lp, q);
        let cur = search_hits(lib, q);
        assert forall|i: int| 0 <= i < cur.len() implies has_substring(lowercase(#[trigger] cur[i]), q)
            && exists|j: int| 0 <= j < lib.len() && lib[j].display_name == cur[i] by {
            if i < prev.len() {
                assert(cur[i] == prev[i]);
                let j = choose|j: int| 0 <= j < lp.len() && lp[j].display_name == prev[i];
                assert(lib[j] == lp[j]);
            } else {
                assert(lib[lib.len() - 1].display_name == cur[i]);
            }
        }
    }
}

/// The search shows at most ten suggestions, each the display name of a
/// tweak in the library whose lowercase form contains the lowercase query,
/// and none for a blank query.
pub proof fn law_search_results_match(lib: Seq<SuggestionSpec>, query: Seq<char>)
    ensures
        search_results(lib, query).len() <= 10,
        trim(query).len() == 0 ==> search_results(lib, query).len() == 0,
        forall|i: int|
            0 <= i < search_results(lib, query).len() ==> has_substring(
                lowercase(#[trigger] search_results(lib, query)[i]),
                lowercase(query),
            ) && exists|j: int|
                0 <= j < lib.len() && lib[j].display_name == search_results(lib, query)[i],
{
    if trim(query).len() > 0 {
        let q = lowercase(query);
        lemma_search_hits_sound(lib, q);
        let hits = search_hits(lib, q);
        let r = search_results(lib, query);
        assert forall|i: int| 0 <= i < r.len() implies has_substring(lowercase(#[trigger] r[i]), q)
            && exists|j: int| 0 <= j < lib.len() && lib[j].display_name == r[i] by {
            assert(r[i] == hits[i]);
        }
    }
}

/// The value of member `key` of `entries`.
fn get_entry<'a>(entries: &'a Vec<(String, JsonValue)>, key: &str) -> (r: Option<&'a JsonValue>)
    ensures
        match r {
            Some(v) => lookup(entries@, key@) == Some(*v),
            None => lookup(entries@, key@) is None,
        },
{
    let mut j = entries.len();
    assert(entries@.take(j as int) =~= entries@);
    while j > 0
        invariant
            j <= entries@.len(),
            lookup(entries@, key@) == lookup(entries@.take(j as int), key@),
        decreases j,
    {
        assert(entries@.take(j as int).drop_last() =~= entries@.take(j - 1));
        assert(entries@.take(j as int).last() == entries@[j - 1]);
        if str_eq(entries[j - 1].0.as_str(), key) {
            return Some(&entries[j - 1].1);
        }
        j = j - 1;
    }
    None
}

/// Member `key` of `v` when `v` is an object.
fn json_member<'a>(v: &'a JsonValue, key: &str) -> (r: Option<&'a JsonValue>)
    ensures
        match r {
            Some(m) => json_get(*v, key@) == Some(*m),
            None => json_get(*v, key@) is None,
        },
{
    match v {
        JsonValue::Object(es) => get_entry(es, key),
        _ => None,
    }
}

/// Whether `name` is a category that the search leaves out.
fn is_skipped_category(name: &str) -> (b: bool)
    ensures
        b == skipped_category(name@),
{
    str_eq(name, "base") || str_eq(name, "pmgr") || str_eq(name, "perfor") || str_eq(
        name,
        "settings",
    ) || str_eq(name, "ab") || str_eq(name, "quick")
}

/// Whether `k` is a label key rather than a tweak.
fn is_ignored_key(k: &str) -> (b: bool)
    ensures
        b == ignored_key(k@),
{
    str_eq(k, "label") || str_eq(k, "choose") || str_eq(k, "showall") || str_eq(k, "info1")
        || str_eq(k, "info2") || str_eq(k, "info3") || str_eq(k, "chk") || str_eq(k, "comp")
        || str_eq(k, "b") || str_eq(k, "mode1") || str_eq(k, "mode2") || str_eq(k, "mode3")
        || str_eq(k, "tpmy") || str_eq(k, "tpmn") || str_eq(k, "tooltip") || str_eq(k, "title")
        || str_eq(k, "info") || str_starts_with(k, "tooltip")
}

/// The members of `categories.base.catname` when they are all strings.
fn category_names_of<'a>(categories: &'a JsonValue) -> (r: Option<&'a Vec<(String, JsonValue)>>)
    ensures
        match r {
            Some(es) => category_names(*categories) == Some(es@),
            None => category_names(*categories) is None,
        },
{
    let base = match json_member(categories, "base") {
        Some(b) => b,
        None => return None,
    };
    match json_member(base, "catname") {
        Some(JsonValue::Object(es)) => {
            let mut i: usize = 0;
            while i < es.len()
                invariant
                    i <= es@.len(),
                    json_get(*categories, "base"@) == Some(*base),
                    json_get(*base, "catname"@) == Some(JsonValue::Object(*es)),
                    forall|k: int| 0 <= k < i ==> (#[trigger] es@[k]).1 is Str,
                decreases es@.len() - i,
            {
                match &es[i].1 {
                    JsonValue::Str(_) => {},
                    _ => {
                        assert(!(es@[i as int].1 is Str));
                        return None;
                    },
                }
                i = i + 1;
            }
            Some(es)
        },
        _ => None,
    }
}

/// The name shown for category `cat`.
fn display_category_of(names: Option<&Vec<(String, JsonValue)>>, cat: &String) -> (r: String)
    ensures
        r@ == display_category(
            match names {
                Some(es) => Some(es@),
                None => None,
            },
            cat@,
        ),
{
    match names {
        Some(es) => match get_entry(es, cat.as_str()) {
            Some(JsonValue::Str(d)) => d.clone(),
            _ => cat.clone(),
        },
        None => cat.clone(),
    }
}

/// No two members of `es` have the same name, as in a parsed JSON object.
pub open spec fn unique_keys(es: Seq<(String, JsonValue)>) -> bool {
    forall|i: int, j: int| 0 <= i < j < es.len() ==> (#[trigger] es[i]).0@ != (#[trigger] es[j]).0@
}

/// `v` is not an object, or an object whose member names are unique.
pub open spec fn object_keys_unique(v: JsonValue) -> bool {
    match v {
        JsonValue::Object(es) => unique_keys(es@),
        _ => true,
    }
}

/// Member `key` of `v`, if there is one, has unique member names.
pub open spec fn member_keys_unique(v: JsonValue, key: Seq<char>) -> bool {
    match json_get(v, key) {
        Some(m) => object_keys_unique(m),
        None => true,
    }
}

/// Every object the search reads in the catalog `root` has unique member
/// names, as every object that a JSON parser produces has: the root, its
/// `categories`, `categories.base` and `categories.base.catname`, each
/// category and each category's `main`.
pub open spec fn catalog_well_formed(root: JsonValue) -> bool {
    &&& object_keys_unique(root)
    &&& match json_get(root, "categories"@) {
        Some(c) => {
            &&& object_keys_unique(c)
            &&& member_keys_unique(c, "base"@)
            &&& match json_get(c, "base"@) {
                Some(b) => member_keys_unique(b, "catname"@),
                None => true,
            }
            &&& match c {
                JsonValue::Object(cats) => forall|i: int|
                    0 <= i < cats@.len() ==> object_keys_unique((#[trigger] cats@[i]).1)
                        && member_keys_unique(cats@[i].1, "main"@),
                _ => true,
            }
        },
        None => true,
    }
}

/// Whether the member names of `es` are unique.
fn keys_unique(es: &Vec<(String, JsonValue)>) -> (b: bool)
    ensures
        b == unique_keys(es@),
{
    let n = es.len();
    let mut i: usize = 0;
    while i < n
        invariant
            i <= n == es@.len(),
            forall|a: int, c: int| 0 <= a < i && a < c < n ==> (#[trigger] es@[a]).0@ != (#[trigger] es@[c]).0@,
        decreases n - i,
    {
        let mut j = i + 1;
        while j < n
            invariant
                i < n == es@.len(),
                i < j <= n,
                forall|c: int| i < c < j ==> es@[i as int].0@ != (#[trigger] es@[c]).0@,
            decreases n - j,
        {
            if str_eq(es[i].0.as_str(), es[j].0.as_str()) {
                return false;
            }
            j = j + 1;
        }
        i = i + 1;
    }
    true
}

/// Whether `v` is not an object or has unique member names.
fn value_keys_unique(v: &JsonValue) -> (b: bool)
    ensures
        b == object_keys_unique(*v),
{
    match v {
        JsonValue::Object(es) => keys_unique(es),
        _ => true,
    }
}

/// Whether member `key` of `v`, if any, has unique member names.
fn member_unique(v: &JsonValue, key: &str) -> (b: bool)
    ensures
        b == member_keys_unique(*v, key@),
{
    match json_member(v, key) {
        Some(m) => value_keys_unique(m),
        None => true,
    }
}

/// Whether every object the search reads in `root` has unique member names.
pub fn is_catalog_well_formed(root: &JsonValue) -> (b: bool)
    ensures
        b == catalog_well_formed(*root),
{
    if !value_keys_unique(root) {
        return false;
    }
    let c = match json_member(root, "categories") {
        Some(c) => c,
        None => return true,
    };
    if !value_keys_unique(c) || !member_unique(c, "base") {
        return false;
    }
    if let Some(b) = json_member(c, "base") {
        if !member_unique(b, "catname") {
            return false;
        }
    }
    if let JsonValue::Object(cats) = c {
        let mut i: usize = 0;
        while i < cats.len()
            invariant
                i <= cats@.len(),
                json_get(*root, "categories"@) == Some(*c),
                *c == JsonValue::Object(*cats),
                forall|k: int|
                    0 <= k < i ==> object_keys_unique((#[trigger] cats@[k]).1) && member_keys_unique(
                        cats@[k].1,
                        "main"@,
                    ),
            decreases cats@.len() - i,
        {
            if !value_keys_unique(&cats[i].1) || !member_unique(&cats[i].1, "main") {
                return false;
            }
            i = i + 1;
        }
    }
    true
}

/// A handler of the main window.
pub struct MainWindowHandler {
    search_library: Vec<TweakSuggestion>,
}

impl MainWindowHandler {
    /// What the search can suggest.
    pub closed spec fn library(&self) -> Seq<SuggestionSpec> {
        suggestion_views(self.search_library@)
    }

    /// A handler whose search library holds every tweak of the localization
    /// catalog `localization`: for each category other than the page
    /// categories, each member of its `main` object that is not a label and
    /// whose value is a string of at most 90 bytes.
    pub fn new(localization: &JsonValue) -> (r: Self)
        requires
            catalog_well_formed(*localization),
        ensures
            r.library() == search_library_of(*localization),
    {
        let mut handler = MainWindowHandler { search_library: Vec::new() };
        assert(suggestion_views(handler.search_library@) =~= Seq::<SuggestionSpec>::empty());
        handler.fill_search(localization);
        handler
    }

    /// The handler for the catalog `localization`, when every object the
    /// search reads in it has unique member names; `None` otherwise.
    pub fn checked_new(localization: &JsonValue) -> (r: Option<Self>)
        ensures
            match r {
                Some(h) => catalog_well_formed(*localization) && h.library() == search_library_of(
                    *localization,
                ),
                None => !catalog_well_formed(*localization),
            },
    {
        if is_catalog_well_formed(localization) {
            Some(Self::new(localization))
        } else {
            None
        }
    }

    /// The suggestions the search library holds.
    pub fn suggestions(&self) -> (r: &Vec<TweakSuggestion>)
        ensures
            suggestion_views(r@) == self.library(),
    {
        &self.search_library
    }

    /// A handler whose search library holds the tweaks (as `new` describes
    /// them) of the localization catalog written as JSON in `text`; an empty
    /// library when `text` is not JSON.
    pub fn from_catalog_text(text: &str) -> (r: Self)
        ensures
            r.library() == catalog_library(text@),
    {
        let mut handler = MainWindowHandler { search_library: Vec::new() };
        assert(suggestion_views(handler.search_library@) =~= Seq::<SuggestionSpec>::empty());
        handler.initialize_search(text);
        handler
    }

    /// Fills the empty search library from the catalog text `text`.
    fn initialize_search(&mut self, text: &str)
        requires
            suggestion_views(old(self).search_library@) == Seq::<SuggestionSpec>::empty(),
        ensures
            final(self).library() == catalog_library(text@),
    {
        match parse_catalog(text) {
            Some(root) => self.fill_search(&root),
            None => {},
        }
    }

    /// Fills the empty search library from the parsed catalog `root`.
    fn fill_search(&mut self, root: &JsonValue)
        requires
            suggestion_views(old(self).search_library@) == Seq::<SuggestionSpec>::empty(),
        ensures
            final(self).library() == search_library_of(*root),
    {
        let categories = match json_member(root, "categories") {
            Some(c) => c,
            None => return ,
        };
        let names = category_names_of(categories);
        let ghost gnames = match names {
            Some(es) => Some(es@),
            None => None,
        };
        let cats = match categories {
            JsonValue::Object(cats) => cats,
            _ => return ,
        };
        let mut i: usize = 0;
        while i < cats.len()
            invariant
                i <= cats@.len(),
                gnames == category_names(*categories),
                gnames == match names {
                    Some(es) => Some(es@),
                    None => None,
                },
                suggestion_views(self.search_library@) == category_suggestions(
                    cats@.take(i as int),
                    gnames,
                ),
            decreases cats@.len() - i,
        {
            assert(cats@.take(i + 1).drop_last() =~= cats@.take(i as int));
            assert(cats@.take(i + 1).last() == cats@[i as int]);
            let cat_name = &cats[i].0;
            let cat_val = &cats[i].1;
            if !is_skipped_category(cat_name.as_str()) {
                if let Some(JsonValue::Object(tweaks)) = json_member(cat_val, "main") {
                    let display_cat = display_category_of(names, cat_name);
                    self.add_tweaks(tweaks, cat_name, &display_cat);
                } else {
                    assert(category_entry_suggestions(cats@[i as int], gnames) =~= Seq::<
                        SuggestionSpec,
                    >::empty());
                }
            } else {
                assert(category_entry_suggestions(cats@[i as int], gnames) =~= Seq::<
                    SuggestionSpec,
                >::empty());
            }
            assert(suggestion_views(self.search_library@) =~= category_suggestions(
                cats@.take(i + 1),
                gnames,
            ));
            i = i + 1;
        }
        assert(cats@.take(cats@.len() as int) =~= cats@);
    }

    /// Appends the suggestions of the tweak members `tweaks` of category `tag`.
    fn add_tweaks(&mut self, tweaks: &Vec<(String, JsonValue)>, tag: &String, display: &String)
        ensures
            suggestion_views(final(self).search_library@) == suggestion_views(
                old(self).search_library@,
            ) + tweak_suggestions(tweaks@, tag@, display@),
    {
        let ghost start = suggestion_views(self.search_library@);
        let mut k: usize = 0;
        while k < tweaks.len()
            invariant
                k <= tweaks@.len(),
                suggestion_views(self.search_library@) == start + tweak_suggestions(
                    tweaks@.take(k as int),
                    tag@,
                    display@,
                ),
            decreases tweaks@.len() - k,
        {
            assert(tweaks@.take(k + 1).drop_last() =~= tweaks@.take(k as int));
            assert(tweaks@.take(k + 1).last() == tweaks@[k as int]);
            let ghost before = suggestion_views(self.search_library@);
            let ghost e = tweak_entry_suggestion(tweaks@[k as int], tag@, display@);
            assert(tweak_suggestions(tweaks@.take(k + 1), tag@, display@) == match e {
                Some(x) => tweak_suggestions(tweaks@.take(k as int), tag@, display@).push(x),
                None => tweak_suggestions(tweaks@.take(k as int), tag@, display@),
            });
            let key = &tweaks[k].0;
            if is_ignored_key(key.as_str()) {
                assert(tweak_entry_suggestion(tweaks@[k as int], tag@, display@) is None);
            } else {
                if let JsonValue::Str(d) = &tweaks[k].1 {
                    if !utf8_longer_than(d.as_str(), 90) {
                        let t = TweakSuggestion {
                            id: key.clone(),
                            display_name: d.clone(),
                            category_key: display.clone(),
                            internal_category_tag: tag.clone(),
                        };
                        assert(tweak_entry_suggestion(tweaks@[k as int], tag@, display@) == Some(t@));
                        self.search_library.push(t);
                        assert(suggestion_views(self.search_library@) =~= before.push(t@));
                    } else {
                        assert(tweak_entry_suggestion(tweaks@[k as int], tag@, display@) is None);
                    }
                } else {
                    assert(tweak_entry_suggestion(tweaks@[k as int], tag@, display@) is None);
                }
            }
            assert(suggestion_views(self.search_library@) =~= start + tweak_suggestions(
                tweaks@.take(k + 1),
                tag@,
                display@,
            ));
            k = k + 1;
        }
        assert(tweaks@.take(tweaks@.len() as int) =~= tweaks@);
    }

    /// The suggestions for the text typed into the search box: nothing for a
    /// blank query, else up to ten display names, in library order, whose
    /// lowercase form contains the lowercase query. For a query of ASCII
    /// characters the result depends only on the query with its letters made
    /// small: the case of the query does not matter.
    pub fn handle_search_changed(&self, query: String) -> (r: Vec<String>)
        ensures
            r@.map_values(|s: String| s@) == search_results(self.library(), query@),
            is_ascii_chars(query@) ==> r@.map_values(|s: String| s@) == ascii_search_results(
                self.library(),
                ascii_lower(query@),
            ),
    {
        proof {
            lemma_trim_ascii_lower(query@);
        }
        let t = trimmed_chars(query.as_str());
        if t.len() == 0 {
            let r: Vec<String> = Vec::new();
            assert(r@.map_values(|s: String| s@) =~= Seq::<Seq<char>>::empty());
            return r;
        }
        let q = to_lowercase(query.as_str());
        let ghost lib = self.library();
        let mut r: Vec<String> = Vec::new();
        let mut i: usize = 0;
        while i < self.search_library.len() && r.len() < 10
            invariant
                i <= self.search_library@.len(),
                lib == suggestion_views(self.search_library@),
                r@.map_values(|s: String| s@) == search_hits(lib.take(i as int), q@),
                r@.len() <= 10,
            decreases self.search_library@.len() - i,
        {
            assert(lib.take(i + 1).drop_last() =~= lib.take(i as int));
            assert(lib.take(i + 1).last() == self.search_library@[i as int]@);
            let name = &self.search_library[i].display_name;
            let lower = to_lowercase(name.as_str());
            if str_contains(lower.as_str(), q.as_str()) {
                r.push(name.clone());
            }
            assert(r@.map_values(|s: String| s@) =~= search_hits(lib.take(i + 1), q@));
            i = i + 1;
        }
        proof {
            lemma_search_hits_prefix(lib, q@, i as int);
            if i == self.search_library@.len() {
                assert(lib.take(i as int) =~= lib);
            }
        }
        r
    }
}

} // verus!
