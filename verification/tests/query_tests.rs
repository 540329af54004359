use neix::query::query;
use neix::record::PackageInfo;
use neix::store::Store;

fn s(text: &str) -> String {
    text.to_string()
}

fn put(store: &mut Store, attr: &str, name: &str, version: Option<&str>, description: Option<&str>) {
    store.upsert(s(attr), s(name), version.map(s), description.map(s));
}

fn attrs(found: &Vec<PackageInfo>) -> Vec<String> {
    found.iter().map(|p| p.attr.clone()).collect()
}

fn names(found: &Vec<PackageInfo>) -> Vec<String> {
    found.iter().map(|p| p.name.clone()).collect()
}

#[test]
fn latest_version_selection() {
    let mut store = Store::new();
    put(&mut store, "pkgs.foo_1", "foo", Some("1.0"), None);
    put(&mut store, "pkgs.foo_2", "foo", Some("2.0"), None);
    let found = query(&store, "foo", 10);
    assert_eq!(found.len(), 1);
    assert_eq!(found[0].attr, "pkgs.foo_2");
    assert_eq!(found[0].version, Some(s("2.0")));
}

#[test]
fn ranking_order() {
    let mut store = Store::new();
    put(&mut store, "a.xabcx", "xabcx", Some("1"), None);
    put(&mut store, "b.abcd", "abcd", Some("1"), None);
    put(&mut store, "c.abc", "abc", Some("1"), None);
    let found = query(&store, "abc", 10);
    assert_eq!(names(&found), vec![s("abc"), s("abcd"), s("xabcx")]);
}

#[test]
fn ranking_order_does_not_depend_on_insertion_order() {
    let mut store = Store::new();
    put(&mut store, "c.abc", "abc", Some("1"), None);
    put(&mut store, "a.xabcx", "xabcx", Some("1"), None);
    put(&mut store, "b.abcd", "abcd", Some("1"), None);
    let found = query(&store, "abc", 10);
    assert_eq!(attrs(&found), vec![s("c.abc"), s("b.abcd"), s("a.xabcx")]);
}

#[test]
fn ties_within_a_tier_go_by_attr() {
    let mut store = Store::new();
    put(&mut store, "z.git-lfs", "git-lfs", Some("3"), None);
    put(&mut store, "m.gitui", "gitui", Some("1"), None);
    put(&mut store, "a.git-crypt", "git-crypt", Some("2"), None);
    put(&mut store, "q.legit", "legit", Some("1"), None);
    put(&mut store, "b.digital", "digital", Some("1"), None);
    put(&mut store, "k.git", "git", Some("2.44"), None);
    let found = query(&store, "git", 10);
    assert_eq!(
        attrs(&found),
        vec![s("k.git"), s("a.git-crypt"), s("m.gitui"), s("z.git-lfs"), s("b.digital"), s("q.legit")]
    );
}

#[test]
fn absent_fields_round_trip() {
    let mut store = Store::new();
    put(&mut store, "pkgs.bare", "bare", None, None);
    let found = query(&store, "bare", 10);
    assert_eq!(found.len(), 1);
    assert_eq!(found[0], PackageInfo::new(s("pkgs.bare"), s("bare"), None, None));
}

#[test]
fn absent_version_never_beats_a_present_one() {
    let mut store = Store::new();
    put(&mut store, "a.tool", "tool", None, None);
    put(&mut store, "b.tool", "tool", Some(""), Some("empty version"));
    let found = query(&store, "tool", 10);
    assert_eq!(attrs(&found), vec![s("b.tool")]);

    put(&mut store, "c.tool", "tool", Some("0.1"), None);
    let found = query(&store, "tool", 10);
    assert_eq!(attrs(&found), vec![s("c.tool")]);
}

#[test]
fn empty_match_is_an_empty_vector() {
    let mut store = Store::new();
    put(&mut store, "pkgs.foo", "foo", Some("1.0"), None);
    let found = query(&store, "nothing-like-this", 10);
    assert!(found.is_empty());
    let found = query(&Store::new(), "foo", 10);
    assert!(found.is_empty());
}

#[test]
fn limit_caps_the_answer() {
    let mut store = Store::new();
    put(&mut store, "a", "abc1", Some("1"), None);
    put(&mut store, "b", "abc2", Some("1"), None);
    put(&mut store, "c", "abc", Some("1"), None);
    put(&mut store, "d", "xabc", Some("1"), None);
    assert_eq!(attrs(&query(&store, "abc", 0)), Vec::<String>::new());
    assert_eq!(attrs(&query(&store, "abc", 1)), vec![s("c")]);
    assert_eq!(attrs(&query(&store, "abc", 3)), vec![s("c"), s("a"), s("b")]);
    assert_eq!(attrs(&query(&store, "abc", 4)), vec![s("c"), s("a"), s("b"), s("d")]);
    assert_eq!(attrs(&query(&store, "abc", usize::MAX)), vec![s("c"), s("a"), s("b"), s("d")]);
}

#[test]
fn versions_compare_as_strings() {
    let mut store = Store::new();
    put(&mut store, "pkgs.n9", "node", Some("9"), None);
    put(&mut store, "pkgs.n10", "node", Some("10"), None);
    let found = query(&store, "node", 10);
    assert_eq!(attrs(&found), vec![s("pkgs.n9")]);
}

#[test]
fn equal_latest_versions_are_all_listed() {
    let mut store = Store::new();
    put(&mut store, "python3Packages.requests", "requests", Some("2.31"), None);
    put(&mut store, "python2Packages.requests", "requests", Some("2.31"), None);
    put(&mut store, "old.requests", "requests", Some("2.30"), None);
    let found = query(&store, "requests", 10);
    assert_eq!(attrs(&found), vec![s("python2Packages.requests"), s("python3Packages.requests")]);
}

#[test]
fn suppressed_versions_stay_suppressed_in_lower_tiers() {
    let mut store = Store::new();
    put(&mut store, "a.libfoo", "libfoo", Some("1"), None);
    put(&mut store, "b.libfoo", "libfoo", Some("2"), None);
    put(&mut store, "c.foo", "foo", Some("1"), None);
    let found = query(&store, "foo", 10);
    assert_eq!(attrs(&found), vec![s("c.foo"), s("b.libfoo")]);
}

#[test]
fn matching_is_case_sensitive_and_literal() {
    let mut store = Store::new();
    put(&mut store, "a", "Foo", Some("1"), None);
    put(&mut store, "b", "foo", Some("1"), None);
    put(&mut store, "c", "f_o", Some("1"), None);
    put(&mut store, "d", "100%", Some("1"), None);
    assert_eq!(attrs(&query(&store, "foo", 10)), vec![s("b")]);
    assert_eq!(attrs(&query(&store, "f_o", 10)), vec![s("c")]);
    assert_eq!(attrs(&query(&store, "%", 10)), vec![s("d")]);
}

#[test]
fn empty_term_lists_every_latest_record() {
    let mut store = Store::new();
    put(&mut store, "b", "beta", Some("1"), None);
    put(&mut store, "a", "alpha", Some("1"), None);
    put(&mut store, "c", "alpha", Some("0"), None);
    assert_eq!(attrs(&query(&store, "", 10)), vec![s("a"), s("b")]);
}

#[test]
fn non_ascii_names_match_by_character() {
    let mut store = Store::new();
    put(&mut store, "a", "caf\u{e9}-tools", Some("1"), None);
    put(&mut store, "b", "\u{e9}clair", Some("1"), None);
    assert_eq!(attrs(&query(&store, "\u{e9}", 10)), vec![s("b"), s("a")]);
    assert_eq!(attrs(&query(&store, "f\u{e9}-", 10)), vec![s("a")]);
}
