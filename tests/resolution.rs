use build_dependencies::{
    get_dependencies, get_lock_dependencies, get_packages, get_toml_dependencies, version_no_later, Document,
    Packages,
};

fn s(v: &str) -> String {
    v.to_string()
}

fn table(entries: Vec<(&str, Document)>) -> Document {
    Document::Table(entries.into_iter().map(|(k, v)| (s(k), v)).collect())
}

fn names_table(names: &[&str]) -> Document {
    table(names.iter().map(|n| (*n, Document::Str(s("1")))).collect())
}

fn record(name: &str, version: &str) -> Document {
    table(vec![("name", Document::Str(s(name))), ("version", Document::Str(s(version)))])
}

fn lockfile(records: Vec<Document>) -> Document {
    table(vec![("version", Document::Other), ("package", Document::Array(records))])
}

fn sorted(p: &Packages) -> Vec<(String, String)> {
    let mut v = p.to_vec();
    v.sort();
    v
}

fn pairs(v: &[(&str, &str)]) -> Vec<(String, String)> {
    let mut r: Vec<(String, String)> = v.iter().map(|(a, b)| (s(a), s(b))).collect();
    r.sort();
    r
}

fn sorted_names(manifest: &Document) -> Vec<String> {
    let mut v = get_toml_dependencies(manifest).to_vec();
    v.sort();
    v
}

#[test]
fn resolves_declared_names_only() {
    let manifest = table(vec![("dependencies", names_table(&["foo", "bar"]))]);
    let lock = lockfile(vec![record("foo", "1.0.0"), record("bar", "2.0.0"), record("baz", "9.9.9")]);
    let resolved = get_dependencies(&manifest, &lock);
    assert_eq!(sorted(&resolved), pairs(&[("foo", "1.0.0"), ("bar", "2.0.0")]));
    assert_eq!(resolved.get(&s("foo")), Some(s("1.0.0")));
    assert_eq!(resolved.get(&s("baz")), None);
}

#[test]
fn workspace_dependencies_used_when_top_level_absent() {
    let manifest = table(vec![("workspace", table(vec![("dependencies", names_table(&["serde", "rand"]))]))]);
    assert_eq!(sorted_names(&manifest), vec![s("rand"), s("serde")]);
}

#[test]
fn top_level_dependencies_take_precedence() {
    let manifest = table(vec![
        ("dependencies", names_table(&["foo"])),
        ("workspace", table(vec![("dependencies", names_table(&["bar", "baz"]))])),
    ]);
    assert_eq!(sorted_names(&manifest), vec![s("foo")]);
}

#[test]
fn empty_top_level_table_falls_back_to_workspace() {
    let manifest = table(vec![
        ("dependencies", names_table(&[])),
        ("workspace", table(vec![("dependencies", names_table(&["bar"]))])),
    ]);
    assert_eq!(sorted_names(&manifest), vec![s("bar")]);
    let alone = table(vec![("dependencies", names_table(&[]))]);
    assert!(sorted_names(&alone).is_empty());
}

#[test]
fn no_dependency_table_gives_no_names() {
    assert!(sorted_names(&table(vec![("package", names_table(&["name"]))])).is_empty());
    assert!(sorted_names(&Document::Other).is_empty());
    assert!(sorted_names(&table(vec![("dependencies", Document::Str(s("x")))])).is_empty());
}

#[test]
fn duplicate_keys_give_one_name() {
    let manifest = table(vec![("dependencies", names_table(&["foo", "foo", "bar"]))]);
    assert_eq!(sorted_names(&manifest), vec![s("bar"), s("foo")]);
}

#[test]
fn name_missing_from_lockfile_is_dropped() {
    let manifest = table(vec![("dependencies", names_table(&["foo", "gone"]))]);
    let lock = lockfile(vec![record("foo", "1.0.0")]);
    assert_eq!(sorted(&get_dependencies(&manifest, &lock)), pairs(&[("foo", "1.0.0")]));
}

#[test]
fn lockfile_without_package_array_resolves_nothing() {
    let manifest = table(vec![("dependencies", names_table(&["foo"]))]);
    let deps = get_toml_dependencies(&manifest);
    assert!(get_lock_dependencies(&table(vec![]), &deps).is_empty());
    assert!(get_lock_dependencies(&table(vec![("package", Document::Str(s("foo")))]), &deps).is_empty());
}

#[test]
fn missing_fields_read_as_empty_strings() {
    let manifest = table(vec![("dependencies", names_table(&["foo", ""]))]);
    let deps = get_toml_dependencies(&manifest);
    let records = vec![
        table(vec![("name", Document::Str(s("foo")))]),
        table(vec![("version", Document::Str(s("3.0.0")))]),
        table(vec![("name", Document::Other), ("version", Document::Str(s("4.0.0")))]),
    ];
    let resolved = get_packages(&records, &deps);
    assert_eq!(sorted(&resolved), pairs(&[("foo", ""), ("", "4.0.0")]));
}

#[test]
fn records_that_are_no_table_are_skipped() {
    let manifest = table(vec![("dependencies", names_table(&["foo"]))]);
    let lock = lockfile(vec![Document::Str(s("foo")), Document::Other, record("foo", "1.2.3")]);
    assert_eq!(sorted(&get_dependencies(&manifest, &lock)), pairs(&[("foo", "1.2.3")]));
}

#[test]
fn greatest_version_of_a_name_wins_in_any_order() {
    let manifest = table(vec![("dependencies", names_table(&["foo"]))]);
    let one = lockfile(vec![record("foo", "1.0.0"), record("foo", "2.0.0")]);
    let two = lockfile(vec![record("foo", "2.0.0"), record("foo", "1.0.0")]);
    assert_eq!(sorted(&get_dependencies(&manifest, &one)), pairs(&[("foo", "2.0.0")]));
    assert_eq!(sorted(&get_dependencies(&manifest, &two)), pairs(&[("foo", "2.0.0")]));
}

#[test]
fn versions_compare_by_characters() {
    assert!(version_no_later(&s("1.10.0"), &s("1.9.0")));
    assert!(!version_no_later(&s("1.9.0"), &s("1.10.0")));
    assert!(version_no_later(&s("1.0"), &s("1.0.1")));
    assert!(!version_no_later(&s("1.0.1"), &s("1.0")));
    assert!(version_no_later(&s(""), &s("")));
    assert!(version_no_later(&s("2.0.0"), &s("2.0.0")));
    let manifest = table(vec![("dependencies", names_table(&["foo"]))]);
    let lock = lockfile(vec![record("foo", "1.9.0"), record("foo", "1.10.0")]);
    assert_eq!(sorted(&get_dependencies(&manifest, &lock)), pairs(&[("foo", "1.9.0")]));
}

#[test]
fn record_order_does_not_change_the_mapping() {
    let manifest = table(vec![("dependencies", names_table(&["a", "b", "c"]))]);
    let one = lockfile(vec![record("a", "1"), record("x", "0"), record("b", "2"), record("c", "3")]);
    let two = lockfile(vec![record("c", "3"), record("b", "2"), record("x", "0"), record("a", "1")]);
    assert_eq!(sorted(&get_dependencies(&manifest, &one)), sorted(&get_dependencies(&manifest, &two)));
}

#[test]
fn resolving_twice_gives_the_same_mapping() {
    let manifest = table(vec![("dependencies", names_table(&["foo", "bar"]))]);
    let lock = lockfile(vec![record("foo", "1.0.0"), record("bar", "2.0.0")]);
    let first = get_dependencies(&manifest, &lock);
    let second = get_dependencies(&manifest, &lock);
    assert_eq!(sorted(&first), sorted(&second));
}

#[test]
fn first_of_repeated_table_keys_counts() {
    let lock = table(vec![
        ("package", Document::Array(vec![record("foo", "1")])),
        ("package", Document::Array(vec![record("foo", "2")])),
    ]);
    let manifest = table(vec![("dependencies", names_table(&["foo"]))]);
    assert_eq!(sorted(&get_dependencies(&manifest, &lock)), pairs(&[("foo", "1")]));
}

#[test]
fn string_field_reads_strings_only() {
    let r = record("foo", "1.0.0");
    assert_eq!(r.string_field(&s("name")), s("foo"));
    assert_eq!(r.string_field(&s("other")), s(""));
    assert_eq!(Document::Other.string_field(&s("name")), s(""));
    assert!(r.get(&s("version")).is_some());
    assert!(r.get(&s("nope")).is_none());
}

#[test]
fn packages_insert_and_remove() {
    let mut p = Packages::new();
    assert!(p.is_empty());
    p.insert(s("a"), s("1"));
    p.insert(s("b"), s("2"));
    p.insert(s("a"), s("3"));
    assert_eq!(sorted(&p), pairs(&[("a", "3"), ("b", "2")]));
    assert_eq!(p.remove(&s("a")), Some(s("3")));
    assert_eq!(p.remove(&s("a")), None);
    assert_eq!(sorted(&p), pairs(&[("b", "2")]));
}

fn shuffled_lock_resolves_alike(names: Vec<u8>, rotate: usize) -> bool {
    let make = || -> Vec<Document> {
        names.iter().enumerate().map(|(i, n)| record(&format!("p{}", n % 8), &format!("{}.{}", n, i))).collect()
    };
    let records = make();
    let mut rotated = make();
    rotated.reverse();
    if !rotated.is_empty() {
        let k = rotate % rotated.len();
        rotated.rotate_left(k);
    }
    let declared: Vec<String> = (0..8u8).filter(|n| n % 2 == 0).map(|n| format!("p{}", n)).collect();
    let manifest = Document::Table(vec![(
        s("dependencies"),
        Document::Table(declared.iter().map(|n| (n.clone(), Document::Other)).collect()),
    )]);
    let a = get_dependencies(&manifest, &lockfile(records));
    let b = get_dependencies(&manifest, &lockfile(rotated));
    let mut expected: Vec<(String, String)> = Vec::new();
    for d in &declared {
        let best = names
            .iter()
            .enumerate()
            .filter(|(_, n)| format!("p{}", *n % 8) == *d)
            .map(|(i, n)| format!("{}.{}", n, i))
            .max();
        if let Some(v) = best {
            expected.push((d.clone(), v));
        }
    }
    expected.sort();
    sorted(&a) == sorted(&b) && sorted(&a) == expected
}

#[test]
fn resolution_ignores_record_order_on_generated_lockfiles() {
    quickcheck::QuickCheck::new().quickcheck(shuffled_lock_resolves_alike as fn(Vec<u8>, usize) -> bool);
}
