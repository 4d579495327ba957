use vstd::prelude::*;
use vstd::string::*;

use crate::document::Document;
use crate::packages::{DependencySet, Packages};

verus! {

/// A table without entries.
pub open spec fn is_empty_table(d: Document) -> bool {
    d matches Document::Table(entries) && entries@.len() == 0
}

/// The table that declares a manifest's direct dependencies: its top-level
/// `dependencies`, or where that is absent or an empty table,
/// `workspace.dependencies`.
pub open spec fn dependency_table(manifest: Document) -> Option<Document> {
    let top = manifest.get_spec("dependencies"@);
    if top is Some && !is_empty_table(top->Some_0) {
        top
    } else {
        match manifest.get_spec("workspace"@) {
            Some(w) => w.get_spec("dependencies"@),
            None => None,
        }
    }
}

/// The keys of a table; nothing for a document that is no table.
pub open spec fn table_keys(d: Document) -> Set<Seq<char>> {
    match d {
        Document::Table(entries) => Set::new(
            |k: Seq<char>| exists|i: int| 0 <= i < entries@.len() && #[trigger] entries@[i].0@ == k,
        ),
        _ => Set::empty(),
    }
}

/// The direct dependency names that a manifest declares.
pub open spec fn dependency_names(manifest: Document) -> Set<Seq<char>> {
    match dependency_table(manifest) {
        Some(t) => table_keys(t),
        None => Set::empty(),
    }
}

/// The package records of a lockfile: its `package` array, or nothing where
/// there is no such array.
pub open spec fn package_records(lock: Document) -> Seq<Document> {
    match lock.get_spec("package"@) {
        Some(Document::Array(items)) => items@,
        _ => Seq::empty(),
    }
}

/// A string field of a record, empty where it is missing or holds no string.
pub open spec fn field_of(record: Document, key: Seq<char>) -> Seq<char> {
    match record.get_spec(key) {
        Some(d) => d.str_or_empty(),
        None => Seq::empty(),
    }
}

/// The name of a package record.
pub open spec fn record_name(record: Document) -> Seq<char> {
    field_of(record, "name"@)
}

/// The version of a package record.
pub open spec fn record_version(record: Document) -> Seq<char> {
    field_of(record, "version"@)
}

/// `a` comes no later than `b` in character order: compared character by
/// character, by code point, with a prefix first.
pub open spec fn version_le(a: Seq<char>, b: Seq<char>) -> bool
    decreases a.len(),
{
    if a.len() == 0 {
        true
    } else if b.len() == 0 {
        false
    } else if a[0] != b[0] {
        a[0] < b[0]
    } else {
        version_le(a.drop_first(), b.drop_first())
    }
}

/// Of two versions, one comes no later than the other.
pub proof fn version_le_total(a: Seq<char>, b: Seq<char>)
    ensures
        version_le(a, b) || version_le(b, a),
    decreases a.len(),
{
    if a.len() > 0 && b.len() > 0 && a[0] == b[0] {
        version_le_total(a.drop_first(), b.drop_first());
    }
}

/// Each version comes no later than itself.
pub proof fn version_le_reflexive(a: Seq<char>)
    ensures
        version_le(a, a),
    decreases a.len(),
{
    if a.len() > 0 {
        version_le_reflexive(a.drop_first());
    }
}

/// Two versions that each come no later than the other are the same.
pub proof fn version_le_antisymmetric(a: Seq<char>, b: Seq<char>)
    requires
        version_le(a, b),
        version_le(b, a),
    ensures
        a == b,
    decreases a.len(),
{
    if a.len() > 0 && b.len() > 0 {
        if a[0] == b[0] {
            version_le_antisymmetric(a.drop_first(), b.drop_first());
            assert(a =~= seq![a[0]] + a.drop_first());
            assert(b =~= seq![b[0]] + b.drop_first());
        }
    } else {
        assert(a =~= b);
    }
}

/// A version that comes no later than one that comes no later than a third
/// comes no later than the third.
pub proof fn version_le_transitive(a: Seq<char>, b: Seq<char>, c: Seq<char>)
    requires
        version_le(a, b),
        version_le(b, c),
    ensures
        version_le(a, c),
    decreases a.len(),
{
    if a.len() > 0 && b.len() > 0 && c.len() > 0 && a[0] == b[0] && b[0] == c[0] {
        version_le_transitive(a.drop_first(), b.drop_first(), c.drop_first());
    }
}

/// Whether version `a` comes no later than version `b` in character order.
pub fn version_no_later(a: &String, b: &String) -> (r: bool)
    ensures
        r == version_le(a@, b@),
{
    let sa = a.as_str();
    let sb = b.as_str();
    let la = sa.unicode_len();
    let lb = sb.unicode_len();
    let mut i: usize = 0;
    assert(a@.skip(0) =~= a@ && b@.skip(0) =~= b@);
    while i < la && i < lb
        invariant
            la == a@.len(),
            lb == b@.len(),
            sa@ == a@,
            sb@ == b@,
            i <= la,
            i <= lb,
            version_le(a@, b@) == version_le(a@.skip(i as int), b@.skip(i as int)),
        decreases la - i,
    {
        let ca = sa.get_char(i);
        let cb = sb.get_char(i);
        assert(a@.skip(i as int)[0] == ca && b@.skip(i as int)[0] == cb);
        if ca != cb {
            return ca < cb;
        }
        assert(a@.skip(i as int).drop_first() =~= a@.skip(i + 1));
        assert(b@.skip(i as int).drop_first() =~= b@.skip(i + 1));
        i = i + 1;
    }
    i == la
}

/// The mapping that the records pin the given names to: records that are no
/// table or whose name is not among `names` are passed over (a missing name or
/// version reads as empty), and of several records of one name the greatest
/// version in character order counts, wherever the records stand.
pub open spec fn resolve(records: Seq<Document>, names: Set<Seq<char>>) -> Map<Seq<char>, Seq<char>>
    decreases records.len(),
{
    if records.len() == 0 {
        Map::empty()
    } else {
        let m = resolve(records.drop_last(), names);
        let r = records.last();
        if r is Table && names.contains(record_name(r)) && (!m.contains_key(record_name(r))
            || version_le(m[record_name(r)], record_version(r))) {
            m.insert(record_name(r), record_version(r))
        } else {
            m
        }
    }
}

/// The names of the direct dependencies that `manifest` declares.
pub fn get_toml_dependencies(manifest: &Document) -> (r: DependencySet)
    ensures
        r.wf(),
        r@ == dependency_names(*manifest),
{
    let top = manifest.get(&String::from_str("dependencies"));
    let top_declares = match top {
        Some(Document::Table(entries)) => entries.len() > 0,
        Some(_) => true,
        None => false,
    };
    let table = if top_declares {
        top
    } else {
        match manifest.get(&String::from_str("workspace")) {
            Some(w) => w.get(&String::from_str("dependencies")),
            None => None,
        }
    };
    let mut r = DependencySet::new();
    match table {
        Some(Document::Table(entries)) => {
            let mut i: usize = 0;
            while i < entries.len()
                invariant
                    r.wf(),
                    i <= entries@.len(),
                    r@ == Set::new(
                        |k: Seq<char>| exists|j: int| 0 <= j < i && #[trigger] entries@[j].0@ == k,
                    ),
                decreases entries@.len() - i,
            {
                let ghost before = r@;
                r.insert(entries[i].0.clone());
                assert(r@ =~= Set::new(
                    |k: Seq<char>| exists|j: int| 0 <= j < i + 1 && #[trigger] entries@[j].0@ == k,
                )) by {
                    assert forall|k: Seq<char>|
                        (exists|j: int| 0 <= j < i + 1 && #[trigger] entries@[j].0@ == k) implies r@.contains(k) by {
                        let j = choose|j: int| 0 <= j < i + 1 && #[trigger] entries@[j].0@ == k;
                        if j < i {
                            assert(before.contains(k));
                        }
                    }
                }
                i = i + 1;
            }
            assert(r@ =~= dependency_names(*manifest));
        },
        _ => {
            assert(r@ =~= dependency_names(*manifest));
        },
    }
    r
}

/// The versions that the package records pin the names of `dependencies` to.
pub fn get_packages(packages: &Vec<Document>, dependencies: &DependencySet) -> (r: Packages)
    requires
        dependencies.wf(),
    ensures
        r.wf(),
        r@ == resolve(packages@, dependencies@),
{
    let mut r = Packages::new();
    let mut i: usize = 0;
    let name_key = String::from_str("name");
    let version_key = String::from_str("version");
    while i < packages.len()
        invariant
            dependencies.wf(),
            r.wf(),
            i <= packages@.len(),
            name_key@ == "name"@,
            version_key@ == "version"@,
            r@ == resolve(packages@.subrange(0, i as int), dependencies@),
        decreases packages@.len() - i,
    {
        let ghost done = packages@.subrange(0, i as int + 1);
        assert(done.drop_last() =~= packages@.subrange(0, i as int));
        assert(done.last() == packages@[i as int]);
        let package = &packages[i];
        match package {
            Document::Table(_) => {
                let name = package.string_field(&name_key);
                let version = package.string_field(&version_key);
                if dependencies.contains(&name) {
                    let newer = match r.get(&name) {
                        Some(current) => version_no_later(&current, &version),
                        None => true,
                    };
                    if newer {
                        r.insert(name, version);
                    }
                }
            },
            _ => {},
        }
        i = i + 1;
    }
    assert(packages@.subrange(0, packages@.len() as int) =~= packages@);
    r
}

/// The versions that `lock` pins the names of `dependencies` to.
pub fn get_lock_dependencies(lock: &Document, dependencies: &DependencySet) -> (r: Packages)
    requires
        dependencies.wf(),
    ensures
        r.wf(),
        r@ == resolve(package_records(*lock), dependencies@),
{
    match lock.get(&String::from_str("package")) {
        Some(Document::Array(packages)) => get_packages(packages, dependencies),
        _ => Packages::new(),
    }
}

/// Each direct dependency of `manifest`, with the version that `lock` pins it to.
/// A dependency that the lockfile does not list is left out.
pub fn get_dependencies(manifest: &Document, lock: &Document) -> (r: Packages)
    ensures
        r.wf(),
        r@ == resolve(package_records(*lock), dependency_names(*manifest)),
{
    let dependencies = get_toml_dependencies(manifest);
    get_lock_dependencies(lock, &dependencies)
}

/// Some record of `records` is a table whose name is `n`.
pub open spec fn names_record(records: Seq<Document>, n: Seq<char>) -> bool {
    exists|i: int| 0 <= i < records.len() && records[i] is Table && #[trigger] record_name(records[i]) == n
}

/// A manifest whose top-level `dependencies` entry is absent or an empty
/// table declares the keys of its `workspace.dependencies` table.
pub proof fn workspace_fallback(manifest: Document, workspace: Document, table: Document)
    requires
        manifest.get_spec("dependencies"@) is None || is_empty_table(manifest.get_spec("dependencies"@)->Some_0),
        manifest.get_spec("workspace"@) == Some(workspace),
        workspace.get_spec("dependencies"@) == Some(table),
    ensures
        dependency_names(manifest) == table_keys(table),
{
}

/// A manifest with a top-level `dependencies` entry that is no empty table
/// declares exactly its keys: `workspace.dependencies` is not read, let alone
/// merged in.
pub proof fn top_level_precedence(manifest: Document, table: Document)
    requires
        manifest.get_spec("dependencies"@) == Some(table),
        !is_empty_table(table),
    ensures
        dependency_names(manifest) == table_keys(table),
        forall|other: Document|
            #[trigger] other.get_spec("dependencies"@) == Some(table) ==> dependency_names(other)
                == dependency_names(manifest),
{
}

/// A name is resolved exactly when it is among `names` and some record bears
/// it; it is resolved to the version of one such record, and the version of
/// each record that bears it comes no later.
pub proof fn resolved_names(records: Seq<Document>, names: Set<Seq<char>>)
    ensures
        forall|n: Seq<char>|
            #[trigger] resolve(records, names).contains_key(n) <==> names.contains(n) && names_record(records, n),
        forall|n: Seq<char>|
            #[trigger] resolve(records, names).contains_key(n) ==> exists|i: int|
                0 <= i < records.len() && records[i] is Table && #[trigger] record_name(records[i]) == n
                    && record_version(records[i]) == resolve(records, names)[n],
        forall|i: int|
            0 <= i < records.len() && records[i] is Table && names.contains(#[trigger] record_name(records[i]))
                ==> version_le(record_version(records[i]), resolve(records, names)[record_name(records[i])]),
    decreases records.len(),
{
    if records.len() > 0 {
        let init = records.drop_last();
        let last = records.len() - 1;
        let r = records[last];
        let m = resolve(init, names);
        let m2 = resolve(records, names);
        resolved_names(init, names);
        assert(records.last() == r);
        assert forall|i: int| 0 <= i < init.len() implies #[trigger] init[i] == records[i] by {}
        let counted = r is Table && names.contains(record_name(r));
        let replaced = counted && (!m.contains_key(record_name(r)) || version_le(m[record_name(r)], record_version(r)));
        assert forall|n: Seq<char>|
            #[trigger] m2.contains_key(n) <==> names.contains(n) && names_record(records, n) by {
            if r is Table && record_name(r) == n {
                assert(names_record(records, n));
            }
            if names_record(init, n) {
                let i = choose|i: int| 0 <= i < init.len() && init[i] is Table && #[trigger] record_name(init[i]) == n;
                assert(records[i] == init[i]);
            }
            if names_record(records, n) {
                let i = choose|i: int| 0 <= i < records.len() && records[i] is Table && #[trigger] record_name(records[i]) == n;
                if i < last {
                    assert(init[i] == records[i]);
                }
            }
        }
        assert forall|n: Seq<char>| #[trigger] m2.contains_key(n) implies exists|i: int|
            0 <= i < records.len() && records[i] is Table && #[trigger] record_name(records[i]) == n
                && record_version(records[i]) == m2[n] by {
            if replaced && n == record_name(r) {
                assert(record_name(records[last]) == n);
            } else {
                let i = choose|i: int|
                    0 <= i < init.len() && init[i] is Table && #[trigger] record_name(init[i]) == n
                        && record_version(init[i]) == m[n];
                assert(records[i] == init[i]);
                assert(record_name(records[i]) == n);
            }
        }
        assert forall|i: int|
            0 <= i < records.len() && records[i] is Table && names.contains(#[trigger] record_name(records[i]))
                implies version_le(record_version(records[i]), m2[record_name(records[i])]) by {
            let n = record_name(records[i]);
            if i == last {
                if !replaced {
                    version_le_total(m[n], record_version(r));
                } else {
                    version_le_reflexive(record_version(r));
                }
            } else {
                assert(init[i] == records[i]);
                assert(record_name(init[i]) == n);
                if replaced && n == record_name(r) {
                    assert(m.contains_key(n));
                    version_le_transitive(record_version(records[i]), m[n], record_version(r));
                }
            }
        }
    }
}

/// The order of the records does not matter: any rearrangement of them
/// resolves to the same mapping.
pub proof fn order_independent(records: Seq<Document>, reordered: Seq<Document>, names: Set<Seq<char>>)
    requires
        reordered.to_multiset() == records.to_multiset(),
    ensures
        resolve(reordered, names) == resolve(records, names),
{
    records.to_multiset_ensures();
    reordered.to_multiset_ensures();
    assert forall|d: Document| records.contains(d) <==> reordered.contains(d) by {
        assert(records.contains(d) <==> records.to_multiset().count(d) > 0);
        assert(reordered.contains(d) <==> reordered.to_multiset().count(d) > 0);
    }
    resolved_names(records, names);
    resolved_names(reordered, names);
    let m1 = resolve(records, names);
    let m2 = resolve(reordered, names);
    assert forall|n: Seq<char>| names_record(records, n) <==> names_record(reordered, n) by {
        if names_record(records, n) {
            let i = choose|i: int| 0 <= i < records.len() && records[i] is Table && #[trigger] record_name(records[i]) == n;
            assert(records.contains(records[i]));
            let k = choose|k: int| 0 <= k < reordered.len() && reordered[k] == records[i];
            assert(record_name(reordered[k]) == n);
        }
        if names_record(reordered, n) {
            let i = choose|i: int| 0 <= i < reordered.len() && reordered[i] is Table && #[trigger] record_name(reordered[i]) == n;
            assert(reordered.contains(reordered[i]));
            let k = choose|k: int| 0 <= k < records.len() && records[k] == reordered[i];
            assert(record_name(records[k]) == n);
        }
    }
    assert forall|n: Seq<char>| #[trigger] m1.contains_key(n) implies m1[n] == m2[n] by {
        assert(m2.contains_key(n));
        let i = choose|i: int|
            0 <= i < records.len() && records[i] is Table && #[trigger] record_name(records[i]) == n
                && record_version(records[i]) == m1[n];
        assert(records.contains(records[i]));
        let k = choose|k: int| 0 <= k < reordered.len() && reordered[k] == records[i];
        assert(record_name(reordered[k]) == n);
        let j = choose|j: int|
            0 <= j < reordered.len() && reordered[j] is Table && #[trigger] record_name(reordered[j]) == n
                && record_version(reordered[j]) == m2[n];
        assert(reordered.contains(reordered[j]));
        let l = choose|l: int| 0 <= l < records.len() && records[l] == reordered[j];
        assert(record_name(records[l]) == n);
        version_le_antisymmetric(m1[n], m2[n]);
    }
    assert(m1 =~= m2);
}

/// Resolution depends on nothing but the two documents: resolving the same
/// manifest and lockfile twice gives the same mapping.
pub proof fn resolution_deterministic(manifest: Document, lock: Document, manifest2: Document, lock2: Document)
    requires
        manifest == manifest2,
        lock == lock2,
    ensures
        resolve(package_records(lock), dependency_names(manifest)) == resolve(
            package_records(lock2),
            dependency_names(manifest2),
        ),
{
}

} // verus!
