use droute::crawl::crawl_step;
use droute::index::{InterfaceUse, InterfaceUses, UsageIndex};
use droute::location::ObjectLocation;
use droute::names::filter_unique_names;
use droute::query::DRoute;

fn loc(path: &str) -> ObjectLocation {
    ObjectLocation::new(path.to_string()).expect("valid location")
}

fn usage(bus: &str, path: &str) -> InterfaceUse {
    InterfaceUse::new(bus.to_string(), loc(path))
}

fn add(idx: &mut UsageIndex, interface: &str, bus: &str, path: &str) {
    idx.insert(interface.to_string(), usage(bus, path));
}

/// Assert that `idx` holds exactly the given facts: each listed interface
/// maps to exactly the listed (bus, path) pairs, and no other interface has
/// an entry.
fn assert_index_is(idx: &UsageIndex, expected: &[(&str, &[(&str, &str)])]) {
    assert_eq!(idx.len(), expected.len());
    for (interface, pairs) in expected {
        let uses = idx
            .get(&interface.to_string())
            .expect("interface should be present");
        assert_eq!(uses.len(), pairs.len());
        for (bus, path) in *pairs {
            assert!(uses.contains(&usage(bus, path)));
        }
    }
}

fn index_a() -> UsageIndex {
    let mut a = UsageIndex::new();
    add(&mut a, "com.example.OnlyA", ":1.1", "/a");
    add(&mut a, "com.example.Shared", ":1.1", "/a");
    a
}

fn index_b() -> UsageIndex {
    let mut b = UsageIndex::new();
    add(&mut b, "com.example.OnlyB", ":1.2", "/b");
    add(&mut b, "com.example.Shared", ":1.2", "/b");
    b
}

fn index_c() -> UsageIndex {
    let mut c = UsageIndex::new();
    add(&mut c, "com.example.Shared", ":1.3", "/c/d");
    c
}

const MERGED_AB: &[(&str, &[(&str, &str)])] = &[
    ("com.example.OnlyA", &[(":1.1", "/a")]),
    ("com.example.OnlyB", &[(":1.2", "/b")]),
    ("com.example.Shared", &[(":1.1", "/a"), (":1.2", "/b")]),
];

#[test]
fn merge_is_commutative() {
    let mut ab = index_a();
    ab.merge(index_b());
    let mut ba = index_b();
    ba.merge(index_a());
    assert_index_is(&ab, MERGED_AB);
    assert_index_is(&ba, MERGED_AB);
}

#[test]
fn merge_is_associative() {
    let expected: &[(&str, &[(&str, &str)])] = &[
        ("com.example.OnlyA", &[(":1.1", "/a")]),
        ("com.example.OnlyB", &[(":1.2", "/b")]),
        (
            "com.example.Shared",
            &[(":1.1", "/a"), (":1.2", "/b"), (":1.3", "/c/d")],
        ),
    ];
    // (a + b) + c
    let mut left = index_a();
    left.merge(index_b());
    left.merge(index_c());
    // a + (b + c)
    let mut bc = index_b();
    bc.merge(index_c());
    let mut right = index_a();
    right.merge(bc);
    assert_index_is(&left, expected);
    assert_index_is(&right, expected);
}

#[test]
fn merge_with_empty_is_identity() {
    let expected: &[(&str, &[(&str, &str)])] = &[
        ("com.example.OnlyA", &[(":1.1", "/a")]),
        ("com.example.Shared", &[(":1.1", "/a")]),
    ];
    let mut a = index_a();
    a.merge(UsageIndex::new());
    assert_index_is(&a, expected);
    let mut e = UsageIndex::new();
    e.merge(index_a());
    assert_index_is(&e, expected);
}

#[test]
fn remerge_is_idempotent() {
    let expected: &[(&str, &[(&str, &str)])] = &[
        ("com.example.OnlyA", &[(":1.1", "/a")]),
        ("com.example.Shared", &[(":1.1", "/a")]),
    ];
    let mut a = index_a();
    a.merge(index_a());
    assert_index_is(&a, expected);
}

#[test]
fn duplicate_usages_collapse() {
    let mut uses = InterfaceUses::new();
    uses.insert(usage(":1.4", "/x"));
    uses.insert(usage(":1.4", "/x"));
    assert_eq!(uses.len(), 1);

    let mut idx = UsageIndex::new();
    add(&mut idx, "com.example.Foo", ":1.4", "/x");
    add(&mut idx, "com.example.Foo", ":1.4", "/x");
    assert_index_is(&idx, &[("com.example.Foo", &[(":1.4", "/x")])]);
}

#[test]
fn root_child_is_normalized() {
    let root = ObjectLocation::root();
    let x = root.child("x").expect("x is a valid segment");
    assert_eq!(x.as_str(), "/x");
}

#[test]
fn nested_child_is_normalized() {
    let a = loc("/a");
    let b = a.child("b").expect("b is a valid segment");
    assert_eq!(b.as_str(), "/a/b");
    let c = b.child("c9_z").expect("valid segment");
    assert_eq!(c.as_str(), "/a/b/c9_z");
    assert!(!c.as_str().contains("//"));
}

#[test]
fn malformed_segments_are_rejected() {
    let root = ObjectLocation::root();
    assert!(root.child("").is_none());
    assert!(root.child("a/b").is_none());
    assert!(root.child("a.b").is_none());
    assert!(root.child("a-b").is_none());
    assert!(root.child("ok_9").is_some());
}

#[test]
fn location_validation() {
    assert!(ObjectLocation::new("/".to_string()).is_some());
    assert!(ObjectLocation::new("/a/b_c/D9".to_string()).is_some());
    assert!(ObjectLocation::new("".to_string()).is_none());
    assert!(ObjectLocation::new("a".to_string()).is_none());
    assert!(ObjectLocation::new("//a".to_string()).is_none());
    assert!(ObjectLocation::new("/a//b".to_string()).is_none());
    assert!(ObjectLocation::new("/a/".to_string()).is_none());
    assert!(ObjectLocation::new("/a.b".to_string()).is_none());
}

const BUS: &str = ":1.9";

fn crawl_tree(location: &ObjectLocation, fetch: &dyn Fn(&str) -> Option<String>) -> UsageIndex {
    let fetched = fetch(location.as_str());
    let step = crawl_step(BUS, location, fetched.as_deref());
    let mut index = step.index;
    for child in &step.children {
        index.merge(crawl_tree(child, fetch));
    }
    index
}

#[test]
fn completeness_for_finite_tree() {
    let fetch = |path: &str| -> Option<String> {
        match path {
            "/" => Some(
                "<node><interface name=\"com.example.A\"/><node name=\"x\"/></node>".to_string(),
            ),
            "/x" => Some(
                "<node><interface name=\"com.example.B\"/><node name=\"y\"/></node>".to_string(),
            ),
            "/x/y" => Some("<node><interface name=\"com.example.C\"/></node>".to_string()),
            _ => None,
        }
    };
    let index = crawl_tree(&ObjectLocation::root(), &fetch);
    assert_index_is(
        &index,
        &[
            ("com.example.A", &[(BUS, "/")]),
            ("com.example.B", &[(BUS, "/x")]),
            ("com.example.C", &[(BUS, "/x/y")]),
        ],
    );
}

#[test]
fn crawl_step_lists_children_in_order() {
    let xml = "<node><node name=\"b\"/><node/><node name=\"a\"/></node>";
    let step = crawl_step(BUS, &ObjectLocation::root(), Some(xml));
    assert_eq!(step.index.len(), 0);
    let children: Vec<&str> = step.children.iter().map(|c| c.as_str()).collect();
    assert_eq!(children, vec!["/b", "/a"]);
}

#[test]
fn failed_fetch_contributes_nothing() {
    let step = crawl_step(BUS, &ObjectLocation::root(), None);
    assert_eq!(step.index.len(), 0);
    assert_eq!(step.children.len(), 0);
}

#[test]
fn malformed_document_contributes_nothing() {
    let step = crawl_step(BUS, &ObjectLocation::root(), Some("not an xml document <<<"));
    assert_eq!(step.index.len(), 0);
    assert_eq!(step.children.len(), 0);
}

#[test]
fn partial_failure_is_isolated() {
    // participant :1.1 fails at its root fetch; participant :1.2 answers.
    let failed = crawl_step(":1.1", &ObjectLocation::root(), None);
    let ok_xml = "<node><interface name=\"com.example.Alive\"/></node>";
    let ok = crawl_step(":1.2", &ObjectLocation::root(), Some(ok_xml));

    let mut total = UsageIndex::new();
    total.merge(failed.index);
    total.merge(ok.index);
    assert_index_is(&total, &[("com.example.Alive", &[(":1.2", "/")])]);
}

#[test]
fn stalled_fetch_does_not_block_siblings() {
    // A sibling whose fetch timed out is an empty contribution; the other
    // siblings' facts survive the merge unchanged.
    let stalled = crawl_step(BUS, &loc("/slow"), None);
    let quick_xml = "<node><interface name=\"com.example.Quick\"/></node>";
    let quick = crawl_step(BUS, &loc("/quick"), Some(quick_xml));

    let mut parent = crawl_step(BUS, &ObjectLocation::root(), Some("<node/>")).index;
    parent.merge(stalled.index);
    parent.merge(quick.index);
    assert_index_is(&parent, &[("com.example.Quick", &[(BUS, "/quick")])]);
}

#[test]
fn query_transform_scenario() {
    let service = DRoute;
    assert_eq!(service.query_interface("com.example.Foo"), "/com/example/Foo");
}

#[test]
fn query_transform_edge_cases() {
    let service = DRoute;
    assert_eq!(service.query_interface("Foo"), "/Foo");
    assert_eq!(service.query_interface(""), "/");
    assert_eq!(service.query_interface("a.b.c"), "/a/b/c");
}

#[test]
fn unique_names_are_kept_aliases_dropped() {
    let names = vec![
        ":1.5".to_string(),
        "org.example.Alias".to_string(),
        ":1.7".to_string(),
        "".to_string(),
    ];
    let kept = filter_unique_names(names);
    assert_eq!(kept, vec![":1.5".to_string(), ":1.7".to_string()]);
}
