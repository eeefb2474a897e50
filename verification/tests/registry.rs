use typemap_core::capability::{CapabilityPath, ImplementsSet, TraitNamesSet};
use typemap_core::host::{HostTypeRegistry, RustTypeS};
use typemap_core::loc::{SourceId, Span};

fn ty(s: &str) -> syn::Type {
    syn::parse_str::<syn::Type>(s).unwrap()
}

fn path(segments: &[&str]) -> CapabilityPath {
    CapabilityPath::new(segments.iter().map(|s| s.to_string()).collect())
}

fn requirement(paths: &[&[&str]]) -> TraitNamesSet {
    let mut set = TraitNamesSet::new();
    for p in paths {
        set.insert(path(p));
    }
    set
}

#[test]
fn merge_idempotence() {
    let mut reg = HostTypeRegistry::new();
    let c1 = RustTypeS::new_without_graph_idx(ty("i32"), "i32".to_string()).implements("Clone");
    let h1 = reg.intern(c1);
    let c2 = RustTypeS::new_without_graph_idx(ty("i32"), "i32".to_string()).implements("Clone");
    let h2 = reg.intern(c2);
    assert_eq!(h1, h2);
    assert_eq!(reg.records.len(), 1);
    assert_eq!(reg.records[0].implements.inner, vec!["Clone".to_string()]);
}

#[test]
fn capability_accumulation() {
    let mut reg = HostTypeRegistry::new();
    let h = reg.intern(RustTypeS::new_without_graph_idx(ty("Point"), "Point".to_string()));
    reg.annotate(h, "A".to_string());
    let h2 = reg.intern(RustTypeS::new_without_graph_idx(ty("Point"), "Point".to_string()));
    assert_eq!(h, h2);
    reg.annotate(h, "B".to_string());
    assert!(reg.satisfies(h, &requirement(&[&["A"]])));
    assert!(reg.satisfies(h, &requirement(&[&["B"]])));
    assert!(reg.satisfies(h, &requirement(&[&["A"], &["B"]])));
    assert!(reg.satisfies(h, &requirement(&[])));
    assert!(!reg.satisfies(h, &requirement(&[&["C"]])));
}

#[test]
fn empty_requirement_always_satisfied() {
    let mut reg = HostTypeRegistry::new();
    let h = reg.intern(RustTypeS::new_without_graph_idx(ty("()"), "()".to_string()));
    assert!(reg.satisfies(h, &TraitNamesSet::new()));
}

#[test]
fn name_based_matching() {
    let mut caps = ImplementsSet::new();
    caps.insert("Bar".to_string());
    assert!(caps.contains_subset(&requirement(&[&["foo", "Bar"]])));
    assert!(caps.contains_subset(&requirement(&[&["Bar"]])));
    assert!(!caps.contains_subset(&requirement(&[&["foo", "Baz"]])));
    assert!(!caps.contains_subset(&requirement(&[&["Bar", "foo"]])));
}

#[test]
fn annotate_is_idempotent() {
    let mut reg = HostTypeRegistry::new();
    let h = reg.intern(RustTypeS::new_without_graph_idx(ty("u8"), "u8".to_string()));
    reg.annotate(h, "Copy".to_string());
    reg.annotate(h, "Copy".to_string());
    assert_eq!(reg.records[0].implements.inner, vec!["Copy".to_string()]);
}

#[test]
fn graph_handle_stability() {
    let mut reg = HostTypeRegistry::new();
    let h0 = reg.intern(RustTypeS::new_without_graph_idx(ty("Vec<i32>"), "Vec < i32 >".to_string()));
    let other = reg.intern(RustTypeS::new_without_graph_idx(ty("bool"), "bool".to_string()));
    assert_ne!(h0, other);
    // A merge replaces the syntactic expression but never the handle.
    let again = reg.intern(
        RustTypeS::new_without_graph_idx(ty("Vec<i32>"), "Vec < i32 >".to_string())
            .implements("Clone"),
    );
    assert_eq!(h0, again);
    assert_eq!(reg.records.len(), 2);
    assert_eq!(reg.records[again.0].graph_idx, h0);
}

#[test]
fn merge_replaces_display_name_last_write_wins() {
    let mut reg = HostTypeRegistry::new();
    let h = reg.intern(RustTypeS::new_without_graph_idx(ty("Foo<u8>"), "Foo < u8 >".to_string()));
    let h2 = reg.intern(RustTypeS::new_without_graph_idx(ty("Foo<u8>"), "Foo < u8 >".to_string()));
    assert_eq!(h, h2);
    assert_eq!(reg.records[h.0].normalized_name, "Foo < u8 >");
}

#[test]
fn find_by_name_returns_interned_handle() {
    let mut reg = HostTypeRegistry::new();
    let h = reg.intern(RustTypeS::new_without_graph_idx(ty("String"), "String".to_string()));
    assert_eq!(reg.find_by_name("String"), Some(h));
    assert_eq!(reg.find_by_name("str"), None);
    assert_eq!(reg.len(), 1);
}

#[test]
fn builder_collects_capabilities() {
    let rec = RustTypeS::new_without_graph_idx(ty("i64"), "i64".to_string())
        .implements("Clone")
        .implements("Copy")
        .implements("Clone");
    assert_eq!(rec.implements.inner, vec!["Clone".to_string(), "Copy".to_string()]);
    assert!(rec.implements.contains("Copy"));
    assert!(!rec.implements.contains("Send"));
}

#[test]
fn insert_set_unions_without_losing_names() {
    let mut a = ImplementsSet::new();
    a.insert("A".to_string());
    a.insert("B".to_string());
    let mut b = ImplementsSet::new();
    b.insert("B".to_string());
    b.insert("C".to_string());
    a.insert_set(&b);
    assert_eq!(
        a.inner,
        vec!["A".to_string(), "B".to_string(), "C".to_string()]
    );
}

#[test]
fn require_capabilities_reports_type_and_missing_path() {
    let mut reg = HostTypeRegistry::new();
    let h = reg.intern(RustTypeS::new_without_graph_idx(ty("Point"), "Point".to_string()));
    reg.annotate(h, "Clone".to_string());
    let loc = (
        SourceId::Source(3),
        Span { start_line: 2, start_col: 1, end_line: 2, end_col: 6 },
    );
    assert!(reg
        .require_capabilities(h, &requirement(&[&["std", "clone", "Clone"]]), loc)
        .is_ok());
    let err = reg
        .require_capabilities(h, &requirement(&[&["Clone"], &["foo", "Bar"]]), loc)
        .unwrap_err();
    assert_eq!(err.notes.len(), 1);
    assert_eq!(err.notes[0].src_id, SourceId::Source(3));
    assert_eq!(err.notes[0].message, "type Point does not implement foo::Bar");
}

#[test]
fn require_capabilities_reports_first_missing() {
    let mut reg = HostTypeRegistry::new();
    let h = reg.intern(RustTypeS::new_without_graph_idx(ty("Rect"), "Rect".to_string()));
    let loc = (
        SourceId::Source(1),
        Span { start_line: 1, start_col: 0, end_line: 1, end_col: 4 },
    );
    let err = reg
        .require_capabilities(h, &requirement(&[&["x", "Miss1"], &["Miss2"]]), loc)
        .unwrap_err();
    assert_eq!(err.notes.len(), 1);
    assert_eq!(err.notes[0].message, "type Rect does not implement x::Miss1");
}

#[test]
fn trait_names_set_deduplicates_whole_paths() {
    let mut set = TraitNamesSet::new();
    assert!(set.is_empty());
    set.insert(path(&["foo", "Bar"]));
    set.insert(path(&["foo", "Bar"]));
    set.insert(path(&["Bar"]));
    assert!(!set.is_empty());
    assert_eq!(set.inner.len(), 2);
}
