use typemap_core::foreign::{
    ConvDirection, ConversionRule, ForeignTypesStorage, IntermediateStep, TypeName,
};
use typemap_core::host::GraphNodeHandle;
use typemap_core::loc::{SourceId, Span};

fn span(line: usize) -> Span {
    Span { start_line: line, start_col: 0, end_line: line, end_col: 5 }
}

fn name(text: &str, src: usize, line: usize) -> TypeName {
    TypeName { typename: text.to_string(), span: (SourceId::Source(src), span(line)) }
}

#[test]
fn strict_declaration_uniqueness() {
    let mut st = ForeignTypesStorage::new();
    let first = st.declare_strict(name("Foo", 1, 1), GraphNodeHandle(0));
    assert_eq!(first.unwrap(), typemap_core::foreign::ForeignType(0));
    let second = st.declare_strict(name("Foo", 1, 9), GraphNodeHandle(0));
    let err = second.unwrap_err();
    assert_eq!(err.notes.len(), 2);
    assert_eq!(err.notes[0].span, span(1));
    assert_eq!(err.notes[1].span, span(9));
    assert_ne!(err.notes[0].span, err.notes[1].span);
    assert_eq!(err.notes[0].message, "Type Foo already defined here");
    assert_eq!(err.notes[1].message, "second mention of type Foo");
    // An unrelated name still declares.
    assert!(st.declare_strict(name("Bar", 1, 12), GraphNodeHandle(1)).is_ok());
    assert_eq!(st.len(), 2);
}

#[test]
fn lazy_then_strict_promotes_in_place() {
    let mut st = ForeignTypesStorage::new();
    let lazy = st.find_or_create(name("X", 1, 2));
    assert_eq!(lazy.0, 0);
    assert!(st.get(lazy).into_host.is_none());
    assert!(st.get(lazy).from_host.is_none());
    let strict = st.declare_strict(name("X", 1, 7), GraphNodeHandle(4)).unwrap();
    assert_eq!(strict, lazy);
    assert_eq!(st.len(), 1);
    let rec = st.get(strict);
    assert_eq!(rec.into_host.as_ref().unwrap().host_node, GraphNodeHandle(4));
    assert_eq!(rec.from_host.as_ref().unwrap().host_node, GraphNodeHandle(4));
    assert!(rec.into_host.as_ref().unwrap().intermediate.is_none());
    assert_eq!(rec.name.span, (SourceId::Source(1), span(7)));
}

#[test]
fn strict_then_lazy_reuses_record() {
    let mut st = ForeignTypesStorage::new();
    let strict = st.declare_strict(name("X", 1, 7), GraphNodeHandle(4)).unwrap();
    let lazy = st.find_or_create(name("X", 2, 30));
    assert_eq!(lazy, strict);
    assert_eq!(st.len(), 1);
    // Lazy lookup of a declared name changes nothing, not even the location.
    assert_eq!(st.get(lazy).name.span, (SourceId::Source(1), span(7)));
}

#[test]
fn find_or_create_returns_existing_placeholder() {
    let mut st = ForeignTypesStorage::new();
    let a = st.find_or_create(name("A", 1, 1));
    let b = st.find_or_create(name("B", 1, 2));
    let a_again = st.find_or_create(name("A", 1, 3));
    assert_eq!(a, a_again);
    assert_ne!(a, b);
    assert_eq!(st.len(), 2);
}

#[test]
fn lookup_is_pure() {
    let mut st = ForeignTypesStorage::new();
    assert!(st.lookup("A").is_none());
    let a = st.find_or_create(name("A", 1, 1));
    assert_eq!(st.lookup("A"), Some(a));
    assert!(st.lookup("B").is_none());
    assert_eq!(st.len(), 1);
}

#[test]
fn directionality() {
    let mut st = ForeignTypesStorage::new();
    let f = st.find_or_create(name("FDate", 1, 4));
    st.set_rule(
        f,
        ConvDirection::IntoHost,
        ConversionRule { host_node: GraphNodeHandle(2), intermediate: None },
    );
    let rec = st.get(f);
    assert!(rec.into_host.is_some());
    assert!(rec.from_host.is_none());
    let ok = st.resolve("Date", GraphNodeHandle(2), f, ConvDirection::IntoHost);
    assert_eq!(ok.unwrap().host_node, GraphNodeHandle(2));
    let err = st.resolve("Date", GraphNodeHandle(2), f, ConvDirection::FromHost).unwrap_err();
    assert_eq!(err.notes.len(), 1);
    assert_eq!(err.notes[0].message, "no rule to convert Date into FDate");
    assert_eq!(err.notes[0].span, span(4));
}

#[test]
fn resolve_rejects_wrong_host_node() {
    let mut st = ForeignTypesStorage::new();
    let f = st.declare_strict(name("FPoint", 1, 1), GraphNodeHandle(5)).unwrap();
    let err = st.resolve("Point", GraphNodeHandle(6), f, ConvDirection::IntoHost).unwrap_err();
    assert_eq!(err.notes[0].message, "no rule to convert FPoint into Point");
    assert!(st.resolve("Point", GraphNodeHandle(5), f, ConvDirection::IntoHost).is_ok());
}

#[test]
fn intermediate_step_is_kept() {
    let mut st = ForeignTypesStorage::new();
    let f = st.find_or_create(name("FBig", 1, 2));
    st.set_rule(
        f,
        ConvDirection::FromHost,
        ConversionRule {
            host_node: GraphNodeHandle(0),
            intermediate: Some(IntermediateStep {
                intermediate_node: GraphNodeHandle(9),
                conv_code: "to_bytes(value)".to_string(),
            }),
        },
    );
    let rule = st.resolve("Big", GraphNodeHandle(0), f, ConvDirection::FromHost).unwrap();
    let step = rule.intermediate.as_ref().unwrap();
    assert_eq!(step.intermediate_node, GraphNodeHandle(9));
    assert_eq!(step.conv_code, "to_bytes(value)");
}

#[test]
fn ordered_traversal_in_declaration_order() {
    let mut st = ForeignTypesStorage::new();
    st.find_or_create(name("C", 1, 1));
    st.find_or_create(name("A", 1, 2));
    st.find_or_create(name("B", 1, 3));
    let names: Vec<&str> = st.records().iter().map(|f| f.name.typename.as_str()).collect();
    assert_eq!(names, vec!["C", "A", "B"]);
    let owned = st.into_records();
    assert_eq!(owned.len(), 3);
    assert_eq!(owned[2].name.typename, "B");
}

#[test]
fn end_to_end_point_scenario() {
    let mut reg = typemap_core::host::HostTypeRegistry::new();
    let point = reg.intern(typemap_core::host::RustTypeS::new_without_graph_idx(
        syn::parse_str::<syn::Type>("Point").unwrap(),
        "Point".to_string(),
    ));
    let mut st = ForeignTypesStorage::new();
    let fpoint = st.declare_strict(name("FPoint", 1, 10), point).unwrap();
    let dup = st.declare_strict(name("FPoint", 2, 20), point).unwrap_err();
    assert_eq!(dup.notes.len(), 2);
    assert_eq!(dup.notes[0].src_id, SourceId::Source(1));
    assert_eq!(dup.notes[0].span, span(10));
    assert_eq!(dup.notes[1].src_id, SourceId::Source(2));
    assert_eq!(dup.notes[1].span, span(20));
    let again = st.find_or_create(name("FPoint", 3, 30));
    assert_eq!(again, fpoint);
    assert_eq!(st.len(), 1);
}

#[test]
fn add_new_ftype_appends_at_next_index() {
    let mut st = ForeignTypesStorage::new();
    let f = st.add_new_ftype(typemap_core::foreign::ForeignTypeS {
        name: name("Raw", 1, 1),
        into_host: None,
        from_host: Some(ConversionRule { host_node: GraphNodeHandle(3), intermediate: None }),
    });
    assert_eq!(f.0, 0);
    assert_eq!(st.len(), 1);
    assert_eq!(st.lookup("Raw"), Some(f));
}
