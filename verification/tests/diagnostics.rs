use typemap_core::error::DiagnosticError;
use typemap_core::loc::{invalid_src_id_span, SourceId, Span};
use typemap_core::text::{join_segments, str_eq, string_eq};

fn span(line: usize) -> Span {
    Span { start_line: line, start_col: 2, end_line: line, end_col: 8 }
}

#[test]
fn new_carries_one_located_note() {
    let e = DiagnosticError::new(SourceId::Source(1), span(4), "bad type".to_string());
    assert_eq!(e.len(), 1);
    assert_eq!(e.notes[0].src_id, SourceId::Source(1));
    assert_eq!(e.notes[0].span, span(4));
    assert_eq!(e.notes[0].message, "bad type");
}

#[test]
fn new2_takes_a_paired_location() {
    let e = DiagnosticError::new2((SourceId::Source(2), span(7)), "oops".to_string());
    assert_eq!(e.notes.len(), 1);
    assert_eq!(e.notes[0].src_id, SourceId::Source(2));
    assert_eq!(e.notes[0].span, span(7));
}

#[test]
fn span_note_appends_in_order() {
    let mut e = DiagnosticError::new(SourceId::Source(1), span(1), "first".to_string());
    e.span_note((SourceId::Source(2), span(2)), "second".to_string());
    let e = e.add_span_note((SourceId::Source(3), span(3)), "third".to_string());
    assert_eq!(e.notes.len(), 3);
    assert_eq!(e.notes[1].message, "second");
    assert_eq!(e.notes[2].message, "third");
    assert_eq!(e.notes[2].src_id, SourceId::Source(3));
}

#[test]
fn new_without_src_info_uses_invalid_location() {
    let e = DiagnosticError::new_without_src_info("lost".to_string());
    assert_eq!(e.notes.len(), 1);
    assert_eq!(e.notes[0].src_id, SourceId::NoSource);
    assert!(e.notes[0].src_id.is_none());
    assert_eq!(e.notes[0].span, Span::call_site());
    let loc = invalid_src_id_span();
    assert_eq!(loc.0, SourceId::NoSource);
    assert_eq!(loc.1, e.notes[0].span);
}

#[test]
fn from_syn_err_reads_the_real_error() {
    let syn_err = syn::Error::new(proc_macro2::Span::call_site(), "unexpected token");
    let e = DiagnosticError::from_syn_err(SourceId::Source(5), syn_err);
    assert_eq!(e.notes.len(), 1);
    assert_eq!(e.notes[0].src_id, SourceId::Source(5));
    assert_eq!(e.notes[0].message, "unexpected token");
}

#[test]
fn from_syn_err_takes_parse_failures() {
    let bad = match syn::parse_str::<syn::Type>("::<>!!") {
        Ok(_) => panic!("parse unexpectedly succeeded"),
        Err(e) => e,
    };
    let text = bad.to_string();
    let e = DiagnosticError::from_syn_err(SourceId::Source(1), bad);
    assert_eq!(e.notes[0].message, text);
    assert!(!e.notes[0].message.is_empty());
}

#[test]
fn str_eq_compares_by_content() {
    assert!(str_eq("abc", "abc"));
    assert!(!str_eq("abc", "abd"));
    assert!(!str_eq("abc", "ab"));
    assert!(str_eq("", ""));
    assert!(str_eq("héllo", "héllo"));
    assert!(!str_eq("héllo", "hallo"));
}

#[test]
fn string_eq_compares_by_content() {
    assert!(string_eq(&"x".to_string(), &"x".to_string()));
    assert!(!string_eq(&"x".to_string(), &"y".to_string()));
}

#[test]
fn join_segments_writes_qualified_names() {
    assert_eq!(join_segments(&vec![]), "");
    assert_eq!(join_segments(&vec!["Bar".to_string()]), "Bar");
    assert_eq!(
        join_segments(&vec!["foo".to_string(), "bar".to_string(), "Baz".to_string()]),
        "foo::bar::Baz"
    );
}

#[test]
fn source_id_none_is_none() {
    assert!(SourceId::none().is_none());
    assert!(!SourceId::Source(0).is_none());
    assert_eq!(SourceId::none(), SourceId::NoSource);
}
