use buckeval::diag::Expansion;
use buckeval::diag::Message;
use buckeval::diag::Span;
use buckeval::diag::make_message_absolute;
use buckeval::diag::make_span_absolute;

fn span(file: &str) -> Span {
    Span {
        file_name: file.to_string(),
        expansion: None,
    }
}

#[test]
fn spans_are_joined_onto_the_cell_root() {
    let s = Span {
        file_name: "src/lib.rs".to_string(),
        expansion: Some(Box::new(Expansion {
            span: span("src/macros.rs"),
            def_site_span: Some(Box::new(span("src/def.rs"))),
        })),
    };
    let s = make_span_absolute(s, "/repo/cell");
    assert_eq!(s.file_name, "/repo/cell/src/lib.rs");
    let e = s.expansion.unwrap();
    assert_eq!(e.span.file_name, "/repo/cell/src/macros.rs");
    assert_eq!(e.def_site_span.unwrap().file_name, "/repo/cell/src/def.rs");
}

#[test]
fn messages_are_rewritten_through_children() {
    let m = Message {
        spans: vec![span("a.rs"), span("b.rs")],
        children: vec![Message {
            spans: vec![span("c.rs")],
            children: vec![],
        }],
    };
    let m = make_message_absolute(m, "/root");
    assert_eq!(m.spans[0].file_name, "/root/a.rs");
    assert_eq!(m.spans[1].file_name, "/root/b.rs");
    assert_eq!(m.children[0].spans[0].file_name, "/root/c.rs");
}
