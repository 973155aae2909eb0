use buckeval::docs::ArgDescription;
use buckeval::docs::FunctionDescription;
use buckeval::docs::MarkdownOptions;
use buckeval::output::OutputStream;

fn arg(name: &str, type_reference: &str) -> ArgDescription {
    ArgDescription {
        name: name.to_string(),
        repr_before: "".to_string(),
        repr_after: "".to_string(),
        type_reference: type_reference.to_string(),
    }
}

#[test]
fn arg_renders_name_and_type() {
    let options = MarkdownOptions { links_enabled: true };
    assert_eq!(
        arg("from", "target expression").render_markdown(&options),
        "from: target expression"
    );
}

#[test]
fn short_markdown_lists_reference_and_args() {
    let f = FunctionDescription {
        name: "deps".to_string(),
        args: vec![arg("universe", "targets"), arg("depth", "int")],
        short_help: Some("transitive dependencies".to_string()),
        details: None,
    };
    let linked = MarkdownOptions { links_enabled: true };
    assert_eq!(
        f.render_short_markdown(&linked),
        " - [deps](#deps)(universe: targets, depth: int): transitive dependencies"
    );
    let plain = MarkdownOptions {
        links_enabled: false,
    };
    assert_eq!(
        f.render_short_markdown(&plain),
        " - deps(universe: targets, depth: int): transitive dependencies"
    );
}

#[test]
fn full_markdown_renders_section() {
    let f = FunctionDescription {
        name: "deps".to_string(),
        args: vec![arg("universe", "targets")],
        short_help: Some("transitive dependencies".to_string()),
        details: Some("walks the graph".to_string()),
    };
    let plain = MarkdownOptions {
        links_enabled: false,
    };
    assert_eq!(
        f.render_markdown(&plain),
        "### deps(universe: targets)\n\ntransitive dependencies\n\nwalks the graph\n\n"
    );
}

#[test]
fn output_stream_collects_artifacts_once() {
    let mut out = OutputStream::new();
    assert!(!out.has_print());
    out.mark_print();
    assert!(out.has_print());
    out.ensure_artifact(10);
    out.ensure_artifact(11);
    out.ensure_artifact(10);
    assert_eq!(out.take_artifacts(), vec![10, 11]);
    assert_eq!(out.take_artifacts(), Vec::<u64>::new());
}
