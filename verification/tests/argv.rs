use buckeval::argv::ArgFileKind;
use buckeval::argv::Argv;
use buckeval::argv::ExpandedArgSource;
use buckeval::argv::ExpandedArgv;
use buckeval::argv::ExpandedArgvBuilder;

fn strings(xs: &[&str]) -> Vec<String> {
    xs.iter().map(|s| s.to_string()).collect()
}

#[test]
fn literals_are_inline() {
    let argv = ExpandedArgv::from_literals(strings(&["buck2", "build"]));
    assert_eq!(argv.args(), strings(&["buck2", "build"]));
    for a in &argv.args {
        assert!(matches!(a.source, ExpandedArgSource::Inline));
    }
}

#[test]
fn builder_tracks_flagfile_scopes() {
    let mut builder = ExpandedArgvBuilder::new();
    builder.push("buck2".to_string());
    builder.argfile_scope(
        ArgFileKind::Path("mode/opt".to_string()),
        &strings(&["--flag-a", "--flag-b"]),
    );
    builder.push("target".to_string());
    let argv = builder.build();
    assert_eq!(
        argv.args(),
        strings(&["buck2", "--flag-a", "--flag-b", "target"])
    );
    assert!(matches!(argv.args[0].source, ExpandedArgSource::Inline));
    assert!(matches!(argv.args[1].source, ExpandedArgSource::Flagfile(_)));
    assert!(matches!(argv.args[2].source, ExpandedArgSource::Flagfile(_)));
    assert!(matches!(argv.args[3].source, ExpandedArgSource::Inline));
}

#[test]
fn builder_replace_rewrites_in_place() {
    let mut builder = ExpandedArgvBuilder::new();
    builder.push("buck2-wrapper".to_string());
    builder.push("build".to_string());
    builder.replace(0, "buck2".to_string());
    assert_eq!(builder.build().args(), strings(&["buck2", "build"]));
}

#[test]
fn redacted_strips_sensitive_arguments() {
    let argv = Argv {
        argv: strings(&["run", "--token", "SECRET-REDACTED", "target"]),
        expanded_argv: ExpandedArgv::from_literals(strings(&[
            "run",
            "--token",
            "SECRET-REDACTED",
            "target",
        ])),
    };
    let sanitized = argv.redacted(strings(&["SECRET-REDACTED"]));
    assert_eq!(sanitized.argv, strings(&["run", "--token", "target"]));
    assert_eq!(
        sanitized.expanded_argv.args(),
        strings(&["run", "--token", "target"])
    );
}

#[test]
fn no_need_to_sanitize_keeps_everything() {
    let argv = Argv {
        argv: strings(&["build", "//:it"]),
        expanded_argv: ExpandedArgv::from_literals(strings(&["build", "//:it"])),
    };
    let sanitized = argv.no_need_to_sanitize();
    assert_eq!(sanitized.argv, strings(&["build", "//:it"]));
}
