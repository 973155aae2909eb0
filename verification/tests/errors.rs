use buckeval::errors::Category;
use buckeval::errors::ContextValue;
use buckeval::errors::Error;
use buckeval::errors::ErrorKind;
use buckeval::errors::ErrorTag;
use buckeval::errors::ErrorType;
use buckeval::errors::ForeignError;
use buckeval::errors::ProvidableContextMetadata;
use buckeval::errors::ProvidableRootMetadata;
use buckeval::errors::SourceFrame;
use buckeval::errors::StdFrame;

fn test_error_frame() -> StdFrame {
    StdFrame {
        display: "TestError".to_string(),
        root: None,
        context: None,
        source: None,
    }
}

fn full_metadata_frame() -> StdFrame {
    StdFrame {
        display: "FullMetadataError".to_string(),
        root: Some(ProvidableRootMetadata {
            typ: Some(ErrorType::Watchman),
        }),
        context: Some(ProvidableContextMetadata {
            source_file: "buck2_error/src/any.rs".to_string(),
            source_location_extra: Some("FullMetadataError".to_string()),
            category: Some(Category::User),
            tags: vec![
                ErrorTag::WatchmanTimeout,
                ErrorTag::StarlarkFail,
                ErrorTag::WatchmanTimeout,
            ],
        }),
        source: None,
    }
}

fn check_equal(a: &Error, b: &Error) {
    let mut a = a;
    let mut b = b;
    loop {
        match (&*a.0, &*b.0) {
            (ErrorKind::Root(ra), ErrorKind::Root(rb)) => {
                assert_eq!(ra.description, rb.description);
                assert_eq!(ra.typ, rb.typ);
                assert_eq!(ra.source_location, rb.source_location);
                return;
            }
            (
                ErrorKind::WithContext(a_context, a_inner),
                ErrorKind::WithContext(b_context, b_inner),
            ) => {
                assert_eq!(a_context, b_context);
                a = a_inner;
                b = b_inner;
            }
            (_, _) => {
                panic!("Left side did not match right: {:?} {:?}", a, b)
            }
        }
    }
}

#[test]
fn test_rountrip_no_context() {
    let e = Error::new(test_error_frame()).context("context 1");
    let e2 = Error::from_foreign(ForeignError::from_error(e.duplicate()));
    check_equal(&e, &e2);
}

#[test]
fn test_rountrip_with_context() {
    let e = Error::new(test_error_frame()).context("context 1");
    let e2 = Error::from_foreign(ForeignError::from_error(e.duplicate()).context("context 2"));
    let e3 = e.context("context 2");
    check_equal(&e2, &e3);
}

#[test]
fn test_metadata() {
    for e in [
        Error::from_foreign(ForeignError::from_std(full_metadata_frame())),
        Error::new(full_metadata_frame()),
    ] {
        assert_eq!(e.get_category(), Some(Category::User));
        assert_eq!(e.get_error_type(), Some(ErrorType::Watchman));
        assert_eq!(
            e.source_location(),
            Some("buck2_error/src/any.rs::FullMetadataError".to_string())
        );
        assert_eq!(
            e.get_tags(),
            vec![ErrorTag::StarlarkFail, ErrorTag::WatchmanTimeout]
        );
    }
}

#[test]
fn test_metadata_through_anyhow() {
    let e = ForeignError::from_std(full_metadata_frame());
    let e = e.context("anyhow");
    let e: Error = Error::from_foreign(e);
    assert_eq!(e.get_category(), Some(Category::User));
    assert!(e.render().contains("anyhow"));
}

#[test]
fn test_metadata_through_wrapper() {
    let wrapper = StdFrame {
        display: "wrapper".to_string(),
        root: None,
        context: None,
        source: Some(Box::new(SourceFrame::Std(full_metadata_frame()))),
    };
    let e: Error = Error::new(wrapper);
    assert_eq!(e.get_category(), Some(Category::User));
    assert!(e.render().contains("wrapper"));
}

#[test]
fn test_context_in_wrapper() {
    let wrapper = StdFrame {
        display: "wrapper2".to_string(),
        root: None,
        context: Some(ProvidableContextMetadata {
            source_file: "buck2_error/src/any.rs".to_string(),
            source_location_extra: Some("FullMetadataContextWrapperError".to_string()),
            category: Some(Category::Infra),
            tags: vec![],
        }),
        source: Some(Box::new(SourceFrame::Std(full_metadata_frame()))),
    };
    let e: Error = Error::new(wrapper);
    assert_eq!(e.get_category(), Some(Category::Infra));
    assert_eq!(e.get_error_type(), Some(ErrorType::Watchman));
    assert_eq!(
        e.source_location(),
        Some("buck2_error/src/any.rs::FullMetadataError".to_string())
    );
    assert!(e.render().contains("wrapper2"));
}

#[test]
fn test_no_root_metadata_context() {
    let user = StdFrame {
        display: "unused".to_string(),
        root: None,
        context: Some(ProvidableContextMetadata {
            source_file: "buck2_error/src/any.rs".to_string(),
            source_location_extra: Some("UserMetadataError".to_string()),
            category: Some(Category::User),
            tags: vec![],
        }),
        source: None,
    };
    let wrapper = StdFrame {
        display: "unused".to_string(),
        root: None,
        context: Some(ProvidableContextMetadata {
            source_file: "buck2_error/src/any.rs".to_string(),
            source_location_extra: Some("InfraMetadataWrapperError".to_string()),
            category: Some(Category::Infra),
            tags: vec![],
        }),
        source: Some(Box::new(SourceFrame::Std(user))),
    };
    let e: Error = Error::new(wrapper);
    assert_eq!(e.get_category(), Some(Category::Infra));
}

#[test]
fn context_values_compare_by_content() {
    assert_eq!(
        ContextValue::Dyn("a".to_string()),
        ContextValue::Dyn("a".to_string())
    );
    assert_ne!(
        ContextValue::Dyn("a".to_string()),
        ContextValue::Category(Category::User)
    );
}
