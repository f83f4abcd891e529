use std::sync::Arc;

use buck2::error::maybe_add_context_from_metadata;
use buck2::error::ok;
use buck2::error::provide_metadata;
use buck2::error::recover_crate_error;
use buck2::error::source_location_from_file;
use buck2::error::ActionError;
use buck2::error::AsDynError;
use buck2::error::ContextValue;
use buck2::error::Error;
use buck2::error::ErrorKind;
use buck2::error::ErrorTag;
use buck2::error::ErrorType;
use buck2::error::ProvidableMetadata;
use buck2::error::Request;
use buck2::error::StdErrorChain;
use buck2::error::StdErrorLink;
use buck2::error::Tier;

fn link(display: &str, metadata: Option<ProvidableMetadata>) -> StdErrorLink {
    StdErrorLink { display: display.to_owned(), metadata }
}

fn chain(links: Vec<StdErrorLink>) -> StdErrorChain {
    StdErrorChain { links, base: None }
}

fn new_error(chain: &StdErrorChain) -> Error {
    recover_crate_error(chain.as_dyn_error(), None)
}

/// An ordinary error made from `e`, with messages added to it, the outermost first.
fn wrapped(e: &Error, messages: Vec<&str>) -> StdErrorChain {
    StdErrorChain {
        links: messages.into_iter().map(|m| link(m, None)).collect(),
        base: Some(e.dupe()),
    }
}

fn context_eq(a: &ContextValue, b: &ContextValue) -> bool {
    match (a, b) {
        (ContextValue::Dyn(a), ContextValue::Dyn(b)) => a == b,
        (
            ContextValue::Typed { kind: ka, display: da },
            ContextValue::Typed { kind: kb, display: db },
        ) => ka == kb && da == db,
        (ContextValue::Tier(a), ContextValue::Tier(b)) => a == b,
        (ContextValue::Tags(a), ContextValue::Tags(b)) => a == b,
        _ => false,
    }
}

fn check_equal(a: &Error, b: &Error) {
    match (&*a.0, &*b.0) {
        (ErrorKind::Root(x), ErrorKind::Root(y)) => {
            assert_eq!(x.description, y.description);
            assert_eq!(x.error_type, y.error_type);
            assert_eq!(x.source_location, y.source_location);
        }
        (ErrorKind::WithContext(x, a), ErrorKind::WithContext(y, b)) => {
            assert!(context_eq(x, y));
            check_equal(a, b);
        }
        (ErrorKind::Emitted(_, a), ErrorKind::Emitted(_, b)) => check_equal(a, b),
        _ => panic!("Left side did not match right: {:?} {:?}", a, b),
    }
}

fn test_error() -> Error {
    new_error(&chain(vec![link("TestError", None)]))
}

#[test]
fn test_roundtrip_no_context() {
    let e = test_error().context_message("context 1");
    let e2 = new_error(&wrapped(&e, vec![]));
    check_equal(&e, &e2);
}

#[test]
fn test_roundtrip_with_context() {
    let e = test_error().context_message("context 1");
    let e2 = new_error(&wrapped(&e, vec!["context 2"]));
    let e3 = e.context_message("context 2");
    check_equal(&e2, &e3);
}

#[test]
fn test_roundtrip_with_typed_context() {
    let e = test_error().context(ContextValue::Typed {
        kind: "T".to_owned(),
        display: format!("T({})", 1),
    });
    let e2 = new_error(&wrapped(&e, vec!["context 2"]));
    let e3 = e.context_message("context 2");
    check_equal(&e2, &e3);
}

fn full_metadata() -> ProvidableMetadata {
    let mut request = Request { provided: None };
    provide_metadata(
        &mut request,
        Some(Tier::Tier0),
        Some(ErrorType::Watchman),
        vec![ErrorTag::WatchmanTimeout, ErrorTag::StarlarkFail, ErrorTag::WatchmanTimeout],
        "app/buck2_error/src/any.rs".to_owned(),
        Some("FullMetadataError".to_owned()),
        None,
    );
    request.provided.unwrap()
}

fn full_metadata_error() -> StdErrorLink {
    link("FullMetadataError", Some(full_metadata()))
}

#[test]
fn test_metadata() {
    for e in [
        new_error(&chain(vec![full_metadata_error()])),
        recover_crate_error(&chain(vec![full_metadata_error()]), Some("elsewhere".to_owned())),
    ] {
        assert_eq!(e.get_tier(), Some(Tier::Tier0));
        assert_eq!(e.get_error_type(), Some(ErrorType::Watchman));
        assert_eq!(e.source_location(), Some("buck2_error/src/any.rs::FullMetadataError"));
        assert_eq!(&e.tags(), &[ErrorTag::StarlarkFail, ErrorTag::WatchmanTimeout]);
    }
}

#[test]
fn test_metadata_through_anyhow() {
    let e = new_error(&chain(vec![link("anyhow", None), full_metadata_error()]));
    assert_eq!(e.get_tier(), Some(Tier::Tier0));
    assert!(e.debug().contains("anyhow"));
}

#[test]
fn test_metadata_through_wrapper() {
    let e = new_error(&chain(vec![link("wrapper", None), full_metadata_error()]));
    assert_eq!(e.get_tier(), Some(Tier::Tier0));
    assert!(e.debug().contains("wrapper"));
}

fn tier_only(tier: Tier) -> ProvidableMetadata {
    ProvidableMetadata {
        category: Some(tier),
        tags: vec![],
        source_file: "app/buck2_error/src/any.rs".to_owned(),
        source_location_extra: None,
        typ: None,
        action_error: None,
    }
}

#[test]
fn test_context_in_wrapper() {
    let e = new_error(&chain(vec![
        link("wrapper2", Some(tier_only(Tier::Tier0))),
        full_metadata_error(),
    ]));
    assert_eq!(e.get_tier(), Some(Tier::Tier0));
    assert_eq!(e.get_error_type(), Some(ErrorType::Watchman));
    assert_eq!(e.source_location(), Some("buck2_error/src/any.rs::FullMetadataError"));
    assert!(e.debug().contains("wrapper2"));
}

#[test]
fn test_no_root_metadata_context() {
    let e = new_error(&chain(vec![
        link("unused", Some(tier_only(Tier::Tier0))),
        link("unused", Some(tier_only(Tier::Input))),
    ]));
    assert_eq!(e.get_tier(), Some(Tier::Tier0));
}

#[test]
fn only_the_first_answer_to_a_request_counts() {
    let mut request = Request { provided: None };
    let report = Arc::new(ActionError("failed".to_owned()));
    provide_metadata(
        &mut request,
        None,
        Some(ErrorType::ActionCommandFailure),
        vec![],
        "app/a.rs".to_owned(),
        None,
        Some(report),
    );
    provide_metadata(
        &mut request,
        Some(Tier::Input),
        None,
        vec![ErrorTag::ServerStackOverflow],
        "app/b.rs".to_owned(),
        None,
        None,
    );
    let m = request.provided.unwrap();
    assert_eq!(m.typ, Some(ErrorType::ActionCommandFailure));
    assert_eq!(m.category, None);
    assert_eq!(m.source_file, "app/a.rs");
    assert!(m.tags.is_empty());
}

#[test]
fn root_takes_the_last_value_in_the_chain() {
    let mut outer = full_metadata();
    outer.typ = Some(ErrorType::Other);
    outer.action_error = Some(Arc::new(ActionError("outer".to_owned())));
    let e = new_error(&chain(vec![link("outer", Some(outer)), full_metadata_error()]));
    assert_eq!(e.get_error_type(), Some(ErrorType::Watchman));
    assert_eq!(e.root().action_error.as_ref().unwrap().0, "outer");
    assert_eq!(e.root().description, "FullMetadataError");
}

#[test]
fn location_is_the_part_below_app() {
    let extra = Some("T".to_owned());
    assert_eq!(
        source_location_from_file("app/x/src/lib.rs", &None),
        Some("x/src/lib.rs".to_owned())
    );
    assert_eq!(
        source_location_from_file("fbcode/buck2/app/x/src/lib.rs", &extra),
        Some("x/src/lib.rs::T".to_owned())
    );
    assert_eq!(source_location_from_file("x/src/lib.rs", &extra), None);
}

#[test]
fn metadata_adds_category_and_then_tags() {
    let e = maybe_add_context_from_metadata(test_error(), &full_metadata_error());
    match &*e.0 {
        ErrorKind::WithContext(ContextValue::Tags(tags), inner) => {
            assert_eq!(tags.len(), 3);
            assert!(matches!(
                &*inner.0,
                ErrorKind::WithContext(ContextValue::Tier(Tier::Tier0), _)
            ));
        }
        _ => panic!("tags come last"),
    }
    let same = maybe_add_context_from_metadata(test_error(), &link("x", None));
    check_equal(&same, &test_error());
}

#[test]
fn messages_leave_out_what_is_not_shown() {
    let e = test_error()
        .context(ContextValue::Tier(Tier::Input))
        .context_message("while testing")
        .tag(vec![ErrorTag::ServerStackOverflow])
        .mark_emitted("seen".to_owned());
    assert_eq!(e.messages(), vec!["while testing".to_owned(), "TestError".to_owned()]);
    assert_eq!(e.debug(), "while testing\n\nCaused by:\n    TestError");
    assert_eq!(e.get_tier(), Some(Tier::Input));
    assert_eq!(e.tags(), vec![ErrorTag::ServerStackOverflow]);
    assert_eq!(e.source_location(), None);
}

#[test]
fn an_infrastructure_error_anywhere_makes_the_whole_one() {
    let e = test_error()
        .context(ContextValue::Tier(Tier::Tier0))
        .context(ContextValue::Tier(Tier::Input));
    assert_eq!(e.get_tier(), Some(Tier::Tier0));
    assert_eq!(test_error().get_tier(), None);
}

#[test]
fn ok_is_the_good_case() {
    assert_eq!(ok(3).unwrap(), 3);
}

#[test]
fn what_stands_below_a_root_gives_no_context() {
    let outer = ProvidableMetadata {
        category: None,
        tags: vec![ErrorTag::WatchmanTimeout],
        source_file: "app/buck2_error/src/any.rs".to_owned(),
        source_location_extra: Some("E".to_owned()),
        typ: Some(ErrorType::Watchman),
        action_error: None,
    };
    let mut inner = tier_only(Tier::Tier0);
    inner.tags = vec![ErrorTag::StarlarkFail];
    let e = new_error(&chain(vec![link("outer", Some(outer)), link("inner", Some(inner))]));
    assert_eq!(&e.tags(), &[ErrorTag::WatchmanTimeout]);
    assert_eq!(e.get_tier(), None);
    assert_eq!(e.get_error_type(), Some(ErrorType::Watchman));
    assert!(e.debug().contains("outer") && e.debug().contains("inner"));
}
