//! Tests for the aggregate sum type and its exhaustive consumption.

use std::cell::Cell;
use std::rc::Rc;

use errorium::aggregate::{self, AggregateDescriptor, MainError};
use errorium::erased::{construct, ErasedError, TagError};
use errorium::family::Registry;
use errorium::spec_model::{ConfigurationError, Specification, TagSpec, Visibility};

fn tag_spec(name: &str) -> TagSpec {
    TagSpec { name: name.to_string(), visibility: Visibility::Public }
}

fn main_error_setup() -> (Registry, AggregateDescriptor) {
    let spec =
        Specification::new(vec![tag_spec("ExpectedErr"), tag_spec("UnexpectedErr")]).unwrap();
    let reg = Registry::generate(spec);
    let agg = aggregate::generate(Visibility::Public, "MainError".to_string(), &reg);
    (reg, agg)
}

#[test]
fn empty_specification_is_rejected() {
    let err = Specification::new(Vec::new()).unwrap_err();
    assert_eq!(err, ConfigurationError::EmptyTagList);
    assert_eq!(err.message(), "It should be at least one error type ident");
}

#[test]
fn derived_parameter_names() {
    let (_, agg) = main_error_setup();
    assert_eq!(agg.name, "MainError");
    assert_eq!(
        agg.params,
        vec!["expected_err_handler".to_string(), "unexpected_err_handler".to_string()]
    );
}

#[test]
fn scenario_unexpected_err_consumed() {
    // Specification `MainError, [ExpectedErr, UnexpectedErr]`; an
    // `UnexpectedErr` built from a formatting failure, lifted into the
    // aggregate and consumed: the recording handler runs exactly once with
    // the original error, the failing handler never runs.
    let (_, agg) = main_error_setup();
    let te = construct(1, ErasedError::Plain("formatting failure".to_string()));
    let lifted = MainError::from(te);

    let fail_count = Rc::new(Cell::new(0u32));
    let record_count = Rc::new(Cell::new(0u32));
    let f = fail_count.clone();
    let r = record_count.clone();
    let fail_test: Box<dyn FnOnce(ErasedError)> = Box::new(move |_e| {
        f.set(f.get() + 1);
    });
    let record_called: Box<dyn FnOnce(ErasedError)> = Box::new(move |e| {
        assert_eq!(e.message(), "formatting failure");
        r.set(r.get() + 1);
    });
    let handlers = vec![
        ("expected_err_handler".to_string(), fail_test),
        ("unexpected_err_handler".to_string(), record_called),
    ];
    assert!(aggregate::handlers_match(&agg, &handlers));
    lifted.consume(&agg, handlers);
    assert_eq!(record_count.get(), 1);
    assert_eq!(fail_count.get(), 0);
}

#[test]
fn consume_binds_handlers_by_name_in_any_order() {
    let (_, agg) = main_error_setup();
    let te = construct(0, ErasedError::Plain("expected failure".to_string()));
    let lifted = MainError::from(te);
    fn expected(e: ErasedError) -> String {
        format!("expected: {}", e.message())
    }
    fn unexpected(e: ErasedError) -> String {
        format!("unexpected: {}", e.message())
    }
    // Handlers supplied in the reverse of declaration order.
    let handlers: Vec<(String, fn(ErasedError) -> String)> = vec![
        ("unexpected_err_handler".to_string(), unexpected),
        ("expected_err_handler".to_string(), expected),
    ];
    assert!(aggregate::handlers_match(&agg, &handlers));
    let out = lifted.consume(&agg, handlers);
    assert_eq!(out, "expected: expected failure");
}

#[test]
fn consume_passes_unwrapped_error_not_wrapper() {
    let (_, agg) = main_error_setup();
    let underlying = ErasedError::Plain("root".to_string());
    let lifted: MainError = construct(1, underlying).into();
    fn arm_err(e: ErasedError) -> bool {
        // The handler receives the original erased error, not the wrapper.
        matches!(e, ErasedError::Plain(_))
    }
    let handlers: Vec<(String, fn(ErasedError) -> bool)> = vec![
        ("expected_err_handler".to_string(), arm_err),
        ("unexpected_err_handler".to_string(), arm_err),
    ];
    assert!(lifted.consume(&agg, handlers));
}

#[test]
fn handler_set_shape_is_validated() {
    let (_, agg) = main_error_setup();
    fn noop(_e: ErasedError) {}
    let missing: Vec<(String, fn(ErasedError))> =
        vec![("expected_err_handler".to_string(), noop)];
    assert!(!aggregate::handlers_match(&agg, &missing));

    let misnamed: Vec<(String, fn(ErasedError))> = vec![
        ("expected_err_handler".to_string(), noop),
        ("other_handler".to_string(), noop),
    ];
    assert!(!aggregate::handlers_match(&agg, &misnamed));

    let duplicated: Vec<(String, fn(ErasedError))> = vec![
        ("expected_err_handler".to_string(), noop),
        ("expected_err_handler".to_string(), noop),
    ];
    assert!(!aggregate::handlers_match(&agg, &duplicated));

    let oversized: Vec<(String, fn(ErasedError))> = vec![
        ("expected_err_handler".to_string(), noop),
        ("unexpected_err_handler".to_string(), noop),
        ("expected_err_handler".to_string(), noop),
    ];
    assert!(!aggregate::handlers_match(&agg, &oversized));

    let exact: Vec<(String, fn(ErasedError))> = vec![
        ("expected_err_handler".to_string(), noop),
        ("unexpected_err_handler".to_string(), noop),
    ];
    assert!(aggregate::handlers_match(&agg, &exact));
}

#[test]
fn duplicate_tag_names_first_handler_wins() {
    // Duplicate tag identifiers are a latent hazard the model does not
    // reject: both arms derive the same parameter name, and consumption
    // binds the first handler carrying it.
    let spec = Specification::new(vec![tag_spec("Dup"), tag_spec("Dup")]).unwrap();
    let reg = Registry::generate(spec);
    let agg = aggregate::generate(Visibility::Inherited, "Master".to_string(), &reg);
    assert_eq!(agg.params, vec!["dup_handler".to_string(), "dup_handler".to_string()]);
    fn first(_e: ErasedError) -> u32 {
        1
    }
    fn second(_e: ErasedError) -> u32 {
        2
    }
    let handlers: Vec<(String, fn(ErasedError) -> u32)> =
        vec![("dup_handler".to_string(), first), ("dup_handler".to_string(), second)];
    assert!(aggregate::handlers_match(&agg, &handlers));
    let lifted: MainError = construct(1, ErasedError::Plain("x".to_string())).into();
    assert_eq!(lifted.consume(&agg, handlers), 1);
}

#[test]
fn lift_through_propagation() {
    fn unexpected_err() -> Result<(), TagError> {
        Err(construct(1, ErasedError::Plain("unexpected error".to_string())))
    }
    fn some_func() -> Result<(), MainError> {
        unexpected_err()?;
        Ok(())
    }
    let (_, agg) = main_error_setup();
    let lifted = some_func().unwrap_err();
    fn message_of(e: ErasedError) -> String {
        e.message().to_string()
    }
    let handlers: Vec<(String, fn(ErasedError) -> String)> = vec![
        ("expected_err_handler".to_string(), message_of),
        ("unexpected_err_handler".to_string(), message_of),
    ];
    assert_eq!(lifted.consume(&agg, handlers), "unexpected error");
}
