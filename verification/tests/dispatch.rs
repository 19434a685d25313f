//! Tests for tag construction, identification and dispatch.

use errorium::erased::{construct, ErasedError, TagError};
use errorium::family::Registry;
use errorium::spec_model::{Specification, TagSpec, Visibility};

fn tag_spec(name: &str, visibility: Visibility) -> TagSpec {
    TagSpec { name: name.to_string(), visibility }
}

fn family(names: &[&str]) -> Registry {
    let tags: Vec<TagSpec> = names.iter().map(|n| tag_spec(n, Visibility::Public)).collect();
    Registry::generate(Specification::new(tags).unwrap())
}

fn anyhow_err() -> ErasedError {
    ErasedError::Plain("anyhow error".to_string())
}

fn tag1_err(reg_tag: usize) -> Result<(), ErasedError> {
    Err(ErasedError::from(construct(reg_tag, anyhow_err())))
}

#[test]
fn basic_test() {
    let reg = family(&["Tag1"]);
    if let Err(e) = tag1_err(0) {
        let handled = reg.handle(0, e, |e: ErasedError| {
            println!("Tagged 1 error: {}", e.message());
        });
        assert!(handled.is_some());
    }
}

#[test]
fn error_conversion_test() {
    // Errors of any foreign shape reach the library in the erased form and
    // every one of them can be tagged.
    let reg = family(&["Tag"]);
    let sources = [
        ErasedError::Plain(String::new()),
        ErasedError::Plain("anyhow error".to_string()),
        ErasedError::Plain("thiserror MyError".to_string()),
    ];
    for source in sources {
        let expect = source.message().to_string();
        let tagged = ErasedError::from(construct(0, source));
        let got = reg.handle(0, tagged, |e: ErasedError| e.message().to_string());
        assert_eq!(got, Some(expect));
    }
}

#[test]
fn tag_propagation_test() {
    fn tagged_error() -> Result<(), ErasedError> {
        Err(construct(0, ErasedError::Plain("fmt error".to_string())).into())
    }
    fn fun1() -> Result<(), ErasedError> {
        tagged_error()
    }
    fn fun2() -> Result<(), ErasedError> {
        fun1()
    }

    let reg = family(&["Tag"]);
    let Err(res) = fun2() else {
        unreachable!();
    };

    // check the tag propagation
    let mut is_handled = false;
    reg.handle(0, res, |_| {
        is_handled = true;
    });
    assert!(is_handled);
}

#[test]
fn construct_always_matches_own_tag() {
    // Construction is total and the result always matches under the
    // constructing tag's own dispatch.
    let reg = family(&["A", "B", "C"]);
    for t in 0..3 {
        let te: TagError = construct(t, ErasedError::Plain("boom".to_string()));
        assert_eq!(te.tag, t);
        let erased = ErasedError::from(te);
        let got = reg.handle(t, erased, |e: ErasedError| e.message().to_string());
        assert_eq!(got, Some("boom".to_string()));
    }
}

#[test]
fn no_cross_tag_false_positive() {
    // A fresh family leaves every sibling chain empty: tag B does not
    // recognise an error constructed via tag A.
    let reg = family(&["A", "B"]);
    let erased = ErasedError::from(construct(0, anyhow_err()));
    let mut invoked = false;
    let r = reg.handle(1, erased, |_| {
        invoked = true;
    });
    assert!(r.is_none());
    assert!(!invoked);
}

#[test]
fn configured_chain_delegates() {
    // Once B's chain is configured to include A, delegation reaches A and
    // succeeds with the original unwrapped error.
    let mut reg = family(&["A", "B"]);
    assert!(reg.configure_chain(1, vec![0]));
    let erased = ErasedError::from(construct(0, anyhow_err()));
    let got = reg.handle(1, erased, |e: ErasedError| e.message().to_string());
    assert_eq!(got, Some("anyhow error".to_string()));
}

#[test]
fn chain_traversal_order_is_declared_order() {
    // C configured with chain [A, B] attempts C first, then A, then B.
    let mut reg = family(&["A", "B", "C"]);
    assert!(reg.configure_chain(2, vec![0, 1]));
    assert_eq!(reg.attempted_chain(2), vec![2, 0, 1]);
    // An error tagged B is recognised by C's dispatch only by reaching B
    // after C and A fail.
    let erased = ErasedError::from(construct(1, anyhow_err()));
    let got = reg.handle(2, erased, |e: ErasedError| e.message().to_string());
    assert_eq!(got, Some("anyhow error".to_string()));
}

#[test]
fn attempted_chain_skips_revisits() {
    // Delegation is recursive but attempts every tag at most once, even
    // through a cyclic configuration.
    let mut reg = family(&["A", "B", "C"]);
    assert!(reg.configure_chain(0, vec![1]));
    assert!(reg.configure_chain(1, vec![0, 2]));
    assert_eq!(reg.attempted_chain(0), vec![0, 1, 2]);
    assert_eq!(reg.attempted_chain(1), vec![1, 0, 2]);
    assert_eq!(reg.attempted_chain(2), vec![2]);
}

#[test]
fn open_family_recognises_every_tag() {
    // The explicit open-family policy: every tag delegates to all others,
    // in declaration order, so any tag's dispatch recognises any tag's
    // errors.
    let mut reg = family(&["A", "B", "C"]);
    reg.configure_open_family();
    assert_eq!(reg.attempted_chain(0), vec![0, 1, 2]);
    assert_eq!(reg.attempted_chain(1), vec![1, 0, 2]);
    assert_eq!(reg.attempted_chain(2), vec![2, 0, 1]);
    for constructed in 0..3 {
        for dispatched in 0..3 {
            let erased = ErasedError::from(construct(constructed, anyhow_err()));
            let got = reg.handle(dispatched, erased, |e: ErasedError| e.message().to_string());
            assert_eq!(got, Some("anyhow error".to_string()));
        }
    }
}

#[test]
fn miss_is_silent() {
    // A plain, never-tagged error is not recognised: no handler runs and
    // nothing else observable happens.
    let reg = family(&["A", "B"]);
    let mut invoked = false;
    let r = reg.handle(0, anyhow_err(), |_| {
        invoked = true;
    });
    assert!(r.is_none());
    assert!(!invoked);

    // Identification agrees.
    let plain = anyhow_err();
    assert!(reg.identify(0, &plain).is_none());
}

#[test]
fn identify_unwraps_one_layer() {
    let reg = family(&["A"]);
    let erased = ErasedError::from(construct(0, anyhow_err()));
    let inner = reg.identify(0, &erased).expect("own tag must match");
    assert_eq!(inner.message(), "anyhow error");
}

#[test]
fn configure_chain_rejects_out_of_range() {
    let mut reg = family(&["A", "B"]);
    assert!(!reg.configure_chain(5, vec![0]));
    assert!(!reg.configure_chain(0, vec![2]));
    // Nothing changed: the default chains still apply.
    assert_eq!(reg.attempted_chain(0), vec![0]);
    assert_eq!(reg.attempted_chain(1), vec![1]);
}

#[test]
fn message_reaches_through_wrappers() {
    let te = construct(0, ErasedError::Plain("root cause".to_string()));
    let once = ErasedError::from(te);
    let twice = ErasedError::from(construct(1, once));
    assert_eq!(twice.message(), "root cause");
}
