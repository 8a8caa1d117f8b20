//! Every error variant, each from an input that provokes exactly it.

use u_num_iter::domain::{build_domain, DomainDescriptor};
use u_num_iter::errors::Error;
use u_num_iter::table::build_table;
use u_num_iter::tag::{Arm, ArmKey, Tag};
use u_num_iter::u_num_it;

fn ident_arm(name: &str, body: &str) -> Arm {
    Arm { key: ArmKey::Ident(name.to_string()), body: body.to_string() }
}

fn lit_arm(text: &str, body: &str) -> Arm {
    Arm { key: ArmKey::Number(text.to_string()), body: body.to_string() }
}

fn wild_arm(body: &str) -> Arm {
    Arm { key: ArmKey::Wild, body: body.to_string() }
}

#[test]
fn malformed_bound_test() {
    let desc = DomainDescriptor::Range {
        start: Some("1x".to_string()),
        end: Some("5".to_string()),
        inclusive: false,
    };
    match build_domain(&desc) {
        Err(Error::MalformedBound(t)) => assert_eq!(t, "1x"),
        other => panic!("expected a malformed-bound error, got {:?}", other),
    }
}

#[test]
fn malformed_bound_overflow_test() {
    // Parseable shape, but the value does not fit the domain type.
    let desc = DomainDescriptor::Range {
        start: Some("0".to_string()),
        end: Some("99999999999999999999".to_string()),
        inclusive: false,
    };
    match build_domain(&desc) {
        Err(Error::MalformedBound(t)) => assert_eq!(t, "99999999999999999999"),
        other => panic!("expected a malformed-bound error, got {:?}", other),
    }
}

#[test]
fn malformed_list_element_test() {
    // Non-decimal prefixes are rejected.
    let desc = DomainDescriptor::List(vec!["1".to_string(), "0x10".to_string()]);
    match build_domain(&desc) {
        Err(Error::MalformedLiteral(t)) => assert_eq!(t, "0x10"),
        other => panic!("expected a malformed-literal error, got {:?}", other),
    }
}

#[test]
fn malformed_literal_key_test() {
    let arms = vec![lit_arm("0b101", "body")];
    match build_table(&arms) {
        Err(Error::MalformedLiteral(t)) => assert_eq!(t, "0b101"),
        other => panic!("expected a malformed-literal error, got {:?}", other),
    }
}

#[test]
fn unrecognized_key_test() {
    let arms = vec![ident_arm("Q", "body")];
    match build_table(&arms) {
        Err(Error::UnrecognizedKey(t)) => assert_eq!(t, "Q"),
        other => panic!("expected an unrecognized-key error, got {:?}", other),
    }
}

#[test]
fn duplicate_arm_test() {
    let arms = vec![ident_arm("N", "first"), ident_arm("N", "second")];
    match build_table(&arms) {
        Err(Error::DuplicateArm(tag)) => assert_eq!(tag, Tag::Negative),
        other => panic!("expected a duplicate-arm error, got {:?}", other),
    }
}

#[test]
fn duplicate_literal_arm_test() {
    // Distinct spellings of one value are still one tag.
    let arms = vec![lit_arm("1_0", "first"), lit_arm("10", "second")];
    match build_table(&arms) {
        Err(Error::DuplicateArm(tag)) => assert_eq!(tag, Tag::Literal(10)),
        other => panic!("expected a duplicate-arm error, got {:?}", other),
    }
}

#[test]
fn ambiguous_positive_families_test() {
    let arms = vec![ident_arm("P", "signed"), ident_arm("U", "unsigned")];
    match build_table(&arms) {
        Err(Error::AmbiguousArmSet(a, b)) => {
            assert_eq!(a, Tag::PositiveSigned);
            assert_eq!(b, Tag::PositiveUnsigned);
        },
        other => panic!("expected an ambiguous-arm-set error, got {:?}", other),
    }
}

#[test]
fn ambiguous_zero_test() {
    let arms = vec![lit_arm("0", "literal zero"), ident_arm("False", "class zero")];
    match build_table(&arms) {
        Err(Error::AmbiguousArmSet(a, b)) => {
            assert_eq!(a, Tag::Literal(0));
            assert_eq!(b, Tag::Zero);
        },
        other => panic!("expected an ambiguous-arm-set error, got {:?}", other),
    }
}

#[test]
fn negative_zero_literal_test() {
    // `-0` denotes the value zero, so it clashes with the zero class.
    let arms = vec![lit_arm("-0", "literal zero"), ident_arm("False", "class zero")];
    match build_table(&arms) {
        Err(Error::AmbiguousArmSet(a, b)) => {
            assert_eq!(a, Tag::Literal(0));
            assert_eq!(b, Tag::Zero);
        },
        other => panic!("expected an ambiguous-arm-set error, got {:?}", other),
    }
}

#[test]
fn duplicate_wildcard_test() {
    let arms = vec![wild_arm("first"), wild_arm("second")];
    match build_table(&arms) {
        Err(Error::DuplicateArm(tag)) => assert_eq!(tag, Tag::Wildcard),
        other => panic!("expected a duplicate-arm error, got {:?}", other),
    }
}

#[test]
fn pipeline_malformed_bound_test() {
    // A bad bound fails the whole invocation.
    let desc = DomainDescriptor::Range {
        start: Some("a".to_string()),
        end: Some("5".to_string()),
        inclusive: false,
    };
    let arms = vec![ident_arm("P", "pos")];
    match u_num_it(&desc, &arms, &"x".to_string()) {
        Err(Error::MalformedBound(t)) => assert_eq!(t, "a"),
        other => panic!("expected a malformed-bound error, got {:?}", other),
    }
}

#[test]
fn validation_stops_pipeline_test() {
    // An ambiguous template fails the whole invocation before any synthesis.
    let desc = DomainDescriptor::Range {
        start: Some("1".to_string()),
        end: Some("3".to_string()),
        inclusive: true,
    };
    let arms = vec![ident_arm("P", "signed"), ident_arm("U", "unsigned")];
    let r = u_num_it(&desc, &arms, &"x".to_string());
    assert!(matches!(r, Err(Error::AmbiguousArmSet(_, _))));
}
