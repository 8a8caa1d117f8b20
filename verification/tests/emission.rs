//! The emitted syntax itself: exact text, domain resolution edges,
//! omission of uncovered values, the fallback, and idempotence.

use u_num_iter::domain::{build_domain, DomainDescriptor};
use u_num_iter::synth::{select_branch, synthesize_branches, synthesize_fallback, Fallback};
use u_num_iter::table::build_table;
use u_num_iter::tag::{Arm, ArmKey, Tag};
use u_num_iter::u_num_it;

fn ident_arm(name: &str, body: &str) -> Arm {
    Arm { key: ArmKey::Ident(name.to_string()), body: body.to_string() }
}

fn lit_arm(text: &str, body: &str) -> Arm {
    Arm { key: ArmKey::Number(text.to_string()), body: body.to_string() }
}

fn wild_arm(body: &str) -> Arm {
    Arm { key: ArmKey::Wild, body: body.to_string() }
}

#[test]
fn exact_emission_test() {
    let desc = DomainDescriptor::Range {
        start: Some("-1".to_string()),
        end: Some("2".to_string()),
        inclusive: false,
    };
    let arms = vec![ident_arm("N", "a"), ident_arm("False", "b"), ident_arm("P", "c")];
    let out = u_num_it(&desc, &arms, &"x".to_string()).unwrap();
    assert_eq!(
        out,
        "match x { \
         -1 => { type NumType = typenum::consts::N1; a }, \
         0 => { type NumType = typenum::consts::False; b }, \
         1 => { type NumType = typenum::consts::P1; c }, \
         i => unreachable!(\"{i} not in range {}..={}\", -1, 1), }"
    );
}

#[test]
fn exact_emission_wildcard_test() {
    let desc = DomainDescriptor::List(vec!["7".to_string()]);
    let arms = vec![ident_arm("U", "go"), wild_arm("stop")];
    let out = u_num_it(&desc, &arms, &"n + 1".to_string()).unwrap();
    assert_eq!(
        out,
        "match n + 1 { 7 => { type NumType = typenum::consts::U7; go }, _ => { stop }, }"
    );
}

#[test]
fn idempotent_pipeline_test() {
    // Re-running on identical input syntax yields byte-identical output.
    let desc = DomainDescriptor::Range {
        start: Some("-3".to_string()),
        end: Some("3".to_string()),
        inclusive: true,
    };
    let arms = vec![
        lit_arm("2", "two"),
        ident_arm("N", "neg"),
        ident_arm("P", "pos"),
        ident_arm("False", "zero"),
        wild_arm("other"),
    ];
    let scrutinee = "value".to_string();
    let first = u_num_it(&desc, &arms, &scrutinee).unwrap();
    let second = u_num_it(&desc, &arms, &scrutinee).unwrap();
    assert_eq!(first, second);
}

#[test]
fn default_lower_bound_test() {
    // An omitted lower bound defaults to zero.
    let desc = DomainDescriptor::Range { start: None, end: Some("3".to_string()), inclusive: false };
    let dom = build_domain(&desc).unwrap();
    assert_eq!(dom, vec![0, 1, 2]);
}

#[test]
fn empty_domain_test() {
    // A collapsed interval yields an empty domain and a zero-bounds report.
    let desc = DomainDescriptor::Range {
        start: Some("5".to_string()),
        end: Some("5".to_string()),
        inclusive: false,
    };
    let dom = build_domain(&desc).unwrap();
    assert!(dom.is_empty());
    let arms = vec![ident_arm("P", "pos")];
    let table = build_table(&arms).unwrap();
    let fallback = synthesize_fallback(&dom, &table);
    assert!(matches!(fallback, Fallback::Report { lo: 0, hi: 0 }));
}

#[test]
fn uncovered_class_omitted_test() {
    // A value whose class has no arm is silently left out.
    let desc = DomainDescriptor::Range {
        start: Some("-2".to_string()),
        end: Some("2".to_string()),
        inclusive: true,
    };
    let arms = vec![ident_arm("N", "neg")];
    let dom = build_domain(&desc).unwrap();
    let table = build_table(&arms).unwrap();
    let branches = synthesize_branches(&dom, &table);
    assert_eq!(branches.len(), 2);
    assert_eq!(branches[0].value, -2);
    assert_eq!(branches[1].value, -1);
    assert!(select_branch(&branches, 0).is_none());
    assert!(select_branch(&branches, 1).is_none());
}

#[test]
fn mixed_range_classes_test() {
    // Domain -5..5 with the three classes: spot checks per sign.
    let desc = DomainDescriptor::Range {
        start: Some("-5".to_string()),
        end: Some("5".to_string()),
        inclusive: false,
    };
    let arms = vec![ident_arm("N", "neg"), ident_arm("P", "pos"), ident_arm("False", "zero")];
    let dom = build_domain(&desc).unwrap();
    let table = build_table(&arms).unwrap();
    let branches = synthesize_branches(&dom, &table);
    let idx = select_branch(&branches, -3).unwrap();
    assert_eq!(branches[idx].tag, Tag::Negative);
    assert_eq!(branches[idx].magnitude, 3);
    let idx = select_branch(&branches, 0).unwrap();
    assert_eq!(branches[idx].tag, Tag::Zero);
    assert_eq!(branches[idx].type_ident, "False");
    let idx = select_branch(&branches, 3).unwrap();
    assert_eq!(branches[idx].tag, Tag::PositiveSigned);
    assert_eq!(branches[idx].magnitude, 3);
}

#[test]
fn literal_beats_class_in_range_test() {
    // Domain -10..=10 with a literal for 5 and the signed-positive class:
    // the scrutinee 5 selects the literal arm, not the class arm.
    let desc = DomainDescriptor::Range {
        start: Some("-10".to_string()),
        end: Some("10".to_string()),
        inclusive: true,
    };
    let arms = vec![lit_arm("5", "literal five"), ident_arm("P", "class positive")];
    let dom = build_domain(&desc).unwrap();
    let table = build_table(&arms).unwrap();
    let branches = synthesize_branches(&dom, &table);
    let idx = select_branch(&branches, 5).unwrap();
    assert_eq!(branches[idx].tag, Tag::Literal(5));
    assert_eq!(branches[idx].body, "literal five");
    // Every other positive value still falls to the class arm.
    let idx = select_branch(&branches, 6).unwrap();
    assert_eq!(branches[idx].tag, Tag::PositiveSigned);
    assert_eq!(branches[idx].body, "class positive");
}

#[test]
fn out_of_domain_fallback_test() {
    // Domain 1..=10 with no wildcard: a scrutinee outside the domain matches
    // no specialized branch and falls to the synthesized report.
    let desc = DomainDescriptor::Range {
        start: Some("1".to_string()),
        end: Some("10".to_string()),
        inclusive: true,
    };
    let arms = vec![ident_arm("U", "go")];
    let dom = build_domain(&desc).unwrap();
    let table = build_table(&arms).unwrap();
    let branches = synthesize_branches(&dom, &table);
    assert!(select_branch(&branches, 11).is_none());
    let fallback = synthesize_fallback(&dom, &table);
    assert!(matches!(fallback, Fallback::Report { lo: 1, hi: 10 }));
}

#[test]
fn underscore_list_element_test() {
    // Underscores in list elements are filler.
    let desc = DomainDescriptor::List(vec!["2_000".to_string(), "1_000".to_string()]);
    let dom = build_domain(&desc).unwrap();
    assert_eq!(dom, vec![1000, 2000]);
}

#[test]
fn empty_list_test() {
    // An empty list yields an empty domain and a zero-bounds report.
    let desc = DomainDescriptor::List(vec![]);
    let dom = build_domain(&desc).unwrap();
    assert!(dom.is_empty());
    let table = build_table(&vec![ident_arm("P", "pos")]).unwrap();
    let fallback = synthesize_fallback(&dom, &table);
    assert!(matches!(fallback, Fallback::Report { lo: 0, hi: 0 }));
}

#[test]
fn spaced_tokens_test() {
    // Spaces inside bound and literal text are tolerated, as is a leading
    // plus sign.
    let desc = DomainDescriptor::Range {
        start: Some("- 2".to_string()),
        end: Some("+ 2".to_string()),
        inclusive: true,
    };
    let dom = build_domain(&desc).unwrap();
    assert_eq!(dom, vec![-2, -1, 0, 1, 2]);
}
