//! The template-expansion scenarios: one per supported invocation shape.

use u_num_iter::domain::{build_domain, DomainDescriptor};
use u_num_iter::synth::{select_branch, synthesize_branches, synthesize_fallback, Fallback, ResolvedBranch};
use u_num_iter::table::{build_table, ArmTable};
use u_num_iter::tag::{Arm, ArmKey, Tag};

fn ident_arm(name: &str, body: &str) -> Arm {
    Arm { key: ArmKey::Ident(name.to_string()), body: body.to_string() }
}

fn lit_arm(text: &str, body: &str) -> Arm {
    Arm { key: ArmKey::Number(text.to_string()), body: body.to_string() }
}

fn wild_arm(body: &str) -> Arm {
    Arm { key: ArmKey::Wild, body: body.to_string() }
}

fn range_desc(start: &str, end: &str, inclusive: bool) -> DomainDescriptor {
    DomainDescriptor::Range {
        start: Some(start.to_string()),
        end: Some(end.to_string()),
        inclusive,
    }
}

fn list_desc(items: &[&str]) -> DomainDescriptor {
    DomainDescriptor::List(items.iter().map(|s| s.to_string()).collect())
}

fn expand(desc: &DomainDescriptor, arms: &Vec<Arm>) -> (Vec<ResolvedBranch>, Fallback) {
    let dom = build_domain(desc).unwrap();
    let table: ArmTable = build_table(arms).unwrap();
    let branches = synthesize_branches(&dom, &table);
    let fallback = synthesize_fallback(&dom, &table);
    (branches, fallback)
}

#[test]
fn macro_test() {
    let desc = range_desc("1", "10", true);
    let arms = vec![ident_arm("U", "field")];
    let (branches, _) = expand(&desc, &arms);
    for i in 1..=10i64 {
        let idx = select_branch(&branches, i).unwrap();
        assert_eq!(branches[idx].magnitude, i as u64);
    }
}

#[test]
fn u_macro_test() {
    let desc = range_desc("1", "10", true);
    let arms = vec![ident_arm("U", "inner")];
    let (branches, _) = expand(&desc, &arms);
    for i in 1..=10i64 {
        let idx = select_branch(&branches, i).unwrap();
        assert_eq!(branches[idx].tag, Tag::PositiveUnsigned);
        assert_eq!(branches[idx].magnitude, i as u64);
        assert_eq!(branches[idx].type_ident, format!("U{}", i));
    }
}

#[test]
fn i_macro_test() {
    let desc = range_desc("-5", "5", false);
    let arms = vec![ident_arm("N", "neg"), ident_arm("P", "pos"), ident_arm("False", "zero")];
    let (branches, _) = expand(&desc, &arms);
    for i in -5..5i64 {
        let idx = select_branch(&branches, i).unwrap();
        assert_eq!(branches[idx].value, i);
        if i < 0 {
            assert_eq!(branches[idx].tag, Tag::Negative);
            assert_eq!(branches[idx].magnitude, (-i) as u64);
        } else if i > 0 {
            assert_eq!(branches[idx].tag, Tag::PositiveSigned);
            assert_eq!(branches[idx].magnitude, i as u64);
        } else {
            assert_eq!(branches[idx].tag, Tag::Zero);
            assert_eq!(branches[idx].magnitude, 0);
        }
    }
}

#[test]
fn i_macro_test_round() {
    let desc = range_desc("-5", "5", false);
    let arms = vec![
        ident_arm("N", "neg"),
        ident_arm("P", "pos"),
        ident_arm("False", "zero"),
        wild_arm("unreached"),
    ];
    let (branches, fallback) = expand(&desc, &arms);
    for i in -5..5i64 {
        let idx = select_branch(&branches, i).unwrap();
        assert_eq!(branches[idx].value, i);
        if i < 0 {
            assert_eq!(branches[idx].tag, Tag::Negative);
            assert_eq!(branches[idx].magnitude, (-i) as u64);
        } else if i > 0 {
            assert_eq!(branches[idx].tag, Tag::PositiveSigned);
            assert_eq!(branches[idx].magnitude, i as u64);
        } else {
            assert_eq!(branches[idx].tag, Tag::Zero);
            assert_eq!(branches[idx].magnitude, 0);
        }
    }
    // Every domain value is covered, so the wildcard is never selected.
    assert!(matches!(fallback, Fallback::Custom(ref b) if b == "unreached"));
}

#[test]
fn literal_match_test() {
    // Positive literal wins over the positive class.
    let desc = range_desc("-10", "10", true);
    let arms = vec![
        lit_arm("5", "matched positive 5"),
        ident_arm("N", "negative"),
        ident_arm("P", "other positive"),
        ident_arm("False", "zero"),
        wild_arm("fallback"),
    ];
    let (branches, _) = expand(&desc, &arms);
    let idx = select_branch(&branches, 5).unwrap();
    assert_eq!(branches[idx].body, "matched positive 5");

    // Negative literal wins over the negative class.
    let arms = vec![
        lit_arm("-3", "matched negative 3"),
        ident_arm("N", "other negative"),
        ident_arm("P", "positive"),
        ident_arm("False", "zero"),
        wild_arm("fallback"),
    ];
    let (branches, _) = expand(&desc, &arms);
    let idx = select_branch(&branches, -3).unwrap();
    assert_eq!(branches[idx].body, "matched negative 3");

    // Zero literal wins.
    let arms = vec![
        lit_arm("0", "matched zero"),
        ident_arm("N", "negative"),
        ident_arm("P", "positive"),
        wild_arm("fallback"),
    ];
    let (branches, _) = expand(&desc, &arms);
    let idx = select_branch(&branches, 0).unwrap();
    assert_eq!(branches[idx].body, "matched zero");
}

#[test]
fn num_type_test() {
    // The resolved type identifier is bound for every class.
    let desc = range_desc("-5", "5", false);
    let arms = vec![ident_arm("N", "neg"), ident_arm("P", "pos"), ident_arm("False", "zero")];
    let (branches, _) = expand(&desc, &arms);
    for i in -5..5i64 {
        let idx = select_branch(&branches, i).unwrap();
        assert_eq!(branches[idx].value, i);
        if i < 0 {
            assert_eq!(branches[idx].type_ident, format!("N{}", -i));
        } else if i > 0 {
            assert_eq!(branches[idx].type_ident, format!("P{}", i));
        } else {
            assert_eq!(branches[idx].type_ident, "False");
        }
    }

    // A literal branch binds the identifier of its value's sign class.
    let desc = range_desc("-10", "10", true);
    let arms = vec![
        lit_arm("5", "matched literal with NumType"),
        ident_arm("N", "negative"),
        ident_arm("P", "other positive"),
        ident_arm("False", "zero"),
        wild_arm("fallback"),
    ];
    let (branches, _) = expand(&desc, &arms);
    let idx = select_branch(&branches, 5).unwrap();
    assert_eq!(branches[idx].type_ident, "P5");
    assert_eq!(branches[idx].magnitude, 5);
    assert_eq!(branches[idx].body, "matched literal with NumType");
}

#[test]
fn underscore_literal_test() {
    // Positive underscore literal.
    let desc = range_desc("999", "1001", true);
    let arms = vec![
        lit_arm("1_000", "matched 1000"),
        ident_arm("P", "other positive"),
        wild_arm("fallback"),
    ];
    let (branches, _) = expand(&desc, &arms);
    let idx = select_branch(&branches, 1000).unwrap();
    assert_eq!(branches[idx].body, "matched 1000");
    assert_eq!(branches[idx].magnitude, 1000);

    // Negative underscore literal.
    let desc = range_desc("-1001", "-999", true);
    let arms = vec![
        lit_arm("-1_000", "matched -1000"),
        ident_arm("N", "other negative"),
        wild_arm("fallback"),
    ];
    let (branches, _) = expand(&desc, &arms);
    let idx = select_branch(&branches, -1000).unwrap();
    assert_eq!(branches[idx].body, "matched -1000");
    assert_eq!(branches[idx].magnitude, 1000);
}

#[test]
fn array_dedup_test() {
    // Duplicates in the list collapse; literal precedence still applies.
    let desc = list_desc(&["1", "1", "2"]);
    let dom = build_domain(&desc).unwrap();
    assert_eq!(dom, vec![1, 2]);

    let arms = vec![lit_arm("1", "one"), ident_arm("P", "positive"), wild_arm("fallback")];
    let (branches, _) = expand(&desc, &arms);
    assert_eq!(branches.len(), 2);
    let idx = select_branch(&branches, 1).unwrap();
    assert_eq!(branches[idx].body, "one");
    assert_eq!(branches[idx].magnitude, 1);

    // The second distinct value falls to the general positive arm.
    let arms = vec![lit_arm("1", "one"), ident_arm("P", "two"), wild_arm("fallback")];
    let (branches, _) = expand(&desc, &arms);
    let idx = select_branch(&branches, 2).unwrap();
    assert_eq!(branches[idx].body, "two");
    assert_eq!(branches[idx].magnitude, 2);
}

#[test]
fn array_syntax_test() {
    // Arbitrary positive values.
    let desc = list_desc(&["1", "2", "8", "22"]);
    let arms = vec![ident_arm("P", "matched 8"), wild_arm("fallback")];
    let (branches, _) = expand(&desc, &arms);
    let idx = select_branch(&branches, 8).unwrap();
    assert_eq!(branches[idx].body, "matched 8");
    assert_eq!(branches[idx].magnitude, 8);

    // Negative values in a list.
    let desc = list_desc(&["-5", "-2", "3", "10"]);
    let arms = vec![ident_arm("N", "matched -2"), ident_arm("P", "positive"), wild_arm("fallback")];
    let (branches, _) = expand(&desc, &arms);
    let idx = select_branch(&branches, -2).unwrap();
    assert_eq!(branches[idx].body, "matched -2");
    assert_eq!(branches[idx].value, -2);
    assert_eq!(branches[idx].magnitude, 2);

    // A literal entry for a listed value.
    let desc = list_desc(&["1", "2", "8", "22"]);
    let arms = vec![
        lit_arm("22", "matched literal 22"),
        ident_arm("P", "other positive"),
        wild_arm("fallback"),
    ];
    let (branches, _) = expand(&desc, &arms);
    let idx = select_branch(&branches, 22).unwrap();
    assert_eq!(branches[idx].body, "matched literal 22");
    assert_eq!(branches[idx].type_ident, "P22");
}
