//! The engine's general guarantees, stated once over the pipeline's
//! mathematical model and proved for every input.

use vstd::prelude::*;
use crate::tag::{Tag, ArmModel};
use crate::table::{TableModel, table_build, table_spec};
use crate::synth::{branch_for, branches_spec, BranchModel, type_ident_spec, mag};
use crate::domain::{
    DescriptorModel, domain_spec, range_seq, range_lo_spec, range_hi_spec, strictly_increasing,
    sorted_dedup, parse_list_spec, lemma_sorted_dedup_props,
};
use crate::errors::ErrorModel;
use crate::pipeline_spec;

verus! {

/// A domain built from a range ascends strictly; its length agrees with the
/// resolved bounds and the inclusivity flag, and its elements count up from
/// the lower bound.
pub proof fn lemma_range_domain(
    start: Option<Seq<char>>,
    end: Option<Seq<char>>,
    inclusive: bool,
    dom: Seq<i64>,
)
    requires
        domain_spec(DescriptorModel::Range { start, end, inclusive }) == Ok::<Seq<i64>, ErrorModel>(
            dom,
        ),
    ensures
        range_lo_spec(start) is Some,
        range_hi_spec(end) is Some,
        ({
            let lo = range_lo_spec(start).unwrap();
            let hi = range_hi_spec(end).unwrap();
            &&& dom.len() == if lo <= hi {
                if inclusive {
                    hi - lo + 1
                } else {
                    hi - lo
                }
            } else {
                0
            }
            &&& forall|k: int| 0 <= k < dom.len() ==> dom[k] == lo + k
            &&& strictly_increasing(dom)
        }),
{
    let lo = range_lo_spec(start).unwrap();
    let hi = range_hi_spec(end).unwrap();
    assert(i64::MIN <= lo <= i64::MAX);
    assert(i64::MIN <= hi <= i64::MAX);
    assert(dom == range_seq(
        lo,
        if lo <= hi {
            if inclusive {
                (hi - lo + 1) as nat
            } else {
                (hi - lo) as nat
            }
        } else {
            0nat
        },
    ));
    assert forall|k: int| 0 <= k < dom.len() implies dom[k] == lo + k by {
        assert(lo + k <= hi);
    }
}

/// A domain built from a list is the sorted, duplicate-free image of the
/// parsed elements: strictly increasing, with exactly their values.
pub proof fn lemma_list_domain(items: Seq<Seq<char>>, vals: Seq<i64>, dom: Seq<i64>)
    requires
        parse_list_spec(items) == Ok::<Seq<i64>, ErrorModel>(vals),
        domain_spec(DescriptorModel::List(items)) == Ok::<Seq<i64>, ErrorModel>(dom),
    ensures
        dom == sorted_dedup(vals),
        strictly_increasing(dom),
        forall|x: i64| dom.contains(x) <==> vals.contains(x),
{
    lemma_sorted_dedup_props(vals);
}

/// Sign/magnitude resolution: where no literal entry overrides the value, a
/// negative value selects the `Negative` arm, zero the `Zero` arm, and a
/// positive value the `PositiveUnsigned` arm when present, else the
/// `PositiveSigned` arm — each branch inlining exactly that arm's body.
pub proof fn lemma_class_resolution(t: TableModel, v: i64)
    requires
        !t.literals.contains_key(v),
    ensures
        v < 0 && t.negative is Some ==> branch_for(t, v) == Some(
            BranchModel {
                value: v,
                tag: Tag::Negative,
                magnitude: mag(v),
                type_ident: type_ident_spec(Tag::Negative, v),
                body: t.negative.unwrap(),
            },
        ),
        v == 0 && t.zero is Some ==> branch_for(t, v) == Some(
            BranchModel {
                value: v,
                tag: Tag::Zero,
                magnitude: mag(v),
                type_ident: type_ident_spec(Tag::Zero, v),
                body: t.zero.unwrap(),
            },
        ),
        v > 0 && t.pos_unsigned is Some ==> branch_for(t, v) == Some(
            BranchModel {
                value: v,
                tag: Tag::PositiveUnsigned,
                magnitude: mag(v),
                type_ident: type_ident_spec(Tag::PositiveUnsigned, v),
                body: t.pos_unsigned.unwrap(),
            },
        ),
        v > 0 && t.pos_unsigned is None && t.pos_signed is Some ==> branch_for(t, v) == Some(
            BranchModel {
                value: v,
                tag: Tag::PositiveSigned,
                magnitude: mag(v),
                type_ident: type_ident_spec(Tag::PositiveSigned, v),
                body: t.pos_signed.unwrap(),
            },
        ),
{
}

/// Literal precedence: a literal entry for a value always wins over any
/// sign/magnitude arm for that same value.
pub proof fn lemma_literal_precedence(t: TableModel, v: i64)
    requires
        t.literals.contains_key(v),
    ensures
        branch_for(t, v) == Some(
            BranchModel {
                value: v,
                tag: Tag::Literal(v),
                magnitude: mag(v),
                type_ident: type_ident_spec(Tag::Literal(v), v),
                body: t.literals[v],
            },
        ),
{
}

/// Every branch a domain value resolves to stands in the synthesized set:
/// for a covered value, the emitted branches hold exactly the branch that
/// [`branch_for`] gives it (together with the ascending-guard law, at
/// exactly one position).
pub proof fn lemma_branch_of_domain_value(t: TableModel, dom: Seq<i64>, k: int)
    requires
        0 <= k < dom.len(),
        branch_for(t, dom[k]) is Some,
    ensures
        exists|i: int|
            0 <= i < branches_spec(t, dom).len() && branches_spec(t, dom)[i] == branch_for(
                t,
                dom[k],
            ).unwrap(),
    decreases dom.len(),
{
    let whole = branches_spec(t, dom);
    let d0 = dom.drop_last();
    let rest = branches_spec(t, d0);
    if k == dom.len() - 1 {
        let b = branch_for(t, dom.last()).unwrap();
        assert(whole == rest.push(b));
        assert(whole[whole.len() - 1] == b);
    } else {
        assert(d0[k] == dom[k]);
        lemma_branch_of_domain_value(t, d0, k);
        let i = choose|i: int|
            0 <= i < rest.len() && rest[i] == branch_for(t, d0[k]).unwrap();
        match branch_for(t, dom.last()) {
            None => {
                assert(whole == rest);
                assert(whole[i] == branch_for(t, dom[k]).unwrap());
            },
            Some(b) => {
                assert(whole == rest.push(b));
                assert(whole[i] == branch_for(t, dom[k]).unwrap());
            },
        }
    }
}

/// Every synthesized branch is sound: it is exactly the branch its own guard
/// value resolves to, so no branch is invented and none is misclassified.
pub proof fn lemma_branches_sound(t: TableModel, dom: Seq<i64>)
    ensures
        forall|i: int|
            0 <= i < branches_spec(t, dom).len() ==> branch_for(
                t,
                #[trigger] branches_spec(t, dom)[i].value,
            ) == Some(branches_spec(t, dom)[i]),
    decreases dom.len(),
{
    if dom.len() > 0 {
        let whole = branches_spec(t, dom);
        let d0 = dom.drop_last();
        let rest = branches_spec(t, d0);
        lemma_branches_sound(t, d0);
        match branch_for(t, dom.last()) {
            None => {
                assert(whole == rest);
            },
            Some(b) => {
                assert(whole == rest.push(b));
                assert forall|i: int| 0 <= i < whole.len() implies branch_for(
                    t,
                    #[trigger] whole[i].value,
                ) == Some(whole[i]) by {
                    if i < rest.len() {
                        assert(whole[i] == rest[i]);
                    } else {
                        assert(whole[i] == b);
                        assert(b.value == dom.last());
                    }
                }
            },
        }
    }
}

/// The forbidden co-occurrences fail validation: a template whose arms build
/// to a table holding both positive families, or both `Literal(0)` and
/// `Zero`, is rejected as ambiguous.
pub proof fn lemma_ambiguous_arm_set(arms: Seq<ArmModel>, t: TableModel)
    requires
        table_build(arms) == Ok::<TableModel, ErrorModel>(t),
    ensures
        t.pos_signed is Some && t.pos_unsigned is Some ==> table_spec(arms) == Err::<
            TableModel,
            ErrorModel,
        >(ErrorModel::AmbiguousArmSet(Tag::PositiveSigned, Tag::PositiveUnsigned)),
        !(t.pos_signed is Some && t.pos_unsigned is Some) && t.literals.contains_key(0)
            && t.zero is Some ==> table_spec(arms) == Err::<TableModel, ErrorModel>(
            ErrorModel::AmbiguousArmSet(Tag::Literal(0), Tag::Zero),
        ),
{
}

/// A rejected template stops the whole pipeline before any synthesis: no
/// output syntax exists for it.
pub proof fn lemma_ambiguity_stops_pipeline(
    d: DescriptorModel,
    arms: Seq<ArmModel>,
    scrutinee: Seq<char>,
)
    requires
        table_spec(arms) is Err,
    ensures
        pipeline_spec(d, arms, scrutinee) is Err,
{
}

/// Idempotence: the pipeline is a pure function of its input syntax, so any
/// two results that its contract admits for the same input are identical —
/// re-running on identical input yields byte-identical output.
pub proof fn lemma_pipeline_deterministic(
    d: DescriptorModel,
    arms: Seq<ArmModel>,
    scrutinee: Seq<char>,
    r1: Result<Seq<char>, ErrorModel>,
    r2: Result<Seq<char>, ErrorModel>,
)
    requires
        r1 == pipeline_spec(d, arms, scrutinee),
        r2 == pipeline_spec(d, arms, scrutinee),
    ensures
        r1 == r2,
{
}

} // verus!
