//! Branch synthesis and emission.
//!
//! For each domain value, in ascending order, resolution picks the applicable
//! tag (literal override first, then sign/magnitude class), builds the target
//! type identifier, and emits a specialized branch that binds the identifier
//! to the fixed local alias `NumType` before inlining the arm body unchanged.
//! A trailing catch-all branch guarantees exhaustiveness.

use vstd::prelude::*;
use vstd::string::*;
use crate::tag::Tag;
use crate::table::{ArmTable, TableModel};
use crate::numtext::{dec_digits, int_text, push_int_text, push_dec_digits, magnitude_u64};

verus! {

/// The magnitude of a domain value.
pub open spec fn mag(v: i64) -> nat {
    if v >= 0 {
        v as nat
    } else {
        (-(v as int)) as nat
    }
}

/// Which tag applies to a domain value: a literal entry always wins; zero
/// falls to `Zero`; a negative value to `Negative`; a positive value to
/// `PositiveUnsigned` when that arm is present, else to `PositiveSigned`.
/// `None` when the applicable class has no arm (the value is omitted).
pub open spec fn resolved_tag(t: TableModel, v: i64) -> Option<Tag> {
    if t.literals.contains_key(v) {
        Some(Tag::Literal(v))
    } else if v == 0 {
        if t.zero is Some {
            Some(Tag::Zero)
        } else {
            None
        }
    } else if v < 0 {
        if t.negative is Some {
            Some(Tag::Negative)
        } else {
            None
        }
    } else {
        if t.pos_unsigned is Some {
            Some(Tag::PositiveUnsigned)
        } else if t.pos_signed is Some {
            Some(Tag::PositiveSigned)
        } else {
            None
        }
    }
}

/// The type-level numeral identifier a branch binds: the class short name
/// (`N`, `P`, `U`; `False` for zero) followed by the magnitude (omitted for
/// zero). A literal tag takes its value's sign class.
pub open spec fn type_ident_spec(tag: Tag, v: i64) -> Seq<char> {
    if v == 0 {
        "False"@
    } else if v < 0 {
        "N"@ + dec_digits(mag(v))
    } else if tag == Tag::PositiveUnsigned {
        "U"@ + dec_digits(mag(v))
    } else {
        "P"@ + dec_digits(mag(v))
    }
}

/// One synthesized, value-specialized branch.
pub struct ResolvedBranch {
    /// The domain value this branch is guarded by.
    pub value: i64,
    /// The tag whose arm the branch inlines.
    pub tag: Tag,
    /// The value's magnitude.
    pub magnitude: u64,
    /// The type-level numeral identifier bound to the local alias.
    pub type_ident: String,
    /// The arm body, relocated unchanged.
    pub body: String,
}

/// The mathematical reading of a [`ResolvedBranch`].
pub struct BranchModel {
    pub value: i64,
    pub tag: Tag,
    pub magnitude: nat,
    pub type_ident: Seq<char>,
    pub body: Seq<char>,
}

impl View for ResolvedBranch {
    type V = BranchModel;

    open spec fn view(&self) -> BranchModel {
        BranchModel {
            value: self.value,
            tag: self.tag,
            magnitude: self.magnitude as nat,
            type_ident: self.type_ident@,
            body: self.body@,
        }
    }
}

/// The mathematical readings of a sequence of branches.
pub open spec fn branches_view(s: Seq<ResolvedBranch>) -> Seq<BranchModel> {
    s.map_values(|b: ResolvedBranch| b@)
}

/// The branch synthesized for one domain value, or `None` when the value's
/// class has no arm and the value is silently omitted.
pub open spec fn branch_for(t: TableModel, v: i64) -> Option<BranchModel> {
    match resolved_tag(t, v) {
        None => None,
        Some(tag) => match t.get(tag) {
            None => None,
            Some(body) => Some(
                BranchModel {
                    value: v,
                    tag,
                    magnitude: mag(v),
                    type_ident: type_ident_spec(tag, v),
                    body,
                },
            ),
        },
    }
}

/// All synthesized branches, in domain order.
pub open spec fn branches_spec(t: TableModel, dom: Seq<i64>) -> Seq<BranchModel>
    decreases dom.len(),
{
    if dom.len() == 0 {
        Seq::empty()
    } else {
        let rest = branches_spec(t, dom.drop_last());
        match branch_for(t, dom.last()) {
            None => rest,
            Some(b) => rest.push(b),
        }
    }
}

/// The exhaustiveness branch: the user's wildcard body if present, else a
/// synthesized report carrying the domain's bounds (0 when the domain is
/// empty).
#[derive(Debug, Clone)]
pub enum Fallback {
    /// The wildcard arm's body, emitted verbatim.
    Custom(String),
    /// A synthesized out-of-domain report with the resolved domain bounds.
    Report { lo: i64, hi: i64 },
}

/// The mathematical reading of a [`Fallback`].
pub enum FallbackModel {
    Custom(Seq<char>),
    Report { lo: i64, hi: i64 },
}

impl View for Fallback {
    type V = FallbackModel;

    open spec fn view(&self) -> FallbackModel {
        match self {
            Fallback::Custom(b) => FallbackModel::Custom(b@),
            Fallback::Report { lo, hi } => FallbackModel::Report { lo: *lo, hi: *hi },
        }
    }
}

/// The fallback a table and domain call for.
pub open spec fn fallback_spec(t: TableModel, dom: Seq<i64>) -> FallbackModel {
    match t.wildcard {
        Some(b) => FallbackModel::Custom(b),
        None => FallbackModel::Report {
            lo: if dom.len() > 0 {
                dom[0]
            } else {
                0
            },
            hi: if dom.len() > 0 {
                dom[dom.len() - 1]
            } else {
                0
            },
        },
    }
}

/// Resolve the applicable tag for a domain value.
pub fn resolve_tag(t: &ArmTable, v: i64) -> (r: Option<Tag>)
    ensures
        r == resolved_tag(t@, v),
{
    if t.has(Tag::Literal(v)) {
        Some(Tag::Literal(v))
    } else if v == 0 {
        if t.zero.is_some() {
            Some(Tag::Zero)
        } else {
            None
        }
    } else if v < 0 {
        if t.negative.is_some() {
            Some(Tag::Negative)
        } else {
            None
        }
    } else {
        if t.pos_unsigned.is_some() {
            Some(Tag::PositiveUnsigned)
        } else if t.pos_signed.is_some() {
            Some(Tag::PositiveSigned)
        } else {
            None
        }
    }
}

/// Build the type-level numeral identifier for a tag and value.
pub fn type_ident(tag: Tag, v: i64) -> (r: String)
    ensures
        r@ == type_ident_spec(tag, v),
{
    if v == 0 {
        String::from_str("False")
    } else {
        let mut s: String = if v < 0 {
            String::from_str("N")
        } else if tag == Tag::PositiveUnsigned {
            String::from_str("U")
        } else {
            String::from_str("P")
        };
        push_dec_digits(&mut s, magnitude_u64(v));
        s
    }
}

/// Synthesize the specialized branches for every covered domain value, in
/// domain order.
pub fn synthesize_branches(domain: &Vec<i64>, t: &ArmTable) -> (r: Vec<ResolvedBranch>)
    requires
        t.wf(),
    ensures
        branches_view(r@) == branches_spec(t@, domain@),
{
    let mut out: Vec<ResolvedBranch> = Vec::new();
    let mut i: usize = 0;
    while i < domain.len()
        invariant
            i <= domain@.len(),
            t.wf(),
            branches_view(out@) == branches_spec(t@, domain@.subrange(0, i as int)),
        decreases domain@.len() - i,
    {
        let v: i64 = domain[i];
        proof {
            assert(domain@.subrange(0, i + 1).drop_last() =~= domain@.subrange(0, i as int));
            assert(domain@.subrange(0, i + 1).last() == v);
        }
        match resolve_tag(t, v) {
            None => {
            },
            Some(tag) => {
                // Resolution only yields tags that hold a body, so the
                // lookup cannot miss.
                let body: String = match t.lookup(tag) {
                    Some(b) => b,
                    None => {
                        proof {
                            assert(false);
                        }
                        String::new()
                    },
                };
                let rb = ResolvedBranch {
                    value: v,
                    tag,
                    magnitude: magnitude_u64(v),
                    type_ident: type_ident(tag, v),
                    body,
                };
                let ghost prev = out@;
                out.push(rb);
                proof {
                    assert(branches_view(out@) =~= branches_view(prev).push(rb@));
                }
            },
        }
        i = i + 1;
    }
    proof {
        assert(domain@.subrange(0, i as int) =~= domain@);
    }
    out
}

/// Synthesize the exhaustiveness branch.
pub fn synthesize_fallback(domain: &Vec<i64>, t: &ArmTable) -> (r: Fallback)
    requires
        t.wf(),
    ensures
        r@ == fallback_spec(t@, domain@),
{
    match t.lookup(Tag::Wildcard) {
        Some(b) => Fallback::Custom(b),
        None => {
            let lo: i64 = if domain.len() > 0 {
                domain[0]
            } else {
                0
            };
            let hi: i64 = if domain.len() > 0 {
                domain[domain.len() - 1]
            } else {
                0
            };
            Fallback::Report { lo, hi }
        },
    }
}

/// The emitted text of one specialized branch.
pub open spec fn branch_text(b: BranchModel) -> Seq<char> {
    int_text(b.value as int) + " => { type NumType = typenum::consts::"@ + b.type_ident + "; "@
        + b.body + " }, "@
}

/// The emitted text of a branch sequence, in order.
pub open spec fn branches_text(bs: Seq<BranchModel>) -> Seq<char>
    decreases bs.len(),
{
    if bs.len() == 0 {
        Seq::empty()
    } else {
        branches_text(bs.drop_last()) + branch_text(bs.last())
    }
}

/// The emitted text of the exhaustiveness branch.
pub open spec fn fallback_text(f: FallbackModel) -> Seq<char> {
    match f {
        FallbackModel::Custom(b) => "_ => { "@ + b + " }, "@,
        FallbackModel::Report { lo, hi } => "i => unreachable!(\"{i} not in range {}..={}\", "@
            + int_text(lo as int) + ", "@ + int_text(hi as int) + "), "@,
    }
}

/// The whole emitted branch-selection expression over the scrutinee.
pub open spec fn emit_spec(t: TableModel, dom: Seq<i64>, scrutinee: Seq<char>) -> Seq<char> {
    "match "@ + scrutinee + " { "@ + branches_text(branches_spec(t, dom)) + fallback_text(
        fallback_spec(t, dom),
    ) + "}"@
}

/// Append the emitted text of one branch.
fn push_branch_text(out: &mut String, b: &ResolvedBranch)
    ensures
        final(out)@ == old(out)@ + branch_text(b@),
{
    push_int_text(out, b.value);
    out.append(" => { type NumType = typenum::consts::");
    out.append(b.type_ident.as_str());
    out.append("; ");
    out.append(b.body.as_str());
    out.append(" }, ");
    proof {
        assert(out@ =~= old(out)@ + branch_text(b@));
    }
}

/// Append the emitted text of the exhaustiveness branch.
fn push_fallback_text(out: &mut String, f: &Fallback)
    ensures
        final(out)@ == old(out)@ + fallback_text(f@),
{
    match f {
        Fallback::Custom(b) => {
            out.append("_ => { ");
            out.append(b.as_str());
            out.append(" }, ");
            proof {
                assert(out@ =~= old(out)@ + fallback_text(f@));
            }
        },
        Fallback::Report { lo, hi } => {
            out.append("i => unreachable!(\"{i} not in range {}..={}\", ");
            push_int_text(out, *lo);
            out.append(", ");
            push_int_text(out, *hi);
            out.append("), ");
            proof {
                assert(out@ =~= old(out)@ + fallback_text(f@));
            }
        },
    }
}

/// The head of the emitted expression.
pub open spec fn emit_head(scrutinee: Seq<char>) -> Seq<char> {
    "match "@ + scrutinee + " { "@
}

/// Assemble the branches and the fallback into one exhaustive
/// branch-selection expression over the scrutinee. Performs no further
/// validation.
pub fn emit(scrutinee: &String, branches: &Vec<ResolvedBranch>, f: &Fallback) -> (r: String)
    ensures
        r@ == emit_head(scrutinee@) + branches_text(branches_view(branches@)) + fallback_text(f@)
            + "}"@,
{
    let mut out: String = String::from_str("match ");
    out.append(scrutinee.as_str());
    out.append(" { ");
    proof {
        assert(out@ =~= emit_head(scrutinee@));
    }
    let mut i: usize = 0;
    while i < branches.len()
        invariant
            i <= branches@.len(),
            out@ == emit_head(scrutinee@) + branches_text(
                branches_view(branches@.subrange(0, i as int)),
            ),
        decreases branches@.len() - i,
    {
        push_branch_text(&mut out, &branches[i]);
        proof {
            let bv = branches_view(branches@.subrange(0, i + 1));
            assert(bv.drop_last() =~= branches_view(branches@.subrange(0, i as int)));
            assert(bv.last() == branches@[i as int]@);
            assert(out@ =~= emit_head(scrutinee@) + branches_text(bv));
        }
        i = i + 1;
    }
    proof {
        assert(branches@.subrange(0, i as int) =~= branches@);
    }
    push_fallback_text(&mut out, f);
    out.append("}");
    proof {
        assert(out@ =~= emit_head(scrutinee@) + branches_text(branches_view(branches@))
            + fallback_text(f@) + "}"@);
    }
    out
}

/// The guard values of a branch sequence.
pub open spec fn values_of(bs: Seq<BranchModel>) -> Seq<i64> {
    bs.map_values(|b: BranchModel| b.value)
}

/// Synthesis is deterministic in domain order: the branches' guard values
/// ascend strictly (so each value is emitted at most once), and every guard
/// value comes from the domain.
pub proof fn lemma_branches_ascending(t: TableModel, dom: Seq<i64>)
    requires
        crate::domain::strictly_increasing(dom),
    ensures
        crate::domain::strictly_increasing(values_of(branches_spec(t, dom))),
        forall|i: int|
            0 <= i < branches_spec(t, dom).len() ==> dom.contains(
                #[trigger] branches_spec(t, dom)[i].value,
            ),
    decreases dom.len(),
{
    if dom.len() > 0 {
        let d0 = dom.drop_last();
        assert(crate::domain::strictly_increasing(d0));
        lemma_branches_ascending(t, d0);
        let rest = branches_spec(t, d0);
        let whole = branches_spec(t, dom);
        assert forall|i: int| 0 <= i < rest.len() implies dom.contains(#[trigger] rest[i].value)
            && rest[i].value < dom.last() by {
            assert(d0.contains(rest[i].value));
            let k = choose|k: int| 0 <= k < d0.len() && d0[k] == rest[i].value;
            assert(dom[k] == rest[i].value);
            assert(dom[k] < dom[dom.len() - 1]);
        }
        match branch_for(t, dom.last()) {
            None => {
                assert(whole == rest);
            },
            Some(b) => {
                assert(whole == rest.push(b));
                assert(b.value == dom.last());
                assert(dom.contains(b.value)) by {
                    assert(dom[dom.len() - 1] == b.value);
                }
                assert(values_of(whole) =~= values_of(rest).push(b.value));
                assert forall|i: int, j: int|
                    0 <= i < j < values_of(whole).len() implies values_of(whole)[i] < values_of(
                    whole,
                )[j] by {
                    if j < values_of(rest).len() {
                        assert(values_of(whole)[i] == values_of(rest)[i]);
                        assert(values_of(whole)[j] == values_of(rest)[j]);
                    } else {
                        assert(values_of(whole)[j] == b.value);
                        assert(values_of(whole)[i] == values_of(rest)[i]);
                        assert(values_of(rest)[i] == rest[i].value);
                    }
                }
            },
        }
    }
}

/// The first synthesized branch guarded by a value, if any. The guard values
/// are distinct whenever the domain ascends, so the match is unique; the
/// generated first-match construct selects exactly this branch for a
/// scrutinee equal to the value.
pub fn select_branch(branches: &Vec<ResolvedBranch>, v: i64) -> (r: Option<usize>)
    ensures
        match r {
            Some(i) => i < branches@.len() && branches@[i as int].value == v && forall|k: int|
                0 <= k < i ==> branches@[k].value != v,
            None => forall|k: int| 0 <= k < branches@.len() ==> branches@[k].value != v,
        },
{
    let mut i: usize = 0;
    while i < branches.len()
        invariant
            i <= branches@.len(),
            forall|k: int| 0 <= k < i ==> branches@[k].value != v,
        decreases branches@.len() - i,
    {
        if branches[i].value == v {
            return Some(i);
        }
        i = i + 1;
    }
    None
}

} // verus!
