//! Compile-time branch specialization engine: expands a branch template over a
//! finite integer domain, binding each covered value to a type-level numeral
//! identifier, and emits one exhaustive branch-selection expression.

use vstd::prelude::*;

pub mod domain;
pub mod errors;
pub mod laws;
pub mod numtext;
pub mod synth;
pub mod table;
pub mod tag;

use crate::domain::{DomainDescriptor, DescriptorModel, build_domain, domain_spec};
use crate::errors::{Error, ErrorModel};
use crate::table::{build_table, table_spec, arms_view};
use crate::tag::{Arm, ArmModel};
use crate::synth::{synthesize_branches, synthesize_fallback, emit, emit_spec};

verus! {

/// The whole pipeline, mathematically: resolve the domain, build and
/// validate the arm table, then synthesize every covered branch and the
/// exhaustiveness branch and emit the selection expression. A pure function
/// of the input syntax; the first failing stage settles the result.
pub open spec fn pipeline_spec(
    d: DescriptorModel,
    arms: Seq<ArmModel>,
    scrutinee: Seq<char>,
) -> Result<Seq<char>, ErrorModel> {
    match domain_spec(d) {
        Err(e) => Err(e),
        Ok(dom) => match table_spec(arms) {
            Err(e) => Err(e),
            Ok(t) => Ok(emit_spec(t, dom, scrutinee)),
        },
    }
}

/// Expand one invocation: turn a domain descriptor, a branch template and a
/// scrutinee expression into one exhaustive branch-selection expression with
/// one specialized branch per covered domain value plus exactly one trailing
/// catch-all branch.
pub fn u_num_it(descriptor: &DomainDescriptor, arms: &Vec<Arm>, scrutinee: &String) -> (r: Result<
    String,
    Error,
>)
    ensures
        match r {
            Ok(s) => pipeline_spec(descriptor@, arms_view(arms@), scrutinee@) == Ok::<
                Seq<char>,
                ErrorModel,
            >(s@),
            Err(e) => pipeline_spec(descriptor@, arms_view(arms@), scrutinee@) == Err::<
                Seq<char>,
                ErrorModel,
            >(e@),
        },
{
    let dom: Vec<i64> = match build_domain(descriptor) {
        Ok(d) => d,
        Err(e) => {
            return Err(e);
        },
    };
    let t = match build_table(arms) {
        Ok(t) => t,
        Err(e) => {
            return Err(e);
        },
    };
    let branches = synthesize_branches(&dom, &t);
    let fb = synthesize_fallback(&dom, &t);
    let out: String = emit(scrutinee, &branches, &fb);
    proof {
        assert(out@ =~= emit_spec(t@, dom@, scrutinee@));
    }
    Ok(out)
}

} // verus!
