//! The arm table: one opaque body per semantic tag.
//!
//! Built from the template's ordered arms by resolving every key and
//! inserting it, rejecting a second insertion under an already-present tag
//! and the two forbidden tag co-occurrences.

use vstd::prelude::*;
use crate::errors::{Error, ErrorModel};
use crate::tag::{Tag, Arm, ArmModel, resolve_key, resolve_key_spec};

verus! {

/// The mathematical reading of an arm table: at most one body per tag.
pub struct TableModel {
    pub negative: Option<Seq<char>>,
    pub pos_signed: Option<Seq<char>>,
    pub pos_unsigned: Option<Seq<char>>,
    pub zero: Option<Seq<char>>,
    pub wildcard: Option<Seq<char>>,
    pub literals: Map<i64, Seq<char>>,
}

impl TableModel {
    pub open spec fn empty() -> TableModel {
        TableModel {
            negative: None,
            pos_signed: None,
            pos_unsigned: None,
            zero: None,
            wildcard: None,
            literals: Map::empty(),
        }
    }

    /// The body filed under a tag, if any.
    pub open spec fn get(self, t: Tag) -> Option<Seq<char>> {
        match t {
            Tag::Negative => self.negative,
            Tag::PositiveSigned => self.pos_signed,
            Tag::PositiveUnsigned => self.pos_unsigned,
            Tag::Zero => self.zero,
            Tag::Wildcard => self.wildcard,
            Tag::Literal(v) => if self.literals.contains_key(v) {
                Some(self.literals[v])
            } else {
                None
            },
        }
    }

    /// The table with a body filed under a tag.
    pub open spec fn put(self, t: Tag, b: Seq<char>) -> TableModel {
        match t {
            Tag::Negative => TableModel { negative: Some(b), ..self },
            Tag::PositiveSigned => TableModel { pos_signed: Some(b), ..self },
            Tag::PositiveUnsigned => TableModel { pos_unsigned: Some(b), ..self },
            Tag::Zero => TableModel { zero: Some(b), ..self },
            Tag::Wildcard => TableModel { wildcard: Some(b), ..self },
            Tag::Literal(v) => TableModel { literals: self.literals.insert(v, b), ..self },
        }
    }
}

/// The mathematical readings of a sequence of arms.
pub open spec fn arms_view(s: Seq<Arm>) -> Seq<ArmModel> {
    s.map_values(|a: Arm| a@)
}

/// Insert one resolved arm, rejecting a duplicate tag.
pub open spec fn table_insert(t: TableModel, tag: Tag, body: Seq<char>) -> Result<
    TableModel,
    ErrorModel,
> {
    if t.get(tag) is Some {
        Err(ErrorModel::DuplicateArm(tag))
    } else {
        Ok(t.put(tag, body))
    }
}

/// Fold the template's arms, in order, into a table; the first rejected arm
/// settles the result.
pub open spec fn table_build(arms: Seq<ArmModel>) -> Result<TableModel, ErrorModel>
    decreases arms.len(),
{
    if arms.len() == 0 {
        Ok(TableModel::empty())
    } else {
        match table_build(arms.drop_last()) {
            Err(e) => Err(e),
            Ok(t) => match resolve_key_spec(arms.last().key) {
                Err(e) => Err(e),
                Ok(tag) => table_insert(t, tag, arms.last().body),
            },
        }
    }
}

/// The two forbidden tag co-occurrences: the positive families are mutually
/// exclusive, and `Literal(0)` and `Zero` denote the same value.
pub open spec fn table_validate(t: TableModel) -> Result<TableModel, ErrorModel> {
    if t.pos_signed is Some && t.pos_unsigned is Some {
        Err(ErrorModel::AmbiguousArmSet(Tag::PositiveSigned, Tag::PositiveUnsigned))
    } else if t.literals.contains_key(0) && t.zero is Some {
        Err(ErrorModel::AmbiguousArmSet(Tag::Literal(0), Tag::Zero))
    } else {
        Ok(t)
    }
}

/// Building then validating: the whole table construction.
pub open spec fn table_spec(arms: Seq<ArmModel>) -> Result<TableModel, ErrorModel> {
    match table_build(arms) {
        Err(e) => Err(e),
        Ok(t) => table_validate(t),
    }
}

/// A build error on a prefix settles the whole arm list.
proof fn lemma_table_build_err_prefix(arms: Seq<ArmModel>, k: int)
    requires
        0 <= k <= arms.len(),
        table_build(arms.subrange(0, k)) is Err,
    ensures
        table_build(arms) == table_build(arms.subrange(0, k)),
    decreases arms.len() - k,
{
    if k < arms.len() {
        assert(arms.subrange(0, k + 1).drop_last() =~= arms.subrange(0, k));
        lemma_table_build_err_prefix(arms, k + 1);
    } else {
        assert(arms.subrange(0, k) =~= arms);
    }
}

/// The executable arm table. Literal arms live in an association vector with
/// pairwise distinct keys; the class arms in one optional slot each.
#[derive(Debug, Clone)]
pub struct ArmTable {
    pub negative: Option<String>,
    pub pos_signed: Option<String>,
    pub pos_unsigned: Option<String>,
    pub zero: Option<String>,
    pub wildcard: Option<String>,
    pub literals: Vec<(i64, String)>,
}

/// The character text of an optional string.
pub open spec fn opt_text(o: Option<String>) -> Option<Seq<char>> {
    match o {
        Some(s) => Some(s@),
        None => None,
    }
}

/// The map an association vector denotes (a later key wins, but keys are
/// kept distinct).
pub open spec fn lits_map(l: Seq<(i64, String)>) -> Map<i64, Seq<char>>
    decreases l.len(),
{
    if l.len() == 0 {
        Map::empty()
    } else {
        lits_map(l.drop_last()).insert(l.last().0, l.last().1@)
    }
}

impl View for ArmTable {
    type V = TableModel;

    open spec fn view(&self) -> TableModel {
        TableModel {
            negative: opt_text(self.negative),
            pos_signed: opt_text(self.pos_signed),
            pos_unsigned: opt_text(self.pos_unsigned),
            zero: opt_text(self.zero),
            wildcard: opt_text(self.wildcard),
            literals: lits_map(self.literals@),
        }
    }
}

proof fn lemma_lits_map_contains(l: Seq<(i64, String)>, v: i64)
    ensures
        lits_map(l).contains_key(v) <==> exists|i: int| 0 <= i < l.len() && l[i].0 == v,
    decreases l.len(),
{
    if l.len() > 0 {
        lemma_lits_map_contains(l.drop_last(), v);
        if l.last().0 == v {
            assert(l[l.len() - 1].0 == v);
        } else if lits_map(l).contains_key(v) {
            let i = choose|i: int| 0 <= i < l.drop_last().len() && l.drop_last()[i].0 == v;
            assert(l[i].0 == v);
        } else if exists|i: int| 0 <= i < l.len() && l[i].0 == v {
            let i = choose|i: int| 0 <= i < l.len() && l[i].0 == v;
            assert(i < l.len() - 1);
            assert(l.drop_last()[i].0 == v);
        }
    }
}

proof fn lemma_lits_map_value(l: Seq<(i64, String)>, i: int)
    requires
        0 <= i < l.len(),
        forall|a: int, b: int| 0 <= a < b < l.len() ==> l[a].0 != l[b].0,
    ensures
        lits_map(l).contains_key(l[i].0),
        lits_map(l)[l[i].0] == l[i].1@,
    decreases l.len(),
{
    if i == l.len() - 1 {
    } else {
        assert(l.drop_last()[i] == l[i]);
        lemma_lits_map_value(l.drop_last(), i);
        assert(l[i].0 != l[l.len() - 1].0);
    }
}

/// Index of a literal key in the association vector, if present.
fn lit_find(l: &Vec<(i64, String)>, v: i64) -> (r: Option<usize>)
    ensures
        match r {
            Some(i) => i < l@.len() && l@[i as int].0 == v,
            None => forall|i: int| 0 <= i < l@.len() ==> l@[i].0 != v,
        },
        r is Some <==> lits_map(l@).contains_key(v),
{
    let mut i: usize = 0;
    while i < l.len()
        invariant
            i <= l@.len(),
            forall|k: int| 0 <= k < i ==> l@[k].0 != v,
        decreases l@.len() - i,
    {
        if l[i].0 == v {
            proof {
                lemma_lits_map_contains(l@, v);
            }
            return Some(i);
        }
        i = i + 1;
    }
    proof {
        lemma_lits_map_contains(l@, v);
    }
    None
}

impl ArmTable {
    /// Pairwise distinct literal keys.
    pub open spec fn wf(self) -> bool {
        forall|a: int, b: int|
            0 <= a < b < self.literals@.len() ==> self.literals@[a].0 != self.literals@[b].0
    }

    /// A table with no arm at all.
    pub fn new() -> (r: ArmTable)
        ensures
            r@ == TableModel::empty(),
            r.wf(),
    {
        let r = ArmTable {
            negative: None,
            pos_signed: None,
            pos_unsigned: None,
            zero: None,
            wildcard: None,
            literals: Vec::new(),
        };
        r
    }

    /// Whether a body is filed under the tag.
    pub fn has(&self, tag: Tag) -> (r: bool)
        ensures
            r == (self@.get(tag) is Some),
    {
        match tag {
            Tag::Negative => self.negative.is_some(),
            Tag::PositiveSigned => self.pos_signed.is_some(),
            Tag::PositiveUnsigned => self.pos_unsigned.is_some(),
            Tag::Zero => self.zero.is_some(),
            Tag::Wildcard => self.wildcard.is_some(),
            Tag::Literal(v) => lit_find(&self.literals, v).is_some(),
        }
    }

    /// A copy of the body filed under the tag, if any.
    pub fn lookup(&self, tag: Tag) -> (r: Option<String>)
        requires
            self.wf(),
        ensures
            opt_text(r) == self@.get(tag),
    {
        match tag {
            Tag::Negative => self.negative.clone(),
            Tag::PositiveSigned => self.pos_signed.clone(),
            Tag::PositiveUnsigned => self.pos_unsigned.clone(),
            Tag::Zero => self.zero.clone(),
            Tag::Wildcard => self.wildcard.clone(),
            Tag::Literal(v) => {
                match lit_find(&self.literals, v) {
                    Some(i) => {
                        proof {
                            lemma_lits_map_value(self.literals@, i as int);
                        }
                        Some(self.literals[i].1.clone())
                    },
                    None => None,
                }
            },
        }
    }

    /// File a body under a tag not yet present.
    fn put(&mut self, tag: Tag, body: String)
        requires
            old(self)@.get(tag) is None,
            old(self).wf(),
        ensures
            final(self)@ == old(self)@.put(tag, body@),
            final(self).wf(),
    {
        match tag {
            Tag::Negative => {
                self.negative = Some(body);
            },
            Tag::PositiveSigned => {
                self.pos_signed = Some(body);
            },
            Tag::PositiveUnsigned => {
                self.pos_unsigned = Some(body);
            },
            Tag::Zero => {
                self.zero = Some(body);
            },
            Tag::Wildcard => {
                self.wildcard = Some(body);
            },
            Tag::Literal(v) => {
                proof {
                    lemma_lits_map_contains(old(self).literals@, v);
                }
                self.literals.push((v, body));
                proof {
                    assert(self.literals@.drop_last() =~= old(self).literals@);
                }
            },
        }
    }
}

/// Build the arm table from the template's ordered arms.
///
/// Succeeds exactly when every key resolves, no tag repeats and no forbidden
/// pair co-occurs; the table then holds each arm's body under its tag.
pub fn build_table(arms: &Vec<Arm>) -> (r: Result<ArmTable, Error>)
    ensures
        match r {
            Ok(t) => t.wf() && table_spec(arms_view(arms@)) == Ok::<TableModel, ErrorModel>(t@),
            Err(e) => table_spec(arms_view(arms@)) == Err::<TableModel, ErrorModel>(e@),
        },
{
    let ghost av = arms_view(arms@);
    let mut t = ArmTable::new();
    let mut idx: usize = 0;
    while idx < arms.len()
        invariant
            idx <= arms@.len(),
            av == arms_view(arms@),
            av.len() == arms@.len(),
            t.wf(),
            table_build(av.subrange(0, idx as int)) == Ok::<TableModel, ErrorModel>(t@),
        decreases arms@.len() - idx,
    {
        proof {
            assert(av.subrange(0, idx + 1).drop_last() =~= av.subrange(0, idx as int));
            assert(av.subrange(0, idx + 1).last() == av[idx as int]);
            assert(av[idx as int] == arms@[idx as int]@);
        }
        let arm: &Arm = &arms[idx];
        let tag: Tag = match resolve_key(&arm.key) {
            Ok(tag) => tag,
            Err(e) => {
                proof {
                    lemma_table_build_err_prefix(av, idx + 1);
                }
                return Err(e);
            },
        };
        if t.has(tag) {
            proof {
                lemma_table_build_err_prefix(av, idx + 1);
            }
            return Err(Error::DuplicateArm(tag));
        }
        t.put(tag, arm.body.clone());
        idx = idx + 1;
    }
    proof {
        assert(av.subrange(0, idx as int) =~= av);
    }
    if t.pos_signed.is_some() && t.pos_unsigned.is_some() {
        return Err(Error::AmbiguousArmSet(Tag::PositiveSigned, Tag::PositiveUnsigned));
    }
    let lit_zero: bool = lit_find(&t.literals, 0).is_some();
    if lit_zero && t.zero.is_some() {
        return Err(Error::AmbiguousArmSet(Tag::Literal(0), Tag::Zero));
    }
    Ok(t)
}

} // verus!
