//! Domain descriptors and their resolution into a numeric domain.
//!
//! A descriptor is either a contiguous range (half-open or closed, either
//! bound omittable) or an explicit list of decimal literals. Resolution
//! yields a strictly increasing, duplicate-free sequence of signed integers.

use vstd::prelude::*;
use vstd::string::*;
use crate::errors::{Error, ErrorModel};
use crate::numtext::{spec_strip, is_int_text, int_text_val, parse_stripped};

verus! {

/// The textual shape of a domain descriptor.
#[derive(Debug, Clone)]
pub enum DomainDescriptor {
    /// `low..high` or `low..=high`, either bound omittable. The bound texts
    /// are kept raw; spaces (but not underscores) are tolerated in them.
    Range { start: Option<String>, end: Option<String>, inclusive: bool },
    /// `[v1, v2, ...]`: decimal literal texts, spaces and underscores
    /// tolerated.
    List(Vec<String>),
}

/// The mathematical reading of a [`DomainDescriptor`].
pub enum DescriptorModel {
    Range { start: Option<Seq<char>>, end: Option<Seq<char>>, inclusive: bool },
    List(Seq<Seq<char>>),
}

impl View for DomainDescriptor {
    type V = DescriptorModel;

    open spec fn view(&self) -> DescriptorModel {
        match self {
            DomainDescriptor::Range { start, end, inclusive } => DescriptorModel::Range {
                start: match start {
                    Some(s) => Some(s@),
                    None => None,
                },
                end: match end {
                    Some(s) => Some(s@),
                    None => None,
                },
                inclusive: *inclusive,
            },
            DomainDescriptor::List(items) => DescriptorModel::List(texts_of(items@)),
        }
    }
}

/// The character texts of a sequence of strings.
pub open spec fn texts_of(items: Seq<String>) -> Seq<Seq<char>> {
    items.map_values(|s: String| s@)
}

/// An ordered, duplicate-free sequence of signed integers.
pub open spec fn strictly_increasing(s: Seq<i64>) -> bool {
    forall|i: int, j: int| 0 <= i < j < s.len() ==> s[i] < s[j]
}

/// The value of range-bound text: spaces stripped, then read as decimal.
pub open spec fn bound_spec(text: Seq<char>) -> Option<int> {
    let t = spec_strip(text, false);
    if is_int_text(t) && i64::MIN <= int_text_val(t) <= i64::MAX {
        Some(int_text_val(t))
    } else {
        None
    }
}

/// The contiguous sequence `lo..lo+len`.
pub open spec fn range_seq(lo: int, len: nat) -> Seq<i64> {
    Seq::new(len, |k: int| (lo + k) as i64)
}

/// Insert a value into a strictly increasing sequence, keeping it strictly
/// increasing and dropping the value if it is already present.
pub open spec fn insert_sorted(s: Seq<i64>, v: i64) -> Seq<i64>
    decreases s.len(),
{
    if s.len() == 0 {
        seq![v]
    } else if v > s.last() {
        s.push(v)
    } else if v == s.last() {
        s
    } else {
        insert_sorted(s.drop_last(), v).push(s.last())
    }
}

/// The sorted, duplicate-free image of a value sequence.
pub open spec fn sorted_dedup(vals: Seq<i64>) -> Seq<i64>
    decreases vals.len(),
{
    if vals.len() == 0 {
        Seq::empty()
    } else {
        insert_sorted(sorted_dedup(vals.drop_last()), vals.last())
    }
}

/// The values a literal list denotes, in source order, or the error that
/// rejects its first unparseable element.
pub open spec fn parse_list_spec(items: Seq<Seq<char>>) -> Result<Seq<i64>, ErrorModel>
    decreases items.len(),
{
    if items.len() == 0 {
        Ok(Seq::empty())
    } else {
        match parse_list_spec(items.drop_last()) {
            Err(e) => Err(e),
            Ok(vs) => {
                let t = spec_strip(items.last(), true);
                if is_int_text(t) && i64::MIN <= int_text_val(t) <= i64::MAX {
                    Ok(vs.push(int_text_val(t) as i64))
                } else {
                    Err(ErrorModel::MalformedLiteral(items.last()))
                }
            },
        }
    }
}

/// The resolved lower bound of a range: 0 when omitted.
pub open spec fn range_lo_spec(start: Option<Seq<char>>) -> Option<int> {
    match start {
        None => Some(0int),
        Some(t) => bound_spec(t),
    }
}

/// The resolved upper bound of a range: the largest representable value when
/// omitted.
pub open spec fn range_hi_spec(end: Option<Seq<char>>) -> Option<int> {
    match end {
        None => Some(i64::MAX as int),
        Some(t) => bound_spec(t),
    }
}

/// The numeric domain a descriptor denotes, or the error that rejects it.
///
/// A range takes its lower bound (default 0) to its upper bound (default
/// `i64::MAX`), exclusive or inclusive of the upper bound per the flag; an
/// empty interval yields the empty domain. A list is sorted ascending with
/// duplicates removed.
pub open spec fn domain_spec(d: DescriptorModel) -> Result<Seq<i64>, ErrorModel> {
    match d {
        DescriptorModel::Range { start, end, inclusive } => {
            let lo_opt = range_lo_spec(start);
            let hi_opt = range_hi_spec(end);
            if lo_opt is None {
                Err(ErrorModel::MalformedBound(start.unwrap()))
            } else if hi_opt is None {
                Err(ErrorModel::MalformedBound(end.unwrap()))
            } else {
                let lo = lo_opt.unwrap();
                let hi = hi_opt.unwrap();
                if inclusive {
                    Ok(range_seq(lo, if lo <= hi { (hi - lo + 1) as nat } else { 0nat }))
                } else {
                    Ok(range_seq(lo, if lo <= hi { (hi - lo) as nat } else { 0nat }))
                }
            }
        },
        DescriptorModel::List(items) => match parse_list_spec(items) {
            Err(e) => Err(e),
            Ok(vs) => Ok(sorted_dedup(vs)),
        },
    }
}

proof fn lemma_seq_push_contains(s: Seq<i64>, v: i64, x: i64)
    ensures
        s.push(v).contains(x) <==> s.contains(x) || x == v,
{
    if s.contains(x) {
        let i = choose|i: int| 0 <= i < s.len() && s[i] == x;
        assert(s.push(v)[i] == x);
    }
    if s.push(v).contains(x) {
        let i = choose|i: int| 0 <= i < s.push(v).len() && s.push(v)[i] == x;
        if i < s.len() {
            assert(s[i] == x);
        }
    }
    assert(s.push(v)[s.len() as int] == v);
}

/// Inserting keeps the sequence strictly increasing and adds exactly the
/// inserted value to its contents.
pub proof fn lemma_insert_sorted_props(s: Seq<i64>, v: i64)
    requires
        strictly_increasing(s),
    ensures
        strictly_increasing(insert_sorted(s, v)),
        forall|x: i64| insert_sorted(s, v).contains(x) <==> s.contains(x) || x == v,
    decreases s.len(),
{
    let r = insert_sorted(s, v);
    if s.len() == 0 {
        assert(r == seq![v]);
        assert(r[0] == v);
        assert forall|x: i64| r.contains(x) <==> s.contains(x) || x == v by {
            if s.contains(x) {
                let i = choose|i: int| 0 <= i < s.len() && s[i] == x;
            }
            if r.contains(x) {
                let i = choose|i: int| 0 <= i < r.len() && r[i] == x;
                assert(x == v);
            }
            if x == v {
                assert(r[0] == x);
            }
        }
    } else if v > s.last() {
        assert(forall|i: int| 0 <= i < s.len() ==> s[i] <= s.last());
        assert forall|x: i64| r.contains(x) <==> s.contains(x) || x == v by {
            lemma_seq_push_contains(s, v, x);
        }
    } else if v == s.last() {
        assert(s.contains(v)) by {
            assert(s[s.len() - 1] == v);
        }
    } else {
        let s0 = s.drop_last();
        assert(strictly_increasing(s0));
        lemma_insert_sorted_props(s0, v);
        let r0 = insert_sorted(s0, v);
        assert(r == r0.push(s.last()));
        assert forall|i: int| 0 <= i < r0.len() implies r0[i] < s.last() by {
            assert(r0.contains(r0[i]));
            if s0.contains(r0[i]) {
                let k = choose|k: int| 0 <= k < s0.len() && s0[k] == r0[i];
                assert(s[k] == r0[i]);
                assert(s[k] < s.last());
            }
        }
        assert(strictly_increasing(r)) by {
            assert(forall|i: int, j: int|
                0 <= i < j < r.len() && j < r0.len() ==> r[i] == r0[i] && r[j] == r0[j]);
        }
        assert forall|x: i64| r.contains(x) <==> s.contains(x) || x == v by {
            lemma_seq_push_contains(r0, s.last(), x);
            lemma_seq_push_contains(s0, s.last(), x);
            assert(s0.push(s.last()) =~= s);
        }
    }
}

/// The sorted-dedup image is strictly increasing with the same contents.
pub proof fn lemma_sorted_dedup_props(vals: Seq<i64>)
    ensures
        strictly_increasing(sorted_dedup(vals)),
        forall|x: i64| sorted_dedup(vals).contains(x) <==> vals.contains(x),
    decreases vals.len(),
{
    if vals.len() > 0 {
        lemma_sorted_dedup_props(vals.drop_last());
        lemma_insert_sorted_props(sorted_dedup(vals.drop_last()), vals.last());
        assert forall|x: i64| sorted_dedup(vals).contains(x) <==> vals.contains(x) by {
            lemma_seq_push_contains(vals.drop_last(), vals.last(), x);
            assert(vals.drop_last().push(vals.last()) =~= vals);
        }
    }
}

/// A list-parse error on a prefix settles the whole list.
proof fn lemma_parse_list_err_prefix(items: Seq<Seq<char>>, k: int)
    requires
        0 <= k <= items.len(),
        parse_list_spec(items.subrange(0, k)) is Err,
    ensures
        parse_list_spec(items) == parse_list_spec(items.subrange(0, k)),
    decreases items.len() - k,
{
    if k < items.len() {
        assert(items.subrange(0, k + 1).drop_last() =~= items.subrange(0, k));
        assert(items.subrange(0, k + 1).last() == items[k]);
        lemma_parse_list_err_prefix(items, k + 1);
    } else {
        assert(items.subrange(0, k) =~= items);
    }
}

/// Where an insertion lands in a strictly increasing sequence.
proof fn lemma_insert_sorted_at(s: Seq<i64>, v: i64, j: int)
    requires
        strictly_increasing(s),
        0 <= j <= s.len(),
        forall|k: int| 0 <= k < j ==> s[k] < v,
        j < s.len() ==> s[j] >= v,
    ensures
        j < s.len() && s[j] == v ==> insert_sorted(s, v) == s,
        !(j < s.len() && s[j] == v) ==> insert_sorted(s, v) == s.subrange(0, j) + seq![v]
            + s.subrange(j, s.len() as int),
    decreases s.len(),
{
    if s.len() == 0 {
        assert(insert_sorted(s, v) =~= s.subrange(0, j) + seq![v] + s.subrange(j, s.len() as int));
    } else if j == s.len() {
        assert(s.last() < v);
        assert(insert_sorted(s, v) == s.push(v));
        assert(s.push(v) =~= s.subrange(0, j) + seq![v] + s.subrange(j, s.len() as int));
    } else if j == s.len() - 1 && s[j] == v {
        assert(insert_sorted(s, v) == s);
    } else {
        assert(s[j] >= v);
        assert(j < s.len() - 1 ==> s[j] < s.last());
        assert(v < s.last() || (v == s.last() && j < s.len() - 1));
        if v == s.last() && j < s.len() - 1 {
            assert(s[j] >= v && s[j] < s.last());
            assert(false);
        }
        let s0 = s.drop_last();
        assert(strictly_increasing(s0));
        assert(j <= s0.len());
        assert(forall|k: int| 0 <= k < j ==> s0[k] == s[k]);
        assert(j < s0.len() ==> s0[j] == s[j]);
        lemma_insert_sorted_at(s0, v, j);
        if j < s0.len() && s0[j] == v {
            assert(insert_sorted(s, v) == s0.push(s.last()));
            assert(s0.push(s.last()) =~= s);
        } else {
            assert(insert_sorted(s0, v) == s0.subrange(0, j) + seq![v] + s0.subrange(
                j,
                s0.len() as int,
            ));
            assert(insert_sorted(s, v) == insert_sorted(s0, v).push(s.last()));
            assert(insert_sorted(s0, v).push(s.last()) =~= s.subrange(0, j) + seq![v] + s.subrange(
                j,
                s.len() as int,
            ));
        }
    }
}

/// Parse range-bound text: spaces stripped, decimal, fits `i64`.
fn parse_bound(text: &String) -> (r: Option<i64>)
    ensures
        match r {
            Some(x) => bound_spec(text@) == Some(x as int),
            None => bound_spec(text@) is None,
        },
{
    parse_stripped(text.as_str(), false)
}

/// Insert a value into a strictly increasing vector, keeping it so.
fn insert_sorted_exec(out: &mut Vec<i64>, v: i64)
    requires
        strictly_increasing(old(out)@),
    ensures
        final(out)@ == insert_sorted(old(out)@, v),
        strictly_increasing(final(out)@),
{
    let mut j: usize = 0;
    while j < out.len() && out[j] < v
        invariant
            j <= out@.len(),
            strictly_increasing(out@),
            out@ == old(out)@,
            forall|k: int| 0 <= k < j ==> out@[k] < v,
        decreases out@.len() - j,
    {
        j = j + 1;
    }
    proof {
        lemma_insert_sorted_at(out@, v, j as int);
        lemma_insert_sorted_props(out@, v);
    }
    if j < out.len() && out[j] == v {
        return ;
    }
    out.insert(j, v);
    proof {
        assert(out@ =~= old(out)@.subrange(0, j as int) + seq![v] + old(out)@.subrange(
            j as int,
            old(out)@.len() as int,
        ));
    }
}

/// Resolve a domain descriptor into its numeric domain.
///
/// Succeeds exactly when every bound or element parses; the result is the
/// strictly increasing, duplicate-free domain the descriptor denotes.
pub fn build_domain(d: &DomainDescriptor) -> (r: Result<Vec<i64>, Error>)
    ensures
        match r {
            Ok(v) => domain_spec(d@) == Ok::<Seq<i64>, ErrorModel>(v@) && strictly_increasing(v@),
            Err(e) => domain_spec(d@) == Err::<Seq<i64>, ErrorModel>(e@),
        },
{
    match d {
        DomainDescriptor::Range { start, end, inclusive } => {
            let lo: i64 = match start {
                Some(t) => match parse_bound(t) {
                    Some(x) => x,
                    None => {
                        return Err(Error::MalformedBound(t.clone()));
                    },
                },
                None => 0,
            };
            let hi: i64 = match end {
                Some(t) => match parse_bound(t) {
                    Some(x) => x,
                    None => {
                        return Err(Error::MalformedBound(t.clone()));
                    },
                },
                None => i64::MAX,
            };
            let mut out: Vec<i64> = Vec::new();
            if *inclusive {
                if lo <= hi {
                    let mut x: i64 = lo;
                    loop
                        invariant_except_break
                            out@ == range_seq(lo as int, (x - lo) as nat),
                        invariant
                            lo <= x <= hi,
                        ensures
                            out@ == range_seq(lo as int, (hi - lo + 1) as nat),
                        decreases hi - x,
                    {
                        out.push(x);
                        proof {
                            assert(out@ =~= range_seq(lo as int, (x - lo + 1) as nat));
                        }
                        if x == hi {
                            break ;
                        }
                        x = x + 1;
                    }
                }
                proof {
                    if lo > hi {
                        assert(out@ =~= range_seq(lo as int, 0nat));
                    }
                }
                Ok(out)
            } else {
                let mut x: i64 = lo;
                while x < hi
                    invariant
                        lo <= x <= hi || (x == lo && lo >= hi),
                        out@ == range_seq(lo as int, if x >= lo { (x - lo) as nat } else { 0nat }),
                    decreases hi - x,
                {
                    out.push(x);
                    proof {
                        assert(out@ =~= range_seq(lo as int, (x - lo + 1) as nat));
                    }
                    x = x + 1;
                }
                proof {
                    if lo >= hi {
                        assert(out@ =~= range_seq(lo as int, 0nat));
                    }
                }
                Ok(out)
            }
        },
        DomainDescriptor::List(items) => {
            let ghost texts = texts_of(items@);
            let mut out: Vec<i64> = Vec::new();
            let ghost mut vals: Seq<i64> = Seq::empty();
            let mut idx: usize = 0;
            while idx < items.len()
                invariant
                    idx <= items@.len(),
                    texts == texts_of(items@),
                    texts.len() == items@.len(),
                    d@ == DescriptorModel::List(texts),
                    parse_list_spec(texts.subrange(0, idx as int)) == Ok::<Seq<i64>, ErrorModel>(
                        vals,
                    ),
                    out@ == sorted_dedup(vals),
                    strictly_increasing(out@),
                decreases items@.len() - idx,
            {
                proof {
                    assert(texts.subrange(0, idx + 1).drop_last() =~= texts.subrange(
                        0,
                        idx as int,
                    ));
                    assert(texts.subrange(0, idx + 1).last() == texts[idx as int]);
                    assert(texts[idx as int] == items@[idx as int]@);
                }
                let item: &String = &items[idx];
                match parse_stripped(item.as_str(), true) {
                    Some(v) => {
                        proof {
                            let prev = vals;
                            vals = vals.push(v);
                            assert(vals.drop_last() =~= prev);
                            assert(sorted_dedup(vals) == insert_sorted(sorted_dedup(prev), v));
                        }
                        insert_sorted_exec(&mut out, v);
                    },
                    None => {
                        proof {
                            assert(parse_list_spec(texts.subrange(0, idx + 1)) == Err::<
                                Seq<i64>,
                                ErrorModel,
                            >(ErrorModel::MalformedLiteral(item@)));
                            lemma_parse_list_err_prefix(texts, idx + 1);
                        }
                        return Err(Error::MalformedLiteral(item.clone()));
                    },
                }
                idx = idx + 1;
            }
            proof {
                assert(texts.subrange(0, idx as int) =~= texts);
            }
            Ok(out)
        },
    }
}

} // verus!
