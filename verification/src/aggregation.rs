//! Grouping by dense codes and the aggregation kernels.

use crate::int_like::{values_of, Buf, EncodingType, IntLike, Packed};
use crate::query_plan::{prepare, QueryPlan};
use crate::raw_val::{BasicType, RawVal};
use crate::typed_vec::{gather, index_list, TypedVec, VecView};
use crate::types::{Aggregator, QueryError, Type};
use crate::vector_operator::{BoxedOperator, VecOperator};
use vstd::prelude::*;

verus! {

/// The number of rows of the group `k`.
pub open spec fn group_count(groups: Seq<int>, k: int) -> int
    decreases groups.len(),
{
    if groups.len() == 0 {
        0
    } else {
        group_count(groups.drop_last(), k) + if groups.last() == k {
            1int
        } else {
            0int
        }
    }
}

/// The sum of the values of the rows of the group `k`.
pub open spec fn group_sum(groups: Seq<int>, values: Seq<int>, k: int) -> int
    decreases groups.len(),
{
    if groups.len() == 0 {
        0
    } else {
        group_sum(groups.drop_last(), values, k) + if groups.last() == k {
            values[groups.len() - 1]
        } else {
            0int
        }
    }
}

/// The row counts of the groups `0..n`.
pub open spec fn counts(groups: Seq<int>, n: nat) -> Seq<int> {
    Seq::new(n, |k: int| group_count(groups, k))
}

/// The sums of the groups `0..n`.
pub open spec fn sums(groups: Seq<int>, values: Seq<int>, n: nat) -> Seq<int> {
    Seq::new(n, |k: int| group_sum(groups, values, k))
}

/// Whether every element fits in 64 bits.
pub open spec fn fits_i64(s: Seq<int>) -> bool {
    forall|k: int| 0 <= k < s.len() ==> i64::MIN <= #[trigger] s[k] <= i64::MAX
}

/// The sum of the elements.
pub open spec fn total(s: Seq<int>) -> int
    decreases s.len(),
{
    if s.len() == 0 {
        0
    } else {
        total(s.drop_last()) + s.last()
    }
}

/// Adding `d` to one element adds `d` to the sum.
pub proof fn lemma_total_update(s: Seq<int>, k: int, d: int)
    requires
        0 <= k < s.len(),
    ensures
        total(s.update(k, s[k] + d)) == total(s) + d,
    decreases s.len(),
{
    let t = s.update(k, s[k] + d);
    if k == s.len() - 1 {
        assert(t.drop_last() =~= s.drop_last());
    } else {
        lemma_total_update(s.drop_last(), k, d);
        assert(t.drop_last() =~= s.drop_last().update(k, s[k] + d));
    }
}

/// The sum of `n` zeros is zero.
pub proof fn lemma_total_zeros(n: nat)
    ensures
        total(Seq::new(n, |k: int| 0int)) == 0,
    decreases n,
{
    if n > 0 {
        lemma_total_zeros((n - 1) as nat);
        assert(Seq::new(n, |k: int| 0int).drop_last() =~= Seq::new((n - 1) as nat, |k: int| 0int));
    }
}

/// Every row is counted in exactly one group: the counts of the groups add
/// up to the number of rows.
pub proof fn lemma_counts_total(groups: Seq<int>, n: nat)
    requires
        forall|i: int| 0 <= i < groups.len() ==> 0 <= #[trigger] groups[i] < n,
    ensures
        counts(groups, n).len() == n,
        total(counts(groups, n)) == groups.len(),
        forall|k: int| 0 <= k < n ==> 0 <= #[trigger] counts(groups, n)[k] <= groups.len(),
    decreases groups.len(),
{
    if groups.len() == 0 {
        lemma_total_zeros(n);
        assert(counts(groups, n) =~= Seq::new(n, |k: int| 0int));
    } else {
        let rest = groups.drop_last();
        let g = groups.last();
        assert forall|i: int| 0 <= i < rest.len() implies 0 <= #[trigger] rest[i] < n by {
            assert(rest[i] == groups[i]);
        }
        lemma_counts_total(rest, n);
        let before = counts(rest, n);
        lemma_total_update(before, g, 1);
        assert(counts(groups, n) =~= before.update(g, before[g] + 1));
    }
}

/// Taking one element out lowers the sum by that element.
pub proof fn lemma_total_remove(s: Seq<int>, p: int)
    requires
        0 <= p < s.len(),
    ensures
        total(s) == total(s.remove(p)) + s[p],
    decreases s.len(),
{
    if p == s.len() - 1 {
        assert(s.remove(p) =~= s.drop_last());
    } else {
        lemma_total_remove(s.drop_last(), p);
        assert(s.remove(p).drop_last() =~= s.drop_last().remove(p));
        assert(s.remove(p).last() == s.last());
    }
}

/// The sum does not depend on the order: the elements of `s`, each picked
/// once in the order of `rank`, add up to the sum of `s`.
pub proof fn lemma_total_permuted(s: Seq<int>, rank: Seq<usize>)
    requires
        s.len() <= usize::MAX,
        rank.to_multiset() == crate::query::row_numbers(s.len()).to_multiset(),
    ensures
        total(gather(s, index_list(rank))) == total(s),
        rank.len() == s.len(),
    decreases s.len(),
{
    broadcast use vstd::seq_lib::group_to_multiset_ensures;

    let n = s.len();
    let all = crate::query::row_numbers(n);
    vstd::seq_lib::to_multiset_len(rank);
    vstd::seq_lib::to_multiset_len(all);
    let picked = gather(s, index_list(rank));
    if n == 0 {
        assert(picked =~= s);
    } else {
        let top = (n - 1) as usize;
        let fewer = crate::query::row_numbers((n - 1) as nat);
        assert(all =~= fewer.push(top));
        assert(all[n - 1] == top);
        assert(all.contains(top));
        assert(rank.to_multiset().count(top) > 0);
        assert(rank.contains(top));
        let p = choose|p: int| 0 <= p < rank.len() && rank[p] == top;
        let rest = rank.remove(p);
        assert(rest.to_multiset() =~= rank.to_multiset().remove(top));
        assert(all.remove(n - 1) =~= fewer);
        assert(fewer.to_multiset() =~= all.to_multiset().remove(top));
        assert(rest.to_multiset() == fewer.to_multiset());
        assert forall|k: int| 0 <= k < rest.len() implies #[trigger] rest[k] < n - 1 by {
            assert(rest.contains(rest[k]));
            assert(rest.to_multiset().count(rest[k]) > 0);
            assert(fewer.contains(rest[k]));
            let j = choose|j: int| 0 <= j < fewer.len() && fewer[j] == rest[k];
        }
        lemma_total_permuted(s.drop_last(), rest);
        lemma_total_remove(picked, p);
        assert(picked.remove(p) =~= gather(s.drop_last(), index_list(rest))) by {
            assert forall|k: int| 0 <= k < rest.len() implies picked.remove(p)[k] == gather(
                s.drop_last(),
                index_list(rest),
            )[k] by {
                assert(rest[k] < n - 1);
                if k < p {
                    assert(rest[k] == rank[k]);
                } else {
                    assert(rest[k] == rank[k + 1]);
                }
            }
        }
        assert(picked[p] == s[n - 1]);
    }
}

/// However the groups are ordered, the counts that come out add up to the
/// number of rows that were counted, and there is one count per group.
pub proof fn lemma_counts_add_up(groups: Seq<int>, n: nat, rank: Seq<usize>)
    requires
        n <= usize::MAX,
        forall|i: int| 0 <= i < groups.len() ==> 0 <= #[trigger] groups[i] < n,
        rank.to_multiset() == crate::query::row_numbers(n).to_multiset(),
    ensures
        gather(counts(groups, n), index_list(rank)).len() == n,
        total(gather(counts(groups, n), index_list(rank))) == groups.len(),
{
    lemma_counts_total(groups, n);
    lemma_total_permuted(counts(groups, n), rank);
}

/// The accumulators as integers.
pub open spec fn wide(acc: Seq<i128>) -> Seq<int> {
    Seq::new(acc.len(), |k: int| acc[k] as int)
}

/// Counts the rows of each group.
pub fn count_kernel<T: Packed>(groups: &Vec<T>, n: usize) -> (acc: Vec<i128>)
    requires
        forall|i: int| 0 <= i < groups@.len() ==> (#[trigger] groups@[i]).value() < n,
    ensures
        wide(acc@) == counts(values_of(groups@), n as nat),
{
    let ghost gs = values_of(groups@);
    let mut acc: Vec<i128> = Vec::with_capacity(n);
    let mut k: usize = 0;
    while k < n
        invariant
            k <= n,
            acc@.len() == k,
            forall|j: int| 0 <= j < k ==> #[trigger] acc@[j] == 0,
        decreases n - k,
    {
        acc.push(0);
        k += 1;
    }
    assert(gs.take(0) =~= Seq::<int>::empty());
    let mut i: usize = 0;
    while i < groups.len()
        invariant
            i <= groups.len(),
            gs == values_of(groups@),
            acc@.len() == n,
            forall|j: int| 0 <= j < groups@.len() ==> (#[trigger] groups@[j]).value() < n,
            forall|k: int| 0 <= k < n ==> #[trigger] acc@[k] == group_count(gs.take(i as int), k),
            forall|k: int| 0 <= k < n ==> 0 <= #[trigger] acc@[k] <= i,
        decreases groups.len() - i,
    {
        let g = groups[i];
        proof {
            g.lemma_range();
            assert(groups@[i as int].value() < n);
            assert(gs.take(i + 1).drop_last() =~= gs.take(i as int));
        }
        let slot = g.to_usize();
        let old = acc[slot];
        acc.set(slot, old + 1);
        i += 1;
    }
    assert(gs.take(groups.len() as int) =~= gs);
    assert(wide(acc@) =~= counts(gs, n as nat));
    acc
}

/// Adds the value of each row to the accumulator of its group.
pub fn sum_kernel<T: Packed>(groups: &Vec<T>, values: &Vec<i64>, n: usize) -> (acc: Vec<i128>)
    requires
        groups@.len() == values@.len(),
        forall|i: int| 0 <= i < groups@.len() ==> (#[trigger] groups@[i]).value() < n,
    ensures
        wide(acc@) == sums(values_of(groups@), values_of(values@), n as nat),
{
    let ghost gs = values_of(groups@);
    let ghost vs = values_of(values@);
    let mut acc: Vec<i128> = Vec::with_capacity(n);
    let mut k: usize = 0;
    while k < n
        invariant
            k <= n,
            acc@.len() == k,
            forall|j: int| 0 <= j < k ==> #[trigger] acc@[j] == 0,
        decreases n - k,
    {
        acc.push(0);
        k += 1;
    }
    assert(gs.take(0) =~= Seq::<int>::empty());
    let mut i: usize = 0;
    while i < groups.len()
        invariant
            i <= groups.len(),
            gs == values_of(groups@),
            vs == values_of(values@),
            groups@.len() == values@.len(),
            acc@.len() == n,
            forall|j: int| 0 <= j < groups@.len() ==> (#[trigger] groups@[j]).value() < n,
            forall|k: int| 0 <= k < n ==> #[trigger] acc@[k] == group_sum(gs.take(i as int), vs, k),
            forall|k: int|
                0 <= k < n ==> -(i * 0x8000_0000_0000_0000) <= #[trigger] acc@[k] <= i
                    * 0x8000_0000_0000_0000,
        decreases groups.len() - i,
    {
        let g = groups[i];
        proof {
            g.lemma_range();
            assert(groups@[i as int].value() < n);
            assert(gs.take(i + 1).drop_last() =~= gs.take(i as int));
        }
        let slot = g.to_usize();
        let old = acc[slot];
        acc.set(slot, old + values[i] as i128);
        i += 1;
    }
    assert(gs.take(groups.len() as int) =~= gs);
    assert(wide(acc@) =~= sums(gs, vs, n as nat));
    acc
}

/// The accumulators at 64 bits, where each of them fits.
pub fn finish(acc: Vec<i128>) -> (r: Result<Vec<i64>, QueryError>)
    ensures
        match r {
            Ok(v) => fits_i64(wide(acc@)) && values_of(v@) == wide(acc@),
            Err(e) => e == QueryError::FatalError && !fits_i64(wide(acc@)),
        },
{
    let mut v: Vec<i64> = Vec::with_capacity(acc.len());
    let mut k: usize = 0;
    while k < acc.len()
        invariant
            k <= acc.len(),
            v@.len() == k,
            forall|j: int| 0 <= j < k ==> #[trigger] v@[j] == acc@[j],
        decreases acc.len() - k,
    {
        let x = acc[k];
        if x < i64::MIN as i128 || x > i64::MAX as i128 {
            assert(!(i64::MIN <= wide(acc@)[k as int] <= i64::MAX));
            return Err(QueryError::FatalError);
        }
        v.push(x as i64);
        k += 1;
    }
    assert(values_of(v@) =~= wide(acc@));
    assert(fits_i64(wide(acc@))) by {
        assert forall|k: int| 0 <= k < wide(acc@).len() implies i64::MIN <= #[trigger] wide(acc@)[k]
            <= i64::MAX by {
            assert(v@[k] == acc@[k]);
        }
    }
    Ok(v)
}

/// Whether a vector can be grouped by: it holds codes of 8 or of 16 bits.
pub open spec fn groupable(v: VecView) -> bool {
    v.is_codes(EncodingType::U8) || v.is_codes(EncodingType::U16)
}

/// The codes `0..n`.
pub open spec fn all_codes(n: nat) -> Seq<int> {
    Seq::new(n, |k: int| k)
}

/// The number of groups of a grouping key, and the codes of the groups,
/// which are all the codes of the key's scheme in ascending order.
pub fn grouping<'a>(key: &TypedVec<'a>) -> (r: (usize, TypedVec<'a>))
    requires
        key.wf(),
        groupable(key@),
    ensures
        key@ matches VecView::Encoded(enc, _, scheme) && r.0 == scheme.cardinality() && r.1@
            == VecView::Encoded(enc, all_codes(r.0 as nat), scheme),
        r.1.wf(),
{
    match key {
        TypedVec::EncodedU8(_, scheme) => {
            let n = scheme.cardinality() as usize;
            let mut codes: Vec<u8> = Vec::with_capacity(n);
            let mut k: usize = 0;
            while k < n
                invariant
                    k <= n <= 256,
                    codes@.len() == k,
                    forall|j: int| 0 <= j < k ==> #[trigger] codes@[j] == j,
                decreases n - k,
            {
                codes.push(k as u8);
                k += 1;
            }
            assert(values_of(codes@) =~= all_codes(n as nat));
            (n, TypedVec::EncodedU8(Buf::Owned(codes), *scheme))
        },
        TypedVec::EncodedU16(_, scheme) => {
            let n = scheme.cardinality() as usize;
            let mut codes: Vec<u16> = Vec::with_capacity(n);
            let mut k: usize = 0;
            while k < n
                invariant
                    k <= n <= 65536,
                    codes@.len() == k,
                    forall|j: int| 0 <= j < k ==> #[trigger] codes@[j] == j,
                decreases n - k,
            {
                codes.push(k as u16);
                k += 1;
            }
            assert(values_of(codes@) =~= all_codes(n as nat));
            (n, TypedVec::EncodedU16(Buf::Owned(codes), *scheme))
        },
        _ => unreached(),
    }
}

/// COUNT grouped by a key: one count per group.
pub struct VecCount<'b, 'a> {
    pub grouping: &'b TypedVec<'a>,
    pub group_count: usize,
}

/// SUM grouped by a key: one sum per group.
pub struct VecSum<'b, 'a> {
    pub values: BoxedOperator<'a>,
    pub grouping: &'b TypedVec<'a>,
    pub group_count: usize,
}

/// An aggregation over the rows of a grouping key.
pub enum Aggregation<'b, 'a> {
    Count(VecCount<'b, 'a>),
    Sum(VecSum<'b, 'a>),
}

/// Whether `grouping` is a grouping key with `group_count` groups.
pub open spec fn grouping_wf(grouping: &TypedVec, group_count: usize) -> bool {
    &&& grouping.wf()
    &&& groupable(grouping@)
    &&& grouping@ matches VecView::Encoded(_, _, scheme) && scheme.cardinality() == group_count
}

impl<'b, 'a> VecCount<'b, 'a> {
    pub fn new(grouping: &'b TypedVec<'a>, group_count: usize) -> (r: Self)
        ensures
            r.grouping == grouping,
            r.group_count == group_count,
    {
        VecCount { grouping, group_count }
    }

    pub open spec fn wf(&self) -> bool {
        grouping_wf(self.grouping, self.group_count)
    }

    /// The count of each group.
    pub open spec fn output(&self) -> Seq<int> {
        counts(self.grouping@.ints(), self.group_count as nat)
    }

    /// Counts the rows of each group.
    pub fn execute(&self) -> (r: Result<TypedVec<'a>, QueryError>)
        requires
            self.wf(),
        ensures
            match r {
                Ok(v) => fits_i64(self.output()) && v@ == VecView::Integer(self.output()),
                Err(e) => e == QueryError::FatalError && !fits_i64(self.output()),
            },
    {
        let acc = match self.grouping {
            TypedVec::EncodedU8(b, _) => {
                assert forall|i: int| 0 <= i < b@.len() implies (#[trigger] b@[i]).value()
                    < self.group_count by {
                    assert(self.grouping@.ints()[i] == b@[i].value());
                }
                count_kernel(b.as_vec(), self.group_count)
            },
            TypedVec::EncodedU16(b, _) => {
                assert forall|i: int| 0 <= i < b@.len() implies (#[trigger] b@[i]).value()
                    < self.group_count by {
                    assert(self.grouping@.ints()[i] == b@[i].value());
                }
                count_kernel(b.as_vec(), self.group_count)
            },
            _ => unreached(),
        };
        match finish(acc) {
            Ok(v) => Ok(TypedVec::Integer(Buf::Owned(v))),
            Err(e) => Err(e),
        }
    }
}

impl<'b, 'a> VecSum<'b, 'a> {
    pub fn new(values: BoxedOperator<'a>, grouping: &'b TypedVec<'a>, group_count: usize) -> (r: Self)
        ensures
            r.values == values,
            r.grouping == grouping,
            r.group_count == group_count,
    {
        VecSum { values, grouping, group_count }
    }

    pub open spec fn wf(&self) -> bool {
        &&& grouping_wf(self.grouping, self.group_count)
        &&& self.values.wf()
        &&& self.values.output() is Integer
        &&& self.values.output().len() == self.grouping@.len()
    }

    /// The sum of each group.
    pub open spec fn output(&self) -> Seq<int> {
        sums(self.grouping@.ints(), self.values.output().ints(), self.group_count as nat)
    }

    /// Adds up the values of each group. A sum that does not fit in 64 bits
    /// ends the query.
    pub fn execute(&self) -> (r: Result<TypedVec<'a>, QueryError>)
        requires
            self.wf(),
        ensures
            match r {
                Ok(v) => fits_i64(self.output()) && v@ == VecView::Integer(self.output()),
                Err(e) => e == QueryError::FatalError && !fits_i64(self.output()),
            },
    {
        let values = self.values.execute();
        let acc = match self.grouping {
            TypedVec::EncodedU8(b, _) => {
                assert forall|i: int| 0 <= i < b@.len() implies (#[trigger] b@[i]).value()
                    < self.group_count by {
                    assert(self.grouping@.ints()[i] == b@[i].value());
                }
                sum_kernel(b.as_vec(), values.cast_ref_i64(), self.group_count)
            },
            TypedVec::EncodedU16(b, _) => {
                assert forall|i: int| 0 <= i < b@.len() implies (#[trigger] b@[i]).value()
                    < self.group_count by {
                    assert(self.grouping@.ints()[i] == b@[i].value());
                }
                sum_kernel(b.as_vec(), values.cast_ref_i64(), self.group_count)
            },
            _ => unreached(),
        };
        match finish(acc) {
            Ok(v) => Ok(TypedVec::Integer(Buf::Owned(v))),
            Err(e) => Err(e),
        }
    }
}

impl<'b, 'a> Aggregation<'b, 'a> {
    pub open spec fn wf(&self) -> bool {
        match self {
            Aggregation::Count(op) => op.wf(),
            Aggregation::Sum(op) => op.wf(),
        }
    }

    /// The aggregate of each group.
    pub open spec fn output(&self) -> Seq<int> {
        match self {
            Aggregation::Count(op) => op.output(),
            Aggregation::Sum(op) => op.output(),
        }
    }

    /// Computes the aggregate of each group.
    pub fn execute(&self) -> (r: Result<TypedVec<'a>, QueryError>)
        requires
            self.wf(),
        ensures
            match r {
                Ok(v) => fits_i64(self.output()) && v@ == VecView::Integer(self.output()),
                Err(e) => e == QueryError::FatalError && !fits_i64(self.output()),
            },
    {
        match self {
            Aggregation::Count(op) => op.execute(),
            Aggregation::Sum(op) => op.execute(),
        }
    }
}

/// What an aggregator computes from the result of its plan over the rows of
/// a grouping key: COUNT takes an integer constant and counts the rows of
/// each group; SUM takes a vector of integers and adds them up by group.
/// `None` where the aggregator does not take such a plan.
pub open spec fn aggregate(
    aggregator: Aggregator,
    plan: QueryPlan,
    plan_type: Type,
    groups: Seq<int>,
    group_count: nat,
) -> Option<Seq<int>> {
    match aggregator {
        Aggregator::Count => if plan matches QueryPlan::Constant(RawVal::Int(_)) {
            Some(counts(groups, group_count))
        } else {
            None
        },
        Aggregator::Sum => if plan_type.decoded == BasicType::Integer && !plan_type.is_scalar {
            Some(sums(groups, plan.result().decoded().ints(), group_count))
        } else {
            None
        },
    }
}

/// Lowers an aggregation to its kernel, or refuses the pairing of
/// aggregator and plan.
pub fn prepare_aggregation<'a, 'b>(
    plan: QueryPlan<'a>,
    plan_type: Type<'a>,
    grouping: &'b TypedVec<'a>,
    group_count: usize,
    aggregator: Aggregator,
) -> (r: Result<Aggregation<'b, 'a>, QueryError>)
    requires
        plan.wf(),
        plan_type.describes(plan.result(), grouping@.len()),
        grouping_wf(grouping, group_count),
    ensures
        match r {
            Ok(op) => op.wf() && aggregate(
                aggregator,
                plan,
                plan_type,
                grouping@.ints(),
                group_count as nat,
            ) == Some(op.output()),
            Err(e) => e == QueryError::UnsupportedQuery && aggregate(
                aggregator,
                plan,
                plan_type,
                grouping@.ints(),
                group_count as nat,
            ) is None,
        },
{
    match aggregator {
        Aggregator::Count => match plan {
            QueryPlan::Constant(RawVal::Int(_)) => Ok(
                Aggregation::Count(VecCount::new(grouping, group_count)),
            ),
            _ => Err(QueryError::UnsupportedQuery),
        },
        Aggregator::Sum => {
            if plan_type.decoded == BasicType::Integer && !plan_type.is_scalar {
                let ghost result = plan.result();
                let values = if plan_type.is_encoded() {
                    prepare(QueryPlan::Decode(Box::new(plan)))
                } else {
                    prepare(plan)
                };
                assert(values.output() == result.decoded());
                Ok(Aggregation::Sum(VecSum::new(values, grouping, group_count)))
            } else {
                Err(QueryError::UnsupportedQuery)
            }
        },
    }
}

} // verus!
