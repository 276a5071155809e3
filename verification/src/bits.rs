//! Packed bit-vectors: the boundary to the `bit_vec` crate, and the verified
//! helpers that the operators build on it.

use bit_vec::BitVec;
use vstd::prelude::*;

verus! {

/// `bit_vec::BitVec`: a vector of bits, packed into blocks of the type `B`.
/// Nothing is known of what a value holds but through `bits`.
#[verifier::external_type_specification]
#[verifier::external_body]
#[verifier::reject_recursive_types(B)]
pub struct ExBitVec<B>(BitVec<B>);

/// The bits that a bit-vector holds, first pushed first.
pub uninterp spec fn bits(bv: &BitVec) -> Seq<bool>;

/// `BitVec::with_capacity`: a bit-vector that holds no bits yet, whatever
/// room was reserved.
#[verifier::external_body]
pub(crate) fn bv_with_capacity(nbits: usize) -> (bv: BitVec)
    ensures
        bits(&bv) == Seq::<bool>::empty(),
{
    BitVec::with_capacity(nbits)
}

/// `BitVec::push`: appends one bit. The crate panics when the length would
/// pass `usize::MAX`, which the precondition excludes.
#[verifier::external_body]
pub(crate) fn bv_push(bv: &mut BitVec, elem: bool)
    requires
        bits(old(bv)).len() < usize::MAX,
    ensures
        bits(final(bv)) == bits(old(bv)).push(elem),
{
    bv.push(elem)
}

/// `BitVec::len`: the number of bits held.
#[verifier::external_body]
pub(crate) fn bv_len(bv: &BitVec) -> (n: usize)
    ensures
        n == bits(bv).len(),
{
    bv.len()
}

/// `BitVec::get`: the bit at position `i`, or `None` past the end.
#[verifier::external_body]
pub(crate) fn bv_get(bv: &BitVec, i: usize) -> (r: Option<bool>)
    ensures
        r == (if i < bits(bv).len() { Some(bits(bv)[i as int]) } else { None }),
{
    bv.get(i)
}

/// `BitVec::union`: element-wise OR into `a`. Both must hold the same number
/// of bits, else the crate panics. The result says whether `a` changed.
#[verifier::external_body]
#[allow(deprecated)]
pub(crate) fn bv_union(a: &mut BitVec, b: &BitVec) -> (changed: bool)
    requires
        bits(old(a)).len() == bits(b).len(),
    ensures
        bits(final(a)) == bitwise_or(bits(old(a)), bits(b)),
        changed == (bits(final(a)) != bits(old(a))),
{
    a.union(b)
}

/// `BitVec::intersect`: element-wise AND into `a`. Both must hold the same
/// number of bits, else the crate panics. The result says whether `a` changed.
#[verifier::external_body]
#[allow(deprecated)]
pub(crate) fn bv_intersect(a: &mut BitVec, b: &BitVec) -> (changed: bool)
    requires
        bits(old(a)).len() == bits(b).len(),
    ensures
        bits(final(a)) == bitwise_and(bits(old(a)), bits(b)),
        changed == (bits(final(a)) != bits(old(a))),
{
    a.intersect(b)
}

/// Element-wise OR of two bit sequences of equal length.
pub open spec fn bitwise_or(a: Seq<bool>, b: Seq<bool>) -> Seq<bool> {
    Seq::new(a.len(), |i: int| a[i] || b[i])
}

/// Element-wise AND of two bit sequences of equal length.
pub open spec fn bitwise_and(a: Seq<bool>, b: Seq<bool>) -> Seq<bool> {
    Seq::new(a.len(), |i: int| a[i] && b[i])
}

/// AND and OR of bit sequences of equal length do not depend on the order
/// of their operands.
pub proof fn lemma_bitwise_commutative(a: Seq<bool>, b: Seq<bool>)
    requires
        a.len() == b.len(),
    ensures
        bitwise_or(a, b) == bitwise_or(b, a),
        bitwise_and(a, b) == bitwise_and(b, a),
{
    assert(bitwise_or(a, b) =~= bitwise_or(b, a));
    assert(bitwise_and(a, b) =~= bitwise_and(b, a));
}

/// AND and OR of bit sequences of equal length do not depend on how
/// their operands are grouped.
pub proof fn lemma_bitwise_associative(a: Seq<bool>, b: Seq<bool>, c: Seq<bool>)
    requires
        a.len() == b.len(),
        b.len() == c.len(),
    ensures
        bitwise_or(bitwise_or(a, b), c) == bitwise_or(a, bitwise_or(b, c)),
        bitwise_and(bitwise_and(a, b), c) == bitwise_and(a, bitwise_and(b, c)),
{
    assert(bitwise_or(bitwise_or(a, b), c) =~= bitwise_or(a, bitwise_or(b, c)));
    assert(bitwise_and(bitwise_and(a, b), c) =~= bitwise_and(a, bitwise_and(b, c)));
}

/// The number of set bits.
pub open spec fn count_ones(mask: Seq<bool>) -> nat
    decreases mask.len(),
{
    if mask.len() == 0 {
        0
    } else {
        count_ones(mask.drop_last()) + if mask.last() { 1nat } else { 0nat }
    }
}

/// The positions of the set bits, ascending.
pub open spec fn set_positions(mask: Seq<bool>) -> Seq<int>
    decreases mask.len(),
{
    if mask.len() == 0 {
        Seq::empty()
    } else if mask.last() {
        set_positions(mask.drop_last()).push(mask.len() - 1)
    } else {
        set_positions(mask.drop_last())
    }
}

/// There are as many set positions as set bits, each lies inside the mask,
/// and each is the position of a set bit.
pub proof fn lemma_set_positions_bounds(mask: Seq<bool>)
    ensures
        set_positions(mask).len() == count_ones(mask),
        count_ones(mask) <= mask.len(),
        forall|k: int|
            0 <= k < set_positions(mask).len() ==> 0 <= #[trigger] set_positions(mask)[k]
                < mask.len() && mask[set_positions(mask)[k]],
    decreases mask.len(),
{
    if mask.len() > 0 {
        lemma_set_positions_bounds(mask.drop_last());
    }
}

/// The set positions are strictly increasing.
pub proof fn lemma_set_positions_increasing(mask: Seq<bool>)
    ensures
        forall|j: int, k: int|
            0 <= j < k < set_positions(mask).len() ==> #[trigger] set_positions(mask)[j]
                < #[trigger] set_positions(mask)[k],
    decreases mask.len(),
{
    if mask.len() > 0 {
        lemma_set_positions_bounds(mask.drop_last());
        lemma_set_positions_increasing(mask.drop_last());
    }
}

/// Every set bit is listed among the set positions.
pub proof fn lemma_set_positions_complete(mask: Seq<bool>, p: int)
    requires
        0 <= p < mask.len(),
        mask[p],
    ensures
        set_positions(mask).contains(p),
    decreases mask.len(),
{
    let rest = set_positions(mask.drop_last());
    if p == mask.len() - 1 {
        assert(set_positions(mask)[rest.len() as int] == p);
    } else {
        lemma_set_positions_complete(mask.drop_last(), p);
        let k = choose|k: int| 0 <= k < rest.len() && rest[k] == p;
        assert(set_positions(mask)[k] == p);
    }
}

/// Taking one more bit of a mask extends its set positions by that bit.
pub proof fn lemma_set_positions_step(mask: Seq<bool>, n: int)
    requires
        0 <= n < mask.len(),
    ensures
        set_positions(mask.take(n + 1)) == if mask[n] {
            set_positions(mask.take(n)).push(n)
        } else {
            set_positions(mask.take(n))
        },
        count_ones(mask.take(n + 1)) == count_ones(mask.take(n)) + if mask[n] {
            1nat
        } else {
            0nat
        },
{
    assert(mask.take(n + 1).drop_last() =~= mask.take(n));
}

/// The positions of the set bits of a bit-vector, ascending.
pub fn positions_of(bv: &BitVec) -> (r: Vec<usize>)
    ensures
        r@.map_values(|p: usize| p as int) == set_positions(bits(bv)),
{
    let n = bv_len(bv);
    let mut r: Vec<usize> = Vec::new();
    let mut i: usize = 0;
    while i < n
        invariant
            n == bits(bv).len(),
            i <= n,
            r@.map_values(|p: usize| p as int) == set_positions(bits(bv).take(i as int)),
        decreases n - i,
    {
        proof {
            lemma_set_positions_step(bits(bv), i as int);
        }
        let ghost before = r@;
        if bv_get(bv, i) == Some(true) {
            r.push(i);
            assert(r@.map_values(|p: usize| p as int) =~= before.map_values(|p: usize| p as int).push(
                i as int,
            ));
        }
        i += 1;
    }
    assert(bits(bv).take(n as int) =~= bits(bv));
    r
}

} // verus!
