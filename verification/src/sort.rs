//! Ordering rows by the values of a vector.

use crate::bits::bv_get;
use crate::column::Scheme;
use crate::int_like::{IntLike, Packed};
use crate::raw_val::Val;
use crate::text::{lemma_bytes_lt_total, lemma_bytes_lt_transitive, text_less, text_lt};
use crate::typed_vec::{indices_below, TypedVec};
use vstd::prelude::*;
use vstd::seq_lib::{lemma_multiset_commutative, to_multiset_build};
use vstd::utf8::{encode_utf8, encode_utf8_decode_utf8};

verus! {

/// The order of values: nulls first, then integers by size, then strings
/// in the order of strings.
pub open spec fn val_lt(a: Val, b: Val) -> bool {
    match a {
        Val::Null => !(b is Null),
        Val::Int(x) => match b {
            Val::Null => false,
            Val::Int(y) => x < y,
            Val::Str(_) => true,
        },
        Val::Str(s) => match b {
            Val::Str(t) => text_lt(s, t),
            _ => false,
        },
    }
}

/// The order of values is strict, total and transitive.
pub proof fn lemma_val_order(a: Val, b: Val, c: Val)
    ensures
        !val_lt(a, a),
        val_lt(a, b) ==> !val_lt(b, a),
        val_lt(a, b) || val_lt(b, a) || a == b,
        val_lt(a, b) && val_lt(b, c) ==> val_lt(a, c),
{
    match (a, b) {
        (Val::Str(s), Val::Str(t)) => {
            lemma_bytes_lt_total(encode_utf8(s), encode_utf8(t));
            encode_utf8_decode_utf8(s);
            encode_utf8_decode_utf8(t);
            match c {
                Val::Str(u) => {
                    if val_lt(a, b) && val_lt(b, c) {
                        lemma_bytes_lt_transitive(encode_utf8(s), encode_utf8(t), encode_utf8(u));
                    }
                },
                _ => {},
            }
        },
        (Val::Str(s), _) => {
            lemma_bytes_lt_total(encode_utf8(s), encode_utf8(s));
        },
        _ => {},
    }
}

/// Whether row `i` comes before row `j` where rows are ordered by their
/// keys, ascending or descending, and rows of equal keys by their position.
pub open spec fn precedes(keys: Seq<Val>, desc: bool, i: int, j: int) -> bool {
    let forward = if desc {
        val_lt(keys[j], keys[i])
    } else {
        val_lt(keys[i], keys[j])
    };
    let backward = if desc {
        val_lt(keys[i], keys[j])
    } else {
        val_lt(keys[j], keys[i])
    };
    forward || (!backward && i < j)
}

/// The order of rows is strict, total and transitive.
pub proof fn lemma_precedes_order(keys: Seq<Val>, desc: bool, a: int, b: int, c: int)
    ensures
        !precedes(keys, desc, a, a),
        precedes(keys, desc, a, b) ==> !precedes(keys, desc, b, a),
        a != b ==> precedes(keys, desc, a, b) || precedes(keys, desc, b, a),
        precedes(keys, desc, a, b) && precedes(keys, desc, b, c) ==> precedes(keys, desc, a, c),
{
    lemma_val_order(keys[a], keys[b], keys[c]);
    lemma_val_order(keys[b], keys[a], keys[c]);
    lemma_val_order(keys[c], keys[b], keys[a]);
    lemma_val_order(keys[b], keys[c], keys[a]);
    lemma_val_order(keys[a], keys[c], keys[b]);
    lemma_val_order(keys[c], keys[a], keys[b]);
}

/// Whether no row of the list comes before a row that stands earlier in it.
pub open spec fn ordered(keys: Seq<Val>, desc: bool, s: Seq<usize>) -> bool {
    forall|a: int, b: int|
        0 <= a < b < s.len() ==> !precedes(keys, desc, #[trigger] s[b] as int, #[trigger] s[a] as int)
}

/// The first of an ordered list comes before, or is, every element of
/// the list.
proof fn lemma_first_is_least(keys: Seq<Val>, desc: bool, s: Seq<usize>, x: usize)
    requires
        ordered(keys, desc, s),
        s.contains(x),
    ensures
        !precedes(keys, desc, x as int, s[0] as int),
{
    let j = choose|j: int| 0 <= j < s.len() && s[j] == x;
    if j == 0 {
        lemma_precedes_order(keys, desc, x as int, x as int, x as int);
    }
}

/// There is one way to order rows: two ordered lists of the same rows are
/// the same list.
pub proof fn lemma_ordering_unique(keys: Seq<Val>, desc: bool, a: Seq<usize>, b: Seq<usize>)
    requires
        a.to_multiset() == b.to_multiset(),
        ordered(keys, desc, a),
        ordered(keys, desc, b),
    ensures
        a == b,
    decreases a.len(),
{
    broadcast use vstd::seq_lib::group_to_multiset_ensures;

    assert(a.len() == b.len()) by {
        vstd::seq_lib::to_multiset_len(a);
        vstd::seq_lib::to_multiset_len(b);
    }
    if a.len() == 0 {
        assert(a =~= b);
    } else {
        assert(a.contains(a[0]));
        assert(b.contains(b[0]));
        assert(a.to_multiset().count(a[0]) > 0);
        assert(b.contains(a[0]));
        assert(b.to_multiset().count(b[0]) > 0);
        assert(a.contains(b[0]));
        lemma_first_is_least(keys, desc, a, b[0]);
        lemma_first_is_least(keys, desc, b, a[0]);
        lemma_precedes_order(keys, desc, a[0] as int, b[0] as int, a[0] as int);
        assert(a[0] == b[0]);
        let a1 = a.remove(0);
        let b1 = b.remove(0);
        assert(a1.to_multiset() =~= b1.to_multiset());
        assert forall|i: int, j: int| 0 <= i < j < a1.len() implies !precedes(
            keys,
            desc,
            #[trigger] a1[j] as int,
            #[trigger] a1[i] as int,
        ) by {
            assert(a1[i] == a[i + 1] && a1[j] == a[j + 1]);
        }
        assert forall|i: int, j: int| 0 <= i < j < b1.len() implies !precedes(
            keys,
            desc,
            #[trigger] b1[j] as int,
            #[trigger] b1[i] as int,
        ) by {
            assert(b1[i] == b[i + 1] && b1[j] == b[j + 1]);
        }
        lemma_ordering_unique(keys, desc, a1, b1);
        assert(a =~= seq![a[0]] + a1);
        assert(b =~= seq![b[0]] + b1);
    }
}

impl<'a> TypedVec<'a> {
    /// Whether the value of row `i` comes before the value of row `j`.
    pub fn key_less(&self, i: usize, j: usize) -> (r: bool)
        requires
            self.wf(),
            i < self@.len(),
            j < self@.len(),
        ensures
            r == val_lt(self@.values()[i as int], self@.values()[j as int]),
    {
        match self {
            TypedVec::Integer(b) => {
                let v = b.as_vec();
                v[i] < v[j]
            },
            TypedVec::String(v) => text_less(v[i].as_str(), v[j].as_str()),
            TypedVec::Boolean(b) => {
                let x = bv_get(b, i) == Some(true);
                let y = bv_get(b, j) == Some(true);
                !x && y
            },
            TypedVec::Constant(c) => {
                proof {
                    lemma_val_order(c@, c@, c@);
                }
                false
            },
            TypedVec::Null(_) => false,
            TypedVec::EncodedU8(b, s) => {
                assert(s@.admits(self@.ints()[i as int]));
                assert(s@.admits(self@.ints()[j as int]));
                code_less(b.as_vec(), s, i, j)
            },
            TypedVec::EncodedU16(b, s) => {
                assert(s@.admits(self@.ints()[i as int]));
                assert(s@.admits(self@.ints()[j as int]));
                code_less(b.as_vec(), s, i, j)
            },
            TypedVec::EncodedU32(b, s) => {
                assert(s@.admits(self@.ints()[i as int]));
                assert(s@.admits(self@.ints()[j as int]));
                code_less(b.as_vec(), s, i, j)
            },
        }
    }

    /// Whether row `i` comes before row `j` in the order of `precedes`.
    pub fn row_precedes(&self, desc: bool, i: usize, j: usize) -> (r: bool)
        requires
            self.wf(),
            i < self@.len(),
            j < self@.len(),
        ensures
            r == precedes(self@.values(), desc, i as int, j as int),
    {
        let up = self.key_less(i, j);
        let down = self.key_less(j, i);
        if desc {
            down || (!up && i < j)
        } else {
            up || (!down && i < j)
        }
    }

    /// Orders the rows of `indices` by their values in this vector,
    /// ascending; rows of equal values come in the order of their positions.
    pub fn sort_indices_asc(&self, indices: &mut Vec<usize>)
        requires
            self.wf(),
            indices_below(old(indices)@, self@.len()),
        ensures
            final(indices)@.to_multiset() == old(indices)@.to_multiset(),
            ordered(self@.values(), false, final(indices)@),
            indices_below(final(indices)@, self@.len()),
    {
        let sorted = sort_range(self, indices, 0, indices.len(), false);
        assert(indices@.subrange(0, indices@.len() as int) =~= indices@);
        *indices = sorted;
    }

    /// Orders the rows of `indices` by their values in this vector,
    /// descending; rows of equal values come in the order of their
    /// positions.
    pub fn sort_indices_desc(&self, indices: &mut Vec<usize>)
        requires
            self.wf(),
            indices_below(old(indices)@, self@.len()),
        ensures
            final(indices)@.to_multiset() == old(indices)@.to_multiset(),
            ordered(self@.values(), true, final(indices)@),
            indices_below(final(indices)@, self@.len()),
    {
        let sorted = sort_range(self, indices, 0, indices.len(), true);
        assert(indices@.subrange(0, indices@.len() as int) =~= indices@);
        *indices = sorted;
    }
}

/// Whether the value of code `i` comes before the value of code `j`.
fn code_less<T: Packed>(codes: &Vec<T>, scheme: &Scheme, i: usize, j: usize) -> (r: bool)
    requires
        scheme.wf(),
        i < codes@.len(),
        j < codes@.len(),
        scheme@.admits(codes@[i as int].value()),
        scheme@.admits(codes@[j as int].value()),
    ensures
        r == val_lt(scheme@.decode(codes@[i as int].value()), scheme@.decode(codes@[j as int].value())),
{
    let x = codes[i];
    let y = codes[j];
    match scheme {
        Scheme::Offset { .. } => x.to_i64() < y.to_i64(),
        Scheme::Dictionary(d) => text_less(d.get(x.to_usize()).as_str(), d.get(y.to_usize()).as_str()),
    }
}

/// Merges two ordered lists of rows into one.
fn merge_sorted(keys: &TypedVec, left: &Vec<usize>, right: &Vec<usize>, desc: bool) -> (r: Vec<usize>)
    requires
        keys.wf(),
        indices_below(left@, keys@.len()),
        indices_below(right@, keys@.len()),
        ordered(keys@.values(), desc, left@),
        ordered(keys@.values(), desc, right@),
    ensures
        r@.to_multiset() == left@.to_multiset().add(right@.to_multiset()),
        ordered(keys@.values(), desc, r@),
        indices_below(r@, keys@.len()),
{
    let ghost vals = keys@.values();
    let mut r: Vec<usize> = Vec::with_capacity(left.len());
    let mut i: usize = 0;
    let mut j: usize = 0;
    proof {
        broadcast use vstd::seq_lib::group_to_multiset_ensures;
        broadcast use vstd::multiset::group_multiset_axioms;

        assert(left@.take(0) =~= Seq::<usize>::empty());
        assert(right@.take(0) =~= Seq::<usize>::empty());
        assert(r@ =~= Seq::<usize>::empty());
        assert(Seq::<usize>::empty().to_multiset().len() == 0);
        assert(r@.to_multiset() =~= left@.take(0).to_multiset().add(right@.take(0).to_multiset()));
    }
    while i < left.len() || j < right.len()
        invariant
            vals == keys@.values(),
            keys.wf(),
            i <= left.len(),
            j <= right.len(),
            indices_below(left@, keys@.len()),
            indices_below(right@, keys@.len()),
            indices_below(r@, keys@.len()),
            ordered(vals, desc, left@),
            ordered(vals, desc, right@),
            ordered(vals, desc, r@),
            r@.to_multiset() == left@.take(i as int).to_multiset().add(
                right@.take(j as int).to_multiset(),
            ),
            forall|a: int, p: int|
                0 <= a < r@.len() && i <= p < left@.len() ==> !precedes(
                    vals,
                    desc,
                    #[trigger] left@[p] as int,
                    #[trigger] r@[a] as int,
                ),
            forall|a: int, q: int|
                0 <= a < r@.len() && j <= q < right@.len() ==> !precedes(
                    vals,
                    desc,
                    #[trigger] right@[q] as int,
                    #[trigger] r@[a] as int,
                ),
        decreases left.len() - i + right.len() - j,
    {
        let ghost before = r@;
        let take_left = if i == left.len() {
            false
        } else if j == right.len() {
            true
        } else {
            !keys.row_precedes(desc, right[j], left[i])
        };
        if take_left {
            let x = left[i];
            r.push(x);
            proof {
                to_multiset_build(before, x);
                to_multiset_build(left@.take(i as int), x);
                assert(left@.take(i + 1) =~= left@.take(i as int).push(x));
                assert(r@.to_multiset() =~= left@.take(i + 1).to_multiset().add(
                    right@.take(j as int).to_multiset(),
                ));
                assert forall|a: int, b: int| 0 <= a < b < r@.len() implies !precedes(
                    vals,
                    desc,
                    #[trigger] r@[b] as int,
                    #[trigger] r@[a] as int,
                ) by {
                    if b == before.len() {
                        assert(r@[a] == before[a]);
                        assert(!precedes(vals, desc, left@[i as int] as int, before[a] as int));
                    } else {
                        assert(r@[a] == before[a] && r@[b] == before[b]);
                    }
                }
                assert forall|a: int, p: int| 0 <= a < r@.len() && i + 1 <= p < left@.len() implies !precedes(
                    vals,
                    desc,
                    #[trigger] left@[p] as int,
                    #[trigger] r@[a] as int,
                ) by {
                    if a == before.len() {
                        assert(!precedes(vals, desc, left@[p] as int, left@[i as int] as int));
                    } else {
                        assert(r@[a] == before[a]);
                    }
                }
                assert forall|a: int, q: int| 0 <= a < r@.len() && j <= q < right@.len() implies !precedes(
                    vals,
                    desc,
                    #[trigger] right@[q] as int,
                    #[trigger] r@[a] as int,
                ) by {
                    if a == before.len() {
                        // x is not after right[j], and right[j] is not after right[q]
                        if q > j {
                            assert(!precedes(vals, desc, right@[q] as int, right@[j as int] as int));
                        }
                        lemma_precedes_order(vals, desc, right@[q] as int, right@[j as int] as int, x as int);
                        lemma_precedes_order(vals, desc, right@[j as int] as int, right@[q] as int, x as int);
                        lemma_precedes_order(vals, desc, right@[q] as int, x as int, right@[j as int] as int);
                    } else {
                        assert(r@[a] == before[a]);
                    }
                }
            }
            i += 1;
        } else {
            let x = right[j];
            r.push(x);
            proof {
                to_multiset_build(before, x);
                to_multiset_build(right@.take(j as int), x);
                assert(right@.take(j + 1) =~= right@.take(j as int).push(x));
                assert(r@.to_multiset() =~= left@.take(i as int).to_multiset().add(
                    right@.take(j + 1).to_multiset(),
                ));
                assert forall|a: int, b: int| 0 <= a < b < r@.len() implies !precedes(
                    vals,
                    desc,
                    #[trigger] r@[b] as int,
                    #[trigger] r@[a] as int,
                ) by {
                    if b == before.len() {
                        assert(r@[a] == before[a]);
                        assert(!precedes(vals, desc, right@[j as int] as int, before[a] as int));
                    } else {
                        assert(r@[a] == before[a] && r@[b] == before[b]);
                    }
                }
                assert forall|a: int, q: int| 0 <= a < r@.len() && j + 1 <= q < right@.len() implies !precedes(
                    vals,
                    desc,
                    #[trigger] right@[q] as int,
                    #[trigger] r@[a] as int,
                ) by {
                    if a == before.len() {
                        assert(!precedes(vals, desc, right@[q] as int, right@[j as int] as int));
                    } else {
                        assert(r@[a] == before[a]);
                    }
                }
                assert forall|a: int, p: int| 0 <= a < r@.len() && i <= p < left@.len() implies !precedes(
                    vals,
                    desc,
                    #[trigger] left@[p] as int,
                    #[trigger] r@[a] as int,
                ) by {
                    if a == before.len() {
                        // x comes before left[i], and left[i] is not after left[p]
                        if p > i {
                            assert(!precedes(vals, desc, left@[p] as int, left@[i as int] as int));
                        }
                        lemma_precedes_order(vals, desc, x as int, left@[i as int] as int, left@[p] as int);
                        lemma_precedes_order(vals, desc, left@[p] as int, x as int, left@[i as int] as int);
                        lemma_precedes_order(vals, desc, left@[i as int] as int, left@[p] as int, x as int);
                    } else {
                        assert(r@[a] == before[a]);
                    }
                }
            }
            j += 1;
        }
    }
    assert(left@.take(left.len() as int) =~= left@);
    assert(right@.take(right.len() as int) =~= right@);
    r
}

/// Orders the rows of `indices[lo..hi]`.
fn sort_range(keys: &TypedVec, indices: &Vec<usize>, lo: usize, hi: usize, desc: bool) -> (r: Vec<usize>)
    requires
        keys.wf(),
        lo <= hi <= indices@.len(),
        indices_below(indices@, keys@.len()),
    ensures
        r@.to_multiset() == indices@.subrange(lo as int, hi as int).to_multiset(),
        ordered(keys@.values(), desc, r@),
        indices_below(r@, keys@.len()),
    decreases hi - lo,
{
    if hi - lo <= 1 {
        let mut r: Vec<usize> = Vec::new();
        if hi > lo {
            r.push(indices[lo]);
        }
        assert(r@ =~= indices@.subrange(lo as int, hi as int));
        r
    } else {
        let mid = lo + (hi - lo) / 2;
        let left = sort_range(keys, indices, lo, mid, desc);
        let right = sort_range(keys, indices, mid, hi, desc);
        proof {
            lemma_multiset_commutative(
                indices@.subrange(lo as int, mid as int),
                indices@.subrange(mid as int, hi as int),
            );
            assert(indices@.subrange(lo as int, mid as int) + indices@.subrange(mid as int, hi as int)
                =~= indices@.subrange(lo as int, hi as int));
        }
        merge_sorted(keys, &left, &right, desc)
    }
}

} // verus!
