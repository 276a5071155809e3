//! The growable column of the ingestion path, and how it is frozen.

use crate::column::{
    int_values, narrowest, nulls, texts_of, ColumnCodec, ColumnData, IntegerColumn, SchemeView,
};
use crate::dictionary::first_seen;
use crate::int_like::values_of;
use crate::raw_val::{RawVal, Val};
use crate::text::{int_text, int_to_text};
use crate::typed_vec::VecView;
use vstd::prelude::*;

verus! {

/// What kinds of values a column has seen, nulls aside.
#[derive(Clone, Copy, Debug, PartialEq, Eq, Structural)]
pub enum Classification {
    AllNull,
    AllInt,
    AllStr,
    Mixed,
}

/// The values that raw values stand for.
pub open spec fn vals_of(v: Seq<RawVal>) -> Seq<Val> {
    Seq::new(v.len(), |i: int| v[i]@)
}

/// Whether some value is an integer.
pub open spec fn holds_int(vals: Seq<Val>) -> bool {
    exists|i: int| 0 <= i < vals.len() && #[trigger] vals[i] is Int
}

/// Whether some value is a string.
pub open spec fn holds_str(vals: Seq<Val>) -> bool {
    exists|i: int| 0 <= i < vals.len() && #[trigger] vals[i] is Str
}

/// The classification of a sequence of values.
pub open spec fn classify(vals: Seq<Val>) -> Classification {
    if holds_int(vals) {
        if holds_str(vals) {
            Classification::Mixed
        } else {
            Classification::AllInt
        }
    } else if holds_str(vals) {
        Classification::AllStr
    } else {
        Classification::AllNull
    }
}

/// The integer that a value is stored as in an integer column: a null is
/// stored as 0.
pub open spec fn int_or_zero(v: Val) -> int {
    match v {
        Val::Int(i) => i,
        _ => 0,
    }
}

/// The string that a value is stored as in a string column: an integer by
/// its decimal form, a null as the empty string.
pub open spec fn text_of(v: Val) -> Seq<char> {
    match v {
        Val::Str(s) => s,
        Val::Int(i) => int_text(i),
        Val::Null => Seq::empty(),
    }
}

/// The number of nulls among the values.
pub open spec fn count_nulls(vals: Seq<Val>) -> nat
    decreases vals.len(),
{
    if vals.len() == 0 {
        0
    } else {
        count_nulls(vals.drop_last()) + if vals.last() is Null {
            1nat
        } else {
            0nat
        }
    }
}

/// There are no more nulls than values.
pub proof fn lemma_count_nulls(vals: Seq<Val>)
    ensures
        count_nulls(vals) <= vals.len(),
    decreases vals.len(),
{
    if vals.len() > 0 {
        lemma_count_nulls(vals.drop_last());
    }
}

/// The integers that an integer column stores for `vals`.
pub open spec fn stored_ints(vals: Seq<Val>) -> Seq<int> {
    Seq::new(vals.len(), |i: int| int_or_zero(vals[i]))
}

/// The strings that a string column stores for `vals`.
pub open spec fn stored_texts(vals: Seq<Val>) -> Seq<Seq<char>> {
    Seq::new(vals.len(), |i: int| text_of(vals[i]))
}

/// The smallest element of a non-empty sequence.
pub open spec fn least(s: Seq<int>) -> int
    decreases s.len(),
{
    if s.len() <= 1 {
        s[0]
    } else if s.last() < least(s.drop_last()) {
        s.last()
    } else {
        least(s.drop_last())
    }
}

/// The largest element of a non-empty sequence.
pub open spec fn greatest(s: Seq<int>) -> int
    decreases s.len(),
{
    if s.len() <= 1 {
        s[0]
    } else if s.last() > greatest(s.drop_last()) {
        s.last()
    } else {
        greatest(s.drop_last())
    }
}

/// The least and the greatest element bound every element and occur.
pub proof fn lemma_least_greatest(s: Seq<int>)
    requires
        s.len() > 0,
    ensures
        forall|i: int| 0 <= i < s.len() ==> least(s) <= #[trigger] s[i] <= greatest(s),
        s.contains(least(s)),
        s.contains(greatest(s)),
    decreases s.len(),
{
    if s.len() > 1 {
        let rest = s.drop_last();
        lemma_least_greatest(rest);
        assert forall|i: int| 0 <= i < s.len() implies least(s) <= #[trigger] s[i] <= greatest(s) by {
            if i < rest.len() {
                assert(rest[i] == s[i]);
            }
        }
        let a = choose|a: int| 0 <= a < rest.len() && rest[a] == least(rest);
        let b = choose|b: int| 0 <= b < rest.len() && rest[b] == greatest(rest);
        assert(s[a] == least(rest));
        assert(s[b] == greatest(rest));
        assert(s[s.len() - 1] == s.last());
    } else {
        assert(s[0] == least(s));
    }
}

/// How an integer column stores `ints`: as offsets from the least of them
/// in the narrowest width that holds the largest offset, or at full width
/// where 32 bits do not hold it.
pub open spec fn integer_storage(ints: Seq<int>) -> VecView {
    let lo = least(ints);
    let hi = greatest(ints);
    if hi - lo <= u32::MAX {
        VecView::Encoded(
            narrowest(hi - lo),
            Seq::new(ints.len(), |i: int| ints[i] - lo),
            SchemeView::Offset { offset: lo, span: hi - lo },
        )
    } else {
        VecView::Integer(ints)
    }
}

/// The offset encoding loses nothing: every code fits its width, lies
/// within the span of the scheme, and decodes to the integer it was made
/// from.
pub proof fn lemma_integer_storage(ints: Seq<int>)
    requires
        ints.len() > 0,
    ensures
        integer_storage(ints).values() == int_values(ints),
        integer_storage(ints).decoded() == VecView::Integer(ints),
        integer_storage(ints) matches VecView::Encoded(enc, codes, scheme) ==> codes.len()
            == ints.len() && forall|i: int|
            0 <= i < ints.len() ==> 0 <= #[trigger] codes[i] <= crate::int_like::widest(enc)
                && scheme.admits(codes[i]) && scheme.decode(codes[i]) == Val::Int(ints[i]),
{
    lemma_least_greatest(ints);
    assert(integer_storage(ints).values() =~= int_values(ints));
    match integer_storage(ints) {
        VecView::Encoded(enc, codes, scheme) => {
            assert(Seq::new(codes.len(), |i: int| codes[i] + least(ints)) =~= ints);
        },
        _ => {},
    }
}

/// The values of the frozen column.
pub open spec fn frozen(vals: Seq<Val>) -> Seq<Val> {
    match classify(vals) {
        Classification::AllNull => nulls(vals.len()),
        Classification::AllInt => int_values(stored_ints(vals)),
        _ => Seq::new(vals.len(), |i: int| Val::Str(text_of(vals[i]))),
    }
}

/// Whether `data` is what freezing the values `vals` gives. A column of
/// nulls alone keeps only its length. A column of integers and nulls is
/// stored as an integer column, with 0 in place of each null. Any other
/// column is stored as a dictionary of strings in first-seen order, with
/// an integer in its decimal form and the empty string in place of each
/// null, and its codes in the narrowest width that holds them.
pub open spec fn is_frozen(data: ColumnData, vals: Seq<Val>) -> bool {
    &&& data.wf()
    &&& data.values() == frozen(vals)
    &&& match classify(vals) {
        Classification::AllNull => data == ColumnData::Null(vals.len() as usize),
        Classification::AllInt => data.stored() == integer_storage(stored_ints(vals)),
        _ => data is Encoded && data->Encoded_0.scheme@ == SchemeView::Dictionary(
            first_seen(stored_texts(vals)),
        ) && data.encoding() == narrowest(first_seen(stored_texts(vals)).len() - 1),
    }
}

/// A column under construction: the values appended so far and what kinds
/// of values were among them.
pub struct RawCol {
    pub values: Vec<RawVal>,
    pub has_int: bool,
    pub has_str: bool,
}

impl View for RawCol {
    type V = Seq<Val>;

    open spec fn view(&self) -> Seq<Val> {
        vals_of(self.values@)
    }
}

impl RawCol {
    /// The flags say what the values hold.
    pub open spec fn wf(&self) -> bool {
        &&& self.has_int == holds_int(self@)
        &&& self.has_str == holds_str(self@)
    }

    /// An empty column.
    pub fn new() -> (r: RawCol)
        ensures
            r.wf(),
            r@ == Seq::<Val>::empty(),
    {
        let r = RawCol { values: Vec::new(), has_int: false, has_str: false };
        assert(r@ =~= Seq::<Val>::empty());
        r
    }

    /// A column of `count` nulls.
    pub fn with_nulls(count: usize) -> (r: RawCol)
        ensures
            r.wf(),
            r@ == nulls(count as nat),
    {
        let mut r = RawCol::new();
        r.push_nulls(count);
        assert(r@ =~= nulls(count as nat));
        r
    }

    /// The number of rows.
    pub fn len(&self) -> (n: usize)
        ensures
            n == self@.len(),
    {
        self.values.len()
    }

    /// The classification of the values appended so far.
    pub fn classification(&self) -> (c: Classification)
        requires
            self.wf(),
        ensures
            c == classify(self@),
    {
        if self.has_int {
            if self.has_str {
                Classification::Mixed
            } else {
                Classification::AllInt
            }
        } else if self.has_str {
            Classification::AllStr
        } else {
            Classification::AllNull
        }
    }

    /// Appends one value.
    pub fn push(&mut self, v: RawVal)
        requires
            old(self).wf(),
        ensures
            final(self).wf(),
            final(self)@ == old(self)@.push(v@),
    {
        let ghost before = self@;
        let is_int = match &v {
            RawVal::Int(_) => true,
            _ => false,
        };
        let is_str = match &v {
            RawVal::Str(_) => true,
            _ => false,
        };
        self.values.push(v);
        self.has_int = self.has_int || is_int;
        self.has_str = self.has_str || is_str;
        proof {
            let after = self@;
            assert(after =~= before.push(v@));
            lemma_holds_push(before, v@);
        }
    }

    /// Appends integers.
    pub fn push_ints(&mut self, ints: &Vec<i64>)
        requires
            old(self).wf(),
        ensures
            final(self).wf(),
            final(self)@ == old(self)@ + int_values(values_of(ints@)),
    {
        let mut i: usize = 0;
        while i < ints.len()
            invariant
                i <= ints.len(),
                self.wf(),
                self@ == old(self)@ + int_values(values_of(ints@)).take(i as int),
            decreases ints.len() - i,
        {
            self.push(RawVal::Int(ints[i]));
            assert(self@ =~= old(self)@ + int_values(values_of(ints@)).take(i + 1));
            i += 1;
        }
        assert(int_values(values_of(ints@)).take(i as int) =~= int_values(values_of(ints@)));
    }

    /// Appends strings.
    pub fn push_strings(&mut self, strings: &Vec<String>)
        requires
            old(self).wf(),
        ensures
            final(self).wf(),
            final(self)@ == old(self)@ + Seq::new(strings@.len(), |i: int| Val::Str(strings@[i]@)),
    {
        let ghost added = Seq::new(strings@.len(), |i: int| Val::Str(strings@[i]@));
        let mut i: usize = 0;
        while i < strings.len()
            invariant
                i <= strings.len(),
                self.wf(),
                added == Seq::new(strings@.len(), |i: int| Val::Str(strings@[i]@)),
                self@ == old(self)@ + added.take(i as int),
            decreases strings.len() - i,
        {
            self.push(RawVal::Str(strings[i].clone()));
            assert(self@ =~= old(self)@ + added.take(i + 1));
            i += 1;
        }
        assert(added.take(i as int) =~= added);
    }

    /// Appends `count` nulls.
    pub fn push_nulls(&mut self, count: usize)
        requires
            old(self).wf(),
        ensures
            final(self).wf(),
            final(self)@ == old(self)@ + nulls(count as nat),
    {
        let mut i: usize = 0;
        while i < count
            invariant
                i <= count,
                self.wf(),
                self@ == old(self)@ + nulls(i as nat),
            decreases count - i,
        {
            self.push(RawVal::Null);
            assert(self@ =~= old(self)@ + nulls((i + 1) as nat));
            i += 1;
        }
    }

    /// The number of nulls among the values.
    pub fn null_count(&self) -> (n: usize)
        ensures
            n == count_nulls(self@),
    {
        let mut n: usize = 0;
        let mut i: usize = 0;
        assert(self@.take(0) =~= Seq::<Val>::empty());
        while i < self.values.len()
            invariant
                i <= self.values.len(),
                n == count_nulls(self@.take(i as int)),
                n <= i,
            decreases self.values.len() - i,
        {
            assert(self@.take(i + 1).drop_last() =~= self@.take(i as int));
            match &self.values[i] {
                RawVal::Null => {
                    n += 1;
                },
                _ => {},
            }
            i += 1;
        }
        assert(self@.take(self@.len() as int) =~= self@);
        n
    }

    /// The integers that an integer column stores for the values.
    fn to_ints(&self) -> (r: Vec<i64>)
        ensures
            values_of(r@) == stored_ints(self@),
    {
        let mut r: Vec<i64> = Vec::with_capacity(self.values.len());
        let mut i: usize = 0;
        while i < self.values.len()
            invariant
                i <= self.values.len(),
                r@.len() == i,
                forall|j: int| 0 <= j < i ==> #[trigger] r@[j] == int_or_zero(self@[j]),
            decreases self.values.len() - i,
        {
            let x = match &self.values[i] {
                RawVal::Int(x) => *x,
                _ => 0,
            };
            r.push(x);
            i += 1;
        }
        assert(values_of(r@) =~= stored_ints(self@));
        r
    }

    /// The strings that a string column stores for the values.
    fn to_texts(&self) -> (r: Vec<String>)
        ensures
            texts_of(r@) == stored_texts(self@),
    {
        let mut r: Vec<String> = Vec::with_capacity(self.values.len());
        let mut i: usize = 0;
        while i < self.values.len()
            invariant
                i <= self.values.len(),
                r@.len() == i,
                forall|j: int| 0 <= j < i ==> #[trigger] r@[j]@ == text_of(self@[j]),
            decreases self.values.len() - i,
        {
            let s = match &self.values[i] {
                RawVal::Str(s) => s.clone(),
                RawVal::Int(x) => int_to_text(*x),
                RawVal::Null => String::new(),
            };
            r.push(s);
            i += 1;
        }
        assert(texts_of(r@) =~= stored_texts(self@));
        r
    }

    /// Freezes the column. A dictionary holds at most 2^32 strings.
    pub fn finalize(&self) -> (r: ColumnData)
        requires
            self.wf(),
            holds_str(self@) ==> first_seen(stored_texts(self@)).len() <= u32::MAX as int + 1,
        ensures
            is_frozen(r, self@),
    {
        if self.has_str {
            let texts = self.to_texts();
            let codec = ColumnCodec::from_strings(&texts);
            assert forall|i: int| 0 <= i < texts@.len() implies texts@[i]@ == text_of(self@[i]) by {
                assert(texts_of(texts@)[i] == stored_texts(self@)[i]);
            }
            assert(codec.values() =~= frozen(self@));
            ColumnData::Encoded(codec)
        } else if self.has_int {
            let ints = self.to_ints();
            let ghost all = stored_ints(self@);
            proof {
                let i = choose|i: int| 0 <= i < self@.len() && #[trigger] self@[i] is Int;
                assert(values_of(ints@).len() == self@.len());
            }
            let mut lo = ints[0];
            let mut hi = ints[0];
            let mut i: usize = 1;
            assert(values_of(ints@).take(1) =~= seq![ints@[0] as int]);
            while i < ints.len()
                invariant
                    1 <= i <= ints.len(),
                    lo == least(values_of(ints@).take(i as int)),
                    hi == greatest(values_of(ints@).take(i as int)),
                decreases ints.len() - i,
            {
                assert(values_of(ints@).take(i + 1).drop_last() =~= values_of(ints@).take(i as int));
                if ints[i] < lo {
                    lo = ints[i];
                }
                if ints[i] > hi {
                    hi = ints[i];
                }
                i += 1;
            }
            proof {
                assert(values_of(ints@).take(ints.len() as int) =~= values_of(ints@));
                lemma_least_greatest(values_of(ints@));
                assert forall|i: int| 0 <= i < ints@.len() implies lo <= #[trigger] ints@[i] <= hi by {
                    assert(values_of(ints@)[i] == ints@[i]);
                }
            }
            let r = IntegerColumn::new(ints, lo, hi);
            assert(r.values() =~= frozen(self@));
            proof {
                if hi - lo <= u32::MAX {
                    assert(r->Encoded_0.codes.values() =~= Seq::new(
                        all.len(),
                        |i: int| all[i] - lo,
                    ));
                } else {
                    assert(values_of(r->Integer_0.values@) =~= all);
                }
            }
            r
        } else {
            let r = ColumnData::Null(self.values.len());
            assert(r.values() =~= frozen(self@));
            r
        }
    }
}

/// Appending a value adds its kind to the kinds that the values hold.
pub proof fn lemma_holds_push(vals: Seq<Val>, v: Val)
    ensures
        holds_int(vals.push(v)) == (holds_int(vals) || v is Int),
        holds_str(vals.push(v)) == (holds_str(vals) || v is Str),
{
    let after = vals.push(v);
    if holds_int(vals) {
        let i = choose|i: int| 0 <= i < vals.len() && #[trigger] vals[i] is Int;
        assert(after[i] is Int);
    }
    if holds_str(vals) {
        let i = choose|i: int| 0 <= i < vals.len() && #[trigger] vals[i] is Str;
        assert(after[i] is Str);
    }
    if v is Int {
        assert(after[vals.len() as int] is Int);
    }
    if v is Str {
        assert(after[vals.len() as int] is Str);
    }
    if holds_int(after) {
        let i = choose|i: int| 0 <= i < after.len() && #[trigger] after[i] is Int;
        if i < vals.len() {
            assert(vals[i] is Int);
        }
    }
    if holds_str(after) {
        let i = choose|i: int| 0 <= i < after.len() && #[trigger] after[i] is Str;
        if i < vals.len() {
            assert(vals[i] is Str);
        }
    }
}

} // verus!
