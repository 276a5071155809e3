//! The typed vectors that flow between operators, and the kernels that work
//! on their buffers.

use crate::bits::{
    bits, bv_get, bv_len, bv_push, bv_with_capacity, set_positions, lemma_set_positions_step,
    lemma_set_positions_bounds,
};
use crate::column::{int_values, nulls, Scheme, SchemeView};
use crate::dictionary::Dictionary;
use crate::int_like::{values_of, widest, Buf, EncodingType, IntLike, Packed};
use crate::raw_val::{RawVal, Val};
use bit_vec::BitVec;
use vstd::prelude::*;

verus! {

/// The elements of `s` at the positions `idx`, in the order of `idx`.
pub open spec fn gather<T>(s: Seq<T>, idx: Seq<int>) -> Seq<T> {
    Seq::new(idx.len(), |k: int| s[idx[k]])
}

/// A list of row indices as integers.
pub open spec fn index_list(idx: Seq<usize>) -> Seq<int> {
    idx.map_values(|p: usize| p as int)
}

/// Whether every index of the list lies below `n`.
pub open spec fn indices_below(idx: Seq<usize>, n: nat) -> bool {
    forall|k: int| 0 <= k < idx.len() ==> #[trigger] idx[k] < n
}

/// The mathematical model of a typed vector.
pub enum VecView {
    Integer(Seq<int>),
    String(Seq<Seq<char>>),
    Boolean(Seq<bool>),
    Constant(Val),
    Null(nat),
    Encoded(EncodingType, Seq<int>, SchemeView),
}

impl VecView {
    /// The number of elements; a scalar has one.
    pub open spec fn len(self) -> nat {
        match self {
            VecView::Integer(s) => s.len(),
            VecView::String(s) => s.len(),
            VecView::Boolean(s) => s.len(),
            VecView::Constant(_) => 1,
            VecView::Null(n) => n,
            VecView::Encoded(_, codes, _) => codes.len(),
        }
    }

    /// The values that the elements stand for. A set bit stands for 1, a
    /// clear bit for 0.
    pub open spec fn values(self) -> Seq<Val> {
        match self {
            VecView::Integer(s) => int_values(s),
            VecView::String(s) => Seq::new(s.len(), |i: int| Val::Str(s[i])),
            VecView::Boolean(s) => Seq::new(s.len(), |i: int| Val::Int(if s[i] { 1int } else { 0int })),
            VecView::Constant(v) => seq![v],
            VecView::Null(n) => nulls(n),
            VecView::Encoded(_, codes, scheme) => Seq::new(codes.len(), |i: int| scheme.decode(codes[i])),
        }
    }

    /// Every code of an encoded vector is a code of its scheme, and the
    /// width of the vector holds every code of the scheme.
    pub open spec fn wf(self) -> bool {
        match self {
            VecView::Encoded(enc, codes, scheme) => {
                &&& enc == EncodingType::U8 || enc == EncodingType::U16 || enc == EncodingType::U32
                &&& scheme.cardinality() <= widest(enc) + 1
                &&& forall|i: int| 0 <= i < codes.len() ==> scheme.admits(#[trigger] codes[i])
            },
            _ => true,
        }
    }

    /// How the elements are represented.
    pub open spec fn encoding(self) -> EncodingType {
        match self {
            VecView::Integer(_) => EncodingType::I64,
            VecView::String(_) => EncodingType::Str,
            VecView::Boolean(_) => EncodingType::BitVec,
            VecView::Constant(_) => EncodingType::Null,
            VecView::Null(_) => EncodingType::Null,
            VecView::Encoded(enc, _, _) => enc,
        }
    }

    /// The vector with every code replaced by the value it stands for.
    pub open spec fn decoded(self) -> VecView {
        match self {
            VecView::Encoded(_, codes, scheme) => match scheme {
                SchemeView::Offset { offset, span } => VecView::Integer(
                    Seq::new(codes.len(), |i: int| codes[i] + offset),
                ),
                SchemeView::Dictionary(book) => VecView::String(
                    Seq::new(codes.len(), |i: int| book[codes[i]]),
                ),
            },
            _ => self,
        }
    }

    /// The vector in a form whose elements are ordered as the values are:
    /// the codes of a dictionary are decoded.
    pub open spec fn order_preserving(self) -> VecView {
        match self {
            VecView::Encoded(_, _, SchemeView::Dictionary(_)) => self.decoded(),
            _ => self,
        }
    }

    /// The elements at the positions `idx`, in the order of `idx`. A scalar
    /// stays as it is.
    pub open spec fn gathered(self, idx: Seq<int>) -> VecView {
        match self {
            VecView::Integer(s) => VecView::Integer(gather(s, idx)),
            VecView::String(s) => VecView::String(gather(s, idx)),
            VecView::Boolean(s) => VecView::Boolean(gather(s, idx)),
            VecView::Constant(v) => VecView::Constant(v),
            VecView::Null(n) => VecView::Null(idx.len()),
            VecView::Encoded(enc, codes, scheme) => VecView::Encoded(enc, gather(codes, idx), scheme),
        }
    }

    /// The elements at the set bits of `mask`, in row order.
    pub open spec fn filtered(self, mask: Seq<bool>) -> VecView {
        self.gathered(set_positions(mask))
    }

    /// The integers of a vector of integers or of codes.
    pub open spec fn ints(self) -> Seq<int> {
        match self {
            VecView::Integer(s) => s,
            VecView::Encoded(_, codes, _) => codes,
            _ => Seq::empty(),
        }
    }

    /// Bit `i` says whether element `i` is less than `c`.
    pub open spec fn less_than(self, c: int) -> Seq<bool> {
        Seq::new(self.ints().len(), |i: int| self.ints()[i] < c)
    }

    /// Bit `i` says whether element `i` equals `c`.
    pub open spec fn equals_int(self, c: int) -> Seq<bool> {
        Seq::new(self.ints().len(), |i: int| self.ints()[i] == c)
    }

    /// Whether the vector holds codes of the width `enc`.
    pub open spec fn is_codes(self, enc: EncodingType) -> bool {
        self matches VecView::Encoded(e, _, _) && e == enc
    }

    /// The bits of a bit-vector.
    pub open spec fn bools(self) -> Seq<bool> {
        match self {
            VecView::Boolean(b) => b,
            _ => Seq::empty(),
        }
    }

    /// Whether the vector is an integer scalar.
    pub open spec fn is_int_const(self) -> bool {
        self matches VecView::Constant(c) && c is Int
    }

    /// The integer of an integer scalar.
    pub open spec fn int_const(self) -> int {
        match self {
            VecView::Constant(Val::Int(c)) => c,
            _ => 0,
        }
    }

    /// Whether the vector is a string scalar.
    pub open spec fn is_str_const(self) -> bool {
        self matches VecView::Constant(c) && c is Str
    }

    /// The string of a string scalar.
    pub open spec fn str_const(self) -> Seq<char> {
        match self {
            VecView::Constant(Val::Str(s)) => s,
            _ => Seq::empty(),
        }
    }

    /// The strings of a vector of strings.
    pub open spec fn strs(self) -> Seq<Seq<char>> {
        match self {
            VecView::String(s) => s,
            _ => Seq::empty(),
        }
    }

    /// Bit `i` says whether element `i` is the string `s`.
    pub open spec fn equals_str(self, s: Seq<char>) -> Seq<bool> {
        Seq::new(self.strs().len(), |i: int| self.strs()[i] == s)
    }
}

/// Decoding keeps the values, and so does picking rows before or after it.
pub proof fn lemma_decoded_values(v: VecView)
    ensures
        v.decoded().values() == v.values(),
        v.decoded().len() == v.len(),
        v.values().len() == v.len(),
{
    assert(v.decoded().values() =~= v.values());
}

/// The values of the picked rows are the picked values.
pub proof fn lemma_gathered_values(v: VecView, idx: Seq<int>)
    requires
        !(v is Constant),
        forall|k: int| 0 <= k < idx.len() ==> 0 <= #[trigger] idx[k] < v.len(),
    ensures
        v.gathered(idx).values() == gather(v.values(), idx),
        v.gathered(idx).len() == idx.len(),
        v.gathered(idx).decoded() == v.decoded().gathered(idx),
{
    assert(v.gathered(idx).values() =~= gather(v.values(), idx));
    match v {
        VecView::Encoded(_, codes, scheme) => {
            match scheme {
                SchemeView::Offset { offset, span } => {
                    assert(Seq::new(gather(codes, idx).len(), |i: int| gather(codes, idx)[i] + offset)
                        =~= gather(Seq::new(codes.len(), |i: int| codes[i] + offset), idx));
                },
                SchemeView::Dictionary(book) => {
                    assert(Seq::new(gather(codes, idx).len(), |i: int| book[gather(codes, idx)[i]])
                        =~= gather(Seq::new(codes.len(), |i: int| book[codes[i]]), idx));
                },
            }
        },
        _ => {},
    }
}

/// Picking rows of a well-formed vector gives a well-formed vector.
pub proof fn lemma_gathered_wf(v: VecView, idx: Seq<int>)
    requires
        v.wf(),
        forall|k: int| 0 <= k < idx.len() ==> 0 <= #[trigger] idx[k] < v.len(),
    ensures
        v.gathered(idx).wf(),
{
    match v {
        VecView::Encoded(enc, codes, scheme) => {
            assert forall|i: int| 0 <= i < gather(codes, idx).len() implies scheme.admits(
                #[trigger] gather(codes, idx)[i],
            ) by {
                assert(scheme.admits(codes[idx[i]]));
            }
        },
        _ => {},
    }
}

/// A typed vector: what one operator hands to the next.
pub enum TypedVec<'a> {
    /// Integers at full width.
    Integer(Buf<'a, i64>),
    /// Strings, borrowed from a codebook.
    String(Vec<&'a String>),
    /// One bit per row.
    Boolean(BitVec),
    /// A scalar.
    Constant(RawVal),
    /// A run of nulls.
    Null(usize),
    /// Codes of 8 bits and the scheme that decodes them.
    EncodedU8(Buf<'a, u8>, &'a Scheme),
    /// Codes of 16 bits and the scheme that decodes them.
    EncodedU16(Buf<'a, u16>, &'a Scheme),
    /// Codes of 32 bits and the scheme that decodes them.
    EncodedU32(Buf<'a, u32>, &'a Scheme),
}

/// The strings that a vector of borrowed strings holds.
pub open spec fn strings_of(v: Seq<&String>) -> Seq<Seq<char>> {
    Seq::new(v.len(), |i: int| v[i]@)
}

impl<'a> View for TypedVec<'a> {
    type V = VecView;

    open spec fn view(&self) -> VecView {
        match self {
            TypedVec::Integer(b) => VecView::Integer(values_of(b@)),
            TypedVec::String(v) => VecView::String(strings_of(v@)),
            TypedVec::Boolean(b) => VecView::Boolean(bits(b)),
            TypedVec::Constant(v) => VecView::Constant(v@),
            TypedVec::Null(n) => VecView::Null(*n as nat),
            TypedVec::EncodedU8(b, s) => VecView::Encoded(EncodingType::U8, values_of(b@), s@),
            TypedVec::EncodedU16(b, s) => VecView::Encoded(EncodingType::U16, values_of(b@), s@),
            TypedVec::EncodedU32(b, s) => VecView::Encoded(EncodingType::U32, values_of(b@), s@),
        }
    }
}

/// Picks the elements of `data` at the positions `idx`.
pub fn gather_vec<T: Copy>(data: &Vec<T>, idx: &Vec<usize>) -> (r: Vec<T>)
    requires
        indices_below(idx@, data@.len()),
    ensures
        r@ == gather(data@, index_list(idx@)),
{
    let mut r: Vec<T> = Vec::with_capacity(idx.len());
    let mut k: usize = 0;
    while k < idx.len()
        invariant
            k <= idx.len(),
            indices_below(idx@, data@.len()),
            r@ == gather(data@, index_list(idx@).take(k as int)),
        decreases idx.len() - k,
    {
        r.push(data[idx[k]]);
        assert(r@ =~= gather(data@, index_list(idx@).take(k + 1)));
        k += 1;
    }
    assert(index_list(idx@).take(k as int) =~= index_list(idx@));
    r
}

/// Picks the elements of `data` at the set bits of `mask`.
pub fn filter_vec<T: Copy>(data: &Vec<T>, mask: &BitVec) -> (r: Vec<T>)
    requires
        bits(mask).len() == data@.len(),
    ensures
        r@ == gather(data@, set_positions(bits(mask))),
{
    let n = data.len();
    let mut r: Vec<T> = Vec::new();
    let mut i: usize = 0;
    while i < n
        invariant
            n == data@.len(),
            bits(mask).len() == n,
            i <= n,
            r@ == gather(data@, set_positions(bits(mask).take(i as int))),
        decreases n - i,
    {
        proof {
            lemma_set_positions_step(bits(mask), i as int);
        }
        if bv_get(mask, i) == Some(true) {
            r.push(data[i]);
            assert(r@ =~= gather(data@, set_positions(bits(mask).take(i + 1))));
        }
        i += 1;
    }
    assert(bits(mask).take(n as int) =~= bits(mask));
    r
}

/// Adds the offset of the scheme to every code.
pub fn decode_offsets<T: Packed>(codes: &Vec<T>, offset: i64) -> (r: Vec<i64>)
    requires
        forall|i: int| 0 <= i < codes@.len() ==> #[trigger] codes@[i].value() + offset <= i64::MAX,
    ensures
        values_of(r@) == Seq::new(codes@.len(), |i: int| values_of(codes@)[i] + offset),
{
    let mut r: Vec<i64> = Vec::with_capacity(codes.len());
    let mut i: usize = 0;
    while i < codes.len()
        invariant
            i <= codes.len(),
            forall|j: int| 0 <= j < codes@.len() ==> #[trigger] codes@[j].value() + offset <= i64::MAX,
            r@.len() == i,
            forall|j: int| 0 <= j < i ==> #[trigger] r@[j] == codes@[j].value() + offset,
        decreases codes.len() - i,
    {
        let c = codes[i];
        proof {
            c.lemma_range();
            assert(codes@[i as int].value() + offset <= i64::MAX);
        }
        r.push(c.to_i64() + offset);
        i += 1;
    }
    assert(values_of(r@) =~= Seq::new(codes@.len(), |i: int| values_of(codes@)[i] + offset));
    r
}

/// Looks every code up in the codebook.
pub fn decode_strings<'a, T: Packed>(codes: &Vec<T>, dict: &'a Dictionary) -> (r: Vec<&'a String>)
    requires
        forall|i: int| 0 <= i < codes@.len() ==> #[trigger] codes@[i].value() < dict.book().len(),
    ensures
        strings_of(r@) == Seq::new(codes@.len(), |i: int| dict.book()[values_of(codes@)[i]]),
{
    let mut r: Vec<&'a String> = Vec::with_capacity(codes.len());
    let mut i: usize = 0;
    while i < codes.len()
        invariant
            i <= codes.len(),
            forall|j: int| 0 <= j < codes@.len() ==> #[trigger] codes@[j].value() < dict.book().len(),
            r@.len() == i,
            forall|j: int| 0 <= j < i ==> #[trigger] r@[j]@ == dict.book()[codes@[j].value()],
        decreases codes.len() - i,
    {
        let c = codes[i];
        proof {
            c.lemma_range();
            assert(codes@[i as int].value() < dict.book().len());
        }
        r.push(dict.get(c.to_usize()));
        i += 1;
    }
    assert(strings_of(r@) =~= Seq::new(codes@.len(), |i: int| dict.book()[values_of(codes@)[i]]));
    r
}

/// Decodes a code stream by its scheme.
pub fn decode_codes<'a, T: Packed>(codes: &Vec<T>, scheme: &'a Scheme) -> (r: TypedVec<'a>)
    requires
        scheme.wf(),
        forall|i: int| 0 <= i < codes@.len() ==> scheme@.admits(#[trigger] values_of(codes@)[i]),
    ensures
        r@ == VecView::Encoded(T::encoding(), values_of(codes@), scheme@).decoded(),
{
    match scheme {
        Scheme::Offset { offset, span } => {
            assert forall|i: int| 0 <= i < codes@.len() implies #[trigger] codes@[i].value() + *offset
                <= i64::MAX by {
                assert(scheme@.admits(values_of(codes@)[i]));
            }
            TypedVec::Integer(Buf::Owned(decode_offsets(codes, *offset)))
        },
        Scheme::Dictionary(d) => {
            assert forall|i: int| 0 <= i < codes@.len() implies #[trigger] codes@[i].value()
                < d.book().len() by {
                assert(scheme@.admits(values_of(codes@)[i]));
            }
            TypedVec::String(decode_strings(codes, d))
        },
    }
}

/// Bit `i` of the result says whether `data[i] < c`.
pub fn less_than_scalar<T: IntLike>(data: &Vec<T>, c: i64) -> (r: BitVec)
    ensures
        bits(&r) == Seq::new(data@.len(), |i: int| values_of(data@)[i] < c),
{
    let mut r = bv_with_capacity(data.len());
    let mut i: usize = 0;
    while i < data.len()
        invariant
            i <= data.len(),
            bits(&r) == Seq::new(i as nat, |j: int| values_of(data@)[j] < c),
        decreases data.len() - i,
    {
        bv_push(&mut r, data[i].to_i64() < c);
        assert(bits(&r) =~= Seq::new((i + 1) as nat, |j: int| values_of(data@)[j] < c));
        i += 1;
    }
    r
}

/// Bit `i` of the result says whether `data[i] == c`.
pub fn equals_scalar<T: IntLike>(data: &Vec<T>, c: i64) -> (r: BitVec)
    ensures
        bits(&r) == Seq::new(data@.len(), |i: int| values_of(data@)[i] == c),
{
    let mut r = bv_with_capacity(data.len());
    let mut i: usize = 0;
    while i < data.len()
        invariant
            i <= data.len(),
            bits(&r) == Seq::new(i as nat, |j: int| values_of(data@)[j] == c),
        decreases data.len() - i,
    {
        bv_push(&mut r, data[i].to_i64() == c);
        assert(bits(&r) =~= Seq::new((i + 1) as nat, |j: int| values_of(data@)[j] == c));
        i += 1;
    }
    r
}

/// Bit `i` of the result says whether `data[i]` is the string `s`.
pub fn equals_string(data: &Vec<&String>, s: &String) -> (r: BitVec)
    ensures
        bits(&r) == Seq::new(data@.len(), |i: int| strings_of(data@)[i] == s@),
{
    let mut r = bv_with_capacity(data.len());
    let mut i: usize = 0;
    while i < data.len()
        invariant
            i <= data.len(),
            bits(&r) == Seq::new(i as nat, |j: int| strings_of(data@)[j] == s@),
        decreases data.len() - i,
    {
        let eq = *data[i] == *s;
        bv_push(&mut r, eq);
        assert(bits(&r) =~= Seq::new((i + 1) as nat, |j: int| strings_of(data@)[j] == s@));
        i += 1;
    }
    r
}

/// Picks the bits of `mask` at the positions `idx`.
pub fn gather_bits(mask: &BitVec, idx: &Vec<usize>) -> (r: BitVec)
    requires
        indices_below(idx@, bits(mask).len()),
    ensures
        bits(&r) == gather(bits(mask), index_list(idx@)),
{
    let mut r = bv_with_capacity(idx.len());
    let mut k: usize = 0;
    while k < idx.len()
        invariant
            k <= idx.len(),
            indices_below(idx@, bits(mask).len()),
            bits(&r) == gather(bits(mask), index_list(idx@).take(k as int)),
        decreases idx.len() - k,
    {
        let b = bv_get(mask, idx[k]);
        let bit = match b {
            Some(x) => x,
            None => false,
        };
        bv_push(&mut r, bit);
        assert(bits(&r) =~= gather(bits(mask), index_list(idx@).take(k + 1)));
        k += 1;
    }
    assert(index_list(idx@).take(k as int) =~= index_list(idx@));
    r
}

impl<'a> TypedVec<'a> {
    /// Every code of an encoded vector is a code of its scheme.
    pub open spec fn wf(&self) -> bool {
        match self {
            TypedVec::EncodedU8(_, s) => s.wf() && self@.wf(),
            TypedVec::EncodedU16(_, s) => s.wf() && self@.wf(),
            TypedVec::EncodedU32(_, s) => s.wf() && self@.wf(),
            _ => true,
        }
    }

    /// The number of elements; a scalar has one.
    pub fn len(&self) -> (n: usize)
        ensures
            n == self@.len(),
    {
        match self {
            TypedVec::Integer(b) => b.len(),
            TypedVec::String(v) => v.len(),
            TypedVec::Boolean(b) => bv_len(b),
            TypedVec::Constant(_) => 1,
            TypedVec::Null(n) => *n,
            TypedVec::EncodedU8(b, _) => b.len(),
            TypedVec::EncodedU16(b, _) => b.len(),
            TypedVec::EncodedU32(b, _) => b.len(),
        }
    }

    /// How the elements are represented.
    pub fn get_type(&self) -> (t: EncodingType)
        ensures
            t == self@.encoding(),
    {
        match self {
            TypedVec::Integer(_) => EncodingType::I64,
            TypedVec::String(_) => EncodingType::Str,
            TypedVec::Boolean(_) => EncodingType::BitVec,
            TypedVec::Constant(_) => EncodingType::Null,
            TypedVec::Null(_) => EncodingType::Null,
            TypedVec::EncodedU8(_, _) => EncodingType::U8,
            TypedVec::EncodedU16(_, _) => EncodingType::U16,
            TypedVec::EncodedU32(_, _) => EncodingType::U32,
        }
    }

    /// The integers of a vector of integers at full width.
    pub fn cast_ref_i64(&self) -> (r: &Vec<i64>)
        requires
            self@ is Integer,
        ensures
            values_of(r@) == self@.ints(),
    {
        match self {
            TypedVec::Integer(b) => b.as_vec(),
            _ => unreached(),
        }
    }

    /// The codes of a vector of 8-bit codes.
    pub fn cast_ref_u8(&self) -> (r: &Vec<u8>)
        requires
            self@.is_codes(EncodingType::U8),
        ensures
            values_of(r@) == self@.ints(),
    {
        match self {
            TypedVec::EncodedU8(b, _) => b.as_vec(),
            _ => unreached(),
        }
    }

    /// The codes of a vector of 16-bit codes.
    pub fn cast_ref_u16(&self) -> (r: &Vec<u16>)
        requires
            self@.is_codes(EncodingType::U16),
        ensures
            values_of(r@) == self@.ints(),
    {
        match self {
            TypedVec::EncodedU16(b, _) => b.as_vec(),
            _ => unreached(),
        }
    }

    /// The codes of a vector of 32-bit codes.
    pub fn cast_ref_u32(&self) -> (r: &Vec<u32>)
        requires
            self@.is_codes(EncodingType::U32),
        ensures
            values_of(r@) == self@.ints(),
    {
        match self {
            TypedVec::EncodedU32(b, _) => b.as_vec(),
            _ => unreached(),
        }
    }

    /// The strings of a vector of strings.
    pub fn cast_ref_str(&self) -> (r: &Vec<&'a String>)
        requires
            self@ is String,
        ensures
            strings_of(r@) == self@.strs(),
    {
        match self {
            TypedVec::String(v) => v,
            _ => unreached(),
        }
    }

    /// The string of a string scalar.
    pub fn cast_str_const(&self) -> (r: &String)
        requires
            self@.is_str_const(),
        ensures
            r@ == self@.str_const(),
    {
        match self {
            TypedVec::Constant(RawVal::Str(s)) => s,
            _ => unreached(),
        }
    }

    /// The integer of an integer scalar.
    pub fn cast_int_const(&self) -> (r: i64)
        requires
            self@.is_int_const(),
        ensures
            r == self@.int_const(),
    {
        match self {
            TypedVec::Constant(RawVal::Int(i)) => *i,
            _ => unreached(),
        }
    }

    /// The bit-vector of a vector of bits.
    pub fn cast_bit_vec(self) -> (r: BitVec)
        requires
            self@ is Boolean,
        ensures
            bits(&r) == self@.bools(),
    {
        match self {
            TypedVec::Boolean(b) => b,
            _ => unreached(),
        }
    }

    /// Replaces every code by the value it stands for. A vector that holds
    /// no codes is handed back as it is.
    pub fn decode(self) -> (r: TypedVec<'a>)
        requires
            self.wf(),
        ensures
            r@ == self@.decoded(),
            r.wf(),
    {
        match self {
            TypedVec::EncodedU8(b, s) => decode_codes(b.as_vec(), s),
            TypedVec::EncodedU16(b, s) => decode_codes(b.as_vec(), s),
            TypedVec::EncodedU32(b, s) => decode_codes(b.as_vec(), s),
            other => other,
        }
    }

    /// A vector whose elements are ordered as the values are: codes of an
    /// offset encoding as they are, codes of a dictionary decoded to their
    /// strings, any other vector as it is.
    pub fn order_preserving(self) -> (r: TypedVec<'a>)
        requires
            self.wf(),
        ensures
            r@ == self@.order_preserving(),
            r@.values() == self@.values(),
            r.wf(),
    {
        proof {
            lemma_decoded_values(self@);
        }
        let by_dictionary = match &self {
            TypedVec::EncodedU8(_, s) => matches!(s, Scheme::Dictionary(_)),
            TypedVec::EncodedU16(_, s) => matches!(s, Scheme::Dictionary(_)),
            TypedVec::EncodedU32(_, s) => matches!(s, Scheme::Dictionary(_)),
            _ => false,
        };
        if by_dictionary {
            self.decode()
        } else {
            self
        }
    }

    /// The elements at the positions `indices`, in that order. A scalar is
    /// copied as it is.
    pub fn index(&self, indices: &Vec<usize>) -> (r: TypedVec<'a>)
        requires
            self.wf(),
            !(self@ is Constant) ==> indices_below(indices@, self@.len()),
        ensures
            r@ == self@.gathered(index_list(indices@)),
            r.wf(),
    {
        match self {
            TypedVec::Integer(b) => TypedVec::Integer(Buf::Owned(gather_ints(b.as_vec(), indices))),
            TypedVec::String(v) => {
                let r = gather_vec(v, indices);
                assert(strings_of(r@) =~= gather(strings_of(v@), index_list(indices@)));
                TypedVec::String(r)
            },
            TypedVec::Boolean(b) => TypedVec::Boolean(gather_bits(b, indices)),
            TypedVec::Constant(v) => TypedVec::Constant(v.clone()),
            TypedVec::Null(_) => {
                assert(index_list(indices@).len() == indices@.len());
                TypedVec::Null(indices.len())
            },
            TypedVec::EncodedU8(b, s) => TypedVec::EncodedU8(
                Buf::Owned(gather_ints(b.as_vec(), indices)),
                *s,
            ),
            TypedVec::EncodedU16(b, s) => TypedVec::EncodedU16(
                Buf::Owned(gather_ints(b.as_vec(), indices)),
                *s,
            ),
            TypedVec::EncodedU32(b, s) => TypedVec::EncodedU32(
                Buf::Owned(gather_ints(b.as_vec(), indices)),
                *s,
            ),
        }
    }

    /// The elements at the set bits of `mask`, in row order. A scalar is
    /// copied as it is.
    pub fn filter(&self, mask: &BitVec) -> (r: TypedVec<'a>)
        requires
            self.wf(),
            !(self@ is Constant) ==> bits(mask).len() == self@.len(),
        ensures
            r@ == self@.filtered(bits(mask)),
            r.wf(),
    {
        proof {
            lemma_set_positions_bounds(bits(mask));
        }
        match self {
            TypedVec::Integer(b) => TypedVec::Integer(Buf::Owned(filter_ints(b.as_vec(), mask))),
            TypedVec::String(v) => {
                let r = filter_vec(v, mask);
                assert(strings_of(r@) =~= gather(strings_of(v@), set_positions(bits(mask))));
                TypedVec::String(r)
            },
            TypedVec::Boolean(b) => {
                let idx = crate::bits::positions_of(mask);
                assert(indices_below(idx@, bits(b).len())) by {
                    assert forall|k: int| 0 <= k < idx@.len() implies #[trigger] idx@[k] < bits(b).len() by {
                        assert(index_list(idx@)[k] == idx@[k]);
                    }
                }
                TypedVec::Boolean(gather_bits(b, &idx))
            },
            TypedVec::Constant(v) => TypedVec::Constant(v.clone()),
            TypedVec::Null(_) => {
                let idx = crate::bits::positions_of(mask);
                assert(index_list(idx@).len() == idx@.len());
                TypedVec::Null(idx.len())
            },
            TypedVec::EncodedU8(b, s) => TypedVec::EncodedU8(Buf::Owned(filter_ints(b.as_vec(), mask)), *s),
            TypedVec::EncodedU16(b, s) => TypedVec::EncodedU16(Buf::Owned(filter_ints(b.as_vec(), mask)), *s),
            TypedVec::EncodedU32(b, s) => TypedVec::EncodedU32(Buf::Owned(filter_ints(b.as_vec(), mask)), *s),
        }
    }
}

/// Picks the integers of `data` at the positions `idx`.
pub fn gather_ints<T: IntLike>(data: &Vec<T>, idx: &Vec<usize>) -> (r: Vec<T>)
    requires
        indices_below(idx@, data@.len()),
    ensures
        r@ == gather(data@, index_list(idx@)),
        values_of(r@) == gather(values_of(data@), index_list(idx@)),
{
    let r = gather_vec(data, idx);
    assert(values_of(r@) =~= gather(values_of(data@), index_list(idx@)));
    r
}

/// Picks the integers of `data` at the set bits of `mask`.
pub fn filter_ints<T: IntLike>(data: &Vec<T>, mask: &BitVec) -> (r: Vec<T>)
    requires
        bits(mask).len() == data@.len(),
    ensures
        r@ == gather(data@, set_positions(bits(mask))),
        values_of(r@) == gather(values_of(data@), set_positions(bits(mask))),
{
    let r = filter_vec(data, mask);
    proof {
        lemma_set_positions_bounds(bits(mask));
    }
    assert(values_of(r@) =~= gather(values_of(data@), set_positions(bits(mask))));
    r
}

} // verus!
