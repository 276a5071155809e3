//! Frozen column segments: a row count and one of the storage forms, with the
//! codec of those that are stored in a compact encoding.

use crate::bits::{bits, lemma_set_positions_bounds, set_positions};
use crate::dictionary::{first_seen, lemma_first_seen, lemma_first_seen_prefix, Dictionary};
use crate::int_like::{values_of, Buf, EncodingType, IntLike, Packed};
use crate::raw_val::{BasicType, RawVal, Val};
use crate::typed_vec::{
    gather, index_list, indices_below, lemma_decoded_values, lemma_gathered_values, TypedVec,
    VecView,
};
use bit_vec::BitVec;
use vstd::prelude::*;

verus! {

/// The mathematical model of an encoding scheme.
pub enum SchemeView {
    /// Codes stand for integers: a code `c` is the integer `c + offset`, and
    /// no code is larger than `span`.
    Offset { offset: int, span: int },
    /// Codes stand for strings: a code is a position in the codebook.
    Dictionary(Seq<Seq<char>>),
}

impl SchemeView {
    /// The number of codes that the scheme knows.
    pub open spec fn cardinality(self) -> int {
        match self {
            SchemeView::Offset { offset, span } => span + 1,
            SchemeView::Dictionary(book) => book.len() as int,
        }
    }

    /// Whether `code` is a code of the scheme.
    pub open spec fn admits(self, code: int) -> bool {
        0 <= code < self.cardinality()
    }

    /// The value that a code stands for.
    pub open spec fn decode(self, code: int) -> Val {
        match self {
            SchemeView::Offset { offset, span } => Val::Int(code + offset),
            SchemeView::Dictionary(book) => Val::Str(book[code]),
        }
    }

    /// The basic type of the decoded values.
    pub open spec fn basic_type(self) -> BasicType {
        match self {
            SchemeView::Offset { .. } => BasicType::Integer,
            SchemeView::Dictionary(_) => BasicType::String,
        }
    }

    /// The code of the integer `i`, or -1 where no code of at most `limit`
    /// stands for it.
    pub open spec fn encode_int(self, limit: int, i: int) -> int {
        match self {
            SchemeView::Offset { offset, span } => if 0 <= i - offset <= limit {
                i - offset
            } else {
                -1
            },
            SchemeView::Dictionary(_) => -1,
        }
    }

    /// The code of the string `s`, or -1 where the codebook does not hold it.
    pub open spec fn encode_str(self, s: Seq<char>) -> int {
        match self {
            SchemeView::Offset { .. } => -1,
            SchemeView::Dictionary(book) => if book.contains(s) {
                book.index_of(s)
            } else {
                -1
            },
        }
    }
}

/// How the codes of a column are turned back into values.
pub enum Scheme {
    Offset { offset: i64, span: u32 },
    Dictionary(Dictionary),
}

impl View for Scheme {
    type V = SchemeView;

    open spec fn view(&self) -> SchemeView {
        match self {
            Scheme::Offset { offset, span } => SchemeView::Offset {
                offset: *offset as int,
                span: *span as int,
            },
            Scheme::Dictionary(d) => SchemeView::Dictionary(d.book()),
        }
    }
}

impl Scheme {
    /// Every code decodes to a value that fits, and a dictionary is
    /// well-formed.
    pub open spec fn wf(&self) -> bool {
        match self {
            Scheme::Offset { offset, span } => *offset + *span <= i64::MAX,
            Scheme::Dictionary(d) => d.wf(),
        }
    }

    /// The number of codes that the scheme knows.
    pub fn cardinality(&self) -> (n: u64)
        requires
            self.wf(),
        ensures
            n == self@.cardinality(),
    {
        match self {
            Scheme::Offset { offset, span } => *span as u64 + 1,
            Scheme::Dictionary(d) => d.len() as u64,
        }
    }
}

/// A packed code stream.
pub enum Codes {
    U8(Vec<u8>),
    U16(Vec<u16>),
    U32(Vec<u32>),
}

impl Codes {
    /// The codes as integers.
    pub open spec fn values(&self) -> Seq<int> {
        match self {
            Codes::U8(v) => values_of(v@),
            Codes::U16(v) => values_of(v@),
            Codes::U32(v) => values_of(v@),
        }
    }

    /// The width of the stream.
    pub open spec fn encoding(&self) -> EncodingType {
        match self {
            Codes::U8(_) => EncodingType::U8,
            Codes::U16(_) => EncodingType::U16,
            Codes::U32(_) => EncodingType::U32,
        }
    }

    /// The largest code that the width holds.
    pub open spec fn limit(&self) -> int {
        match self {
            Codes::U8(_) => u8::MAX as int,
            Codes::U16(_) => u16::MAX as int,
            Codes::U32(_) => u32::MAX as int,
        }
    }

    pub fn len(&self) -> (n: usize)
        ensures
            n == self.values().len(),
    {
        match self {
            Codes::U8(v) => v.len(),
            Codes::U16(v) => v.len(),
            Codes::U32(v) => v.len(),
        }
    }

    pub fn encoding_type(&self) -> (t: EncodingType)
        ensures
            t == self.encoding(),
    {
        match self {
            Codes::U8(_) => EncodingType::U8,
            Codes::U16(_) => EncodingType::U16,
            Codes::U32(_) => EncodingType::U32,
        }
    }
}

/// The narrowest width whose largest code is at least `max_code`.
pub open spec fn narrowest(max_code: int) -> EncodingType {
    if max_code <= u8::MAX {
        EncodingType::U8
    } else if max_code <= u16::MAX {
        EncodingType::U16
    } else {
        EncodingType::U32
    }
}

/// The compact form of a column: a code stream and the scheme that decodes it.
pub struct ColumnCodec {
    pub codes: Codes,
    pub scheme: Scheme,
}

impl ColumnCodec {
    /// The scheme is well-formed and knows every code of the stream, and
    /// the width of the stream holds every code of the scheme.
    pub open spec fn wf(&self) -> bool {
        &&& self.scheme.wf()
        &&& self.scheme@.cardinality() <= self.codes.limit() + 1
        &&& forall|i: int|
            0 <= i < self.codes.values().len() ==> self.scheme@.admits(#[trigger] self.codes.values()[i])
    }

    /// The values of the rows.
    pub open spec fn values(&self) -> Seq<Val> {
        Seq::new(self.codes.values().len(), |i: int| self.scheme@.decode(self.codes.values()[i]))
    }

    /// The code that stands for the integer `i` in comparisons with the code
    /// stream, or -1 where none does.
    pub open spec fn encoded_int(&self, i: int) -> int {
        self.scheme@.encode_int(self.codes.limit(), i)
    }

    /// The code that stands for the string `s`, or -1 where none does.
    pub open spec fn encoded_str(&self, s: Seq<char>) -> int {
        self.scheme@.encode_str(s)
    }

    /// Encodes an integer constant for comparison with the code stream. A
    /// constant that no code of this width stands for becomes -1, which
    /// is no code.
    pub fn encode_int(&self, i: i64) -> (r: RawVal)
        ensures
            r@ == Val::Int(self.encoded_int(i as int)),
    {
        match &self.scheme {
            Scheme::Offset { offset, span } => {
                let diff: i128 = i as i128 - *offset as i128;
                let limit: i128 = match self.codes {
                    Codes::U8(_) => u8::MAX as i128,
                    Codes::U16(_) => u16::MAX as i128,
                    Codes::U32(_) => u32::MAX as i128,
                };
                if 0 <= diff && diff <= limit {
                    RawVal::Int(diff as i64)
                } else {
                    RawVal::Int(-1)
                }
            },
            Scheme::Dictionary(_) => RawVal::Int(-1),
        }
    }

    /// Encodes a string constant for comparison with the code stream. A
    /// string that the codebook does not hold becomes -1, which is no code.
    pub fn encode_str(&self, s: &str) -> (r: RawVal)
        requires
            self.wf(),
        ensures
            r@ == Val::Int(self.encoded_str(s@)),
    {
        match &self.scheme {
            Scheme::Offset { .. } => RawVal::Int(-1),
            Scheme::Dictionary(d) => match d.code_of(s) {
                Some(c) => {
                    assert(d.book().contains(s@));
                    RawVal::Int(c as i64)
                },
                None => RawVal::Int(-1),
            },
        }
    }
}

impl View for ColumnCodec {
    type V = VecView;

    /// The code stream as an encoded vector.
    open spec fn view(&self) -> VecView {
        VecView::Encoded(self.codes.encoding(), self.codes.values(), self.scheme@)
    }
}

impl ColumnCodec {
    /// The code stream, borrowed.
    pub fn get_encoded<'a>(&'a self) -> (r: TypedVec<'a>)
        requires
            self.wf(),
        ensures
            r@ == self@,
            r.wf(),
    {
        let r = match &self.codes {
            Codes::U8(v) => TypedVec::EncodedU8(Buf::Borrowed(v), &self.scheme),
            Codes::U16(v) => TypedVec::EncodedU16(Buf::Borrowed(v), &self.scheme),
            Codes::U32(v) => TypedVec::EncodedU32(Buf::Borrowed(v), &self.scheme),
        };
        assert(r@.wf()) by {
            assert forall|i: int| 0 <= i < self.codes.values().len() implies self.scheme@.admits(
                #[trigger] r@.ints()[i],
            ) by {
                assert(self.scheme@.admits(self.codes.values()[i]));
            }
        }
        r
    }

    /// The codes of the rows at the set bits of `mask`, in row order.
    pub fn filter_encoded<'a>(&'a self, mask: &BitVec) -> (r: TypedVec<'a>)
        requires
            self.wf(),
            bits(mask).len() == self@.len(),
        ensures
            r@ == self@.filtered(bits(mask)),
            r.wf(),
    {
        self.get_encoded().filter(mask)
    }

    /// The codes of the rows at the positions `indices`, in that order.
    pub fn index_encoded<'a>(&'a self, indices: &Vec<usize>) -> (r: TypedVec<'a>)
        requires
            self.wf(),
            indices_below(indices@, self@.len()),
        ensures
            r@ == self@.gathered(index_list(indices@)),
            r.wf(),
    {
        self.get_encoded().index(indices)
    }

    /// The values that the codes of `encoded` stand for.
    pub fn decode<'a>(&self, encoded: TypedVec<'a>) -> (r: TypedVec<'a>)
        requires
            encoded.wf(),
        ensures
            r@ == encoded@.decoded(),
            r.wf(),
    {
        encoded.decode()
    }

    /// Packs the values of an integer column as offsets from `min` in the
    /// width `T`.
    fn offset_codes<T: Packed>(values: &Vec<i64>, min: i64) -> (r: Vec<T>)
        requires
            forall|i: int| 0 <= i < values@.len() ==> 0 <= #[trigger] values@[i] - min <= T::limit(),
        ensures
            values_of(r@) == Seq::new(values@.len(), |i: int| values@[i] - min),
    {
        let mut r: Vec<T> = Vec::with_capacity(values.len());
        let mut i: usize = 0;
        while i < values.len()
            invariant
                i <= values.len(),
                forall|j: int| 0 <= j < values@.len() ==> 0 <= #[trigger] values@[j] - min <= T::limit(),
                r@.len() == i,
                forall|j: int| 0 <= j < i ==> #[trigger] r@[j].value() == values@[j] - min,
            decreases values.len() - i,
        {
            let v = values[i];
            assert(0 <= values@[i as int] - min <= T::limit());
            proof {
                T::lemma_limit();
            }
            match T::narrow(v - min) {
                Some(c) => {
                    r.push(c);
                },
                None => {
                    assert(false);
                },
            }
            i += 1;
        }
        assert(values_of(r@) =~= Seq::new(values@.len(), |i: int| values@[i] - min));
        r
    }

    /// Packs dictionary codes in the width `T`.
    fn pack_codes<T: Packed>(codes: &Vec<usize>) -> (r: Vec<T>)
        requires
            forall|i: int| 0 <= i < codes@.len() ==> #[trigger] codes@[i] <= T::limit(),
        ensures
            values_of(r@) == index_list(codes@),
    {
        let mut r: Vec<T> = Vec::with_capacity(codes.len());
        let mut i: usize = 0;
        while i < codes.len()
            invariant
                i <= codes.len(),
                forall|j: int| 0 <= j < codes@.len() ==> #[trigger] codes@[j] <= T::limit(),
                r@.len() == i,
                forall|j: int| 0 <= j < i ==> #[trigger] r@[j].value() == codes@[j],
            decreases codes.len() - i,
        {
            let c = codes[i];
            assert(codes@[i as int] <= T::limit());
            proof {
                T::lemma_limit();
            }
            match T::narrow(c as i64) {
                Some(p) => {
                    r.push(p);
                },
                None => {
                    assert(false);
                },
            }
            i += 1;
        }
        assert(values_of(r@) =~= index_list(codes@));
        r
    }

    /// The dictionary encoding of a sequence of strings: the codebook holds
    /// the distinct strings in first-seen order, and the codes are packed in
    /// the narrowest width that holds the largest of them.
    pub fn from_strings(texts: &Vec<String>) -> (r: ColumnCodec)
        requires
            first_seen(texts_of(texts@)).len() <= u32::MAX as int + 1,
        ensures
            r.wf(),
            r.scheme@ == SchemeView::Dictionary(first_seen(texts_of(texts@))),
            r.codes.encoding() == narrowest(first_seen(texts_of(texts@)).len() - 1),
            r.codes.values().len() == texts@.len(),
            r.values() == Seq::new(texts@.len(), |i: int| Val::Str(texts@[i]@)),
    {
        let ghost all = texts_of(texts@);
        let mut dict = Dictionary::new();
        let mut codes: Vec<usize> = Vec::with_capacity(texts.len());
        let mut i: usize = 0;
        assert(all.take(0) =~= Seq::<Seq<char>>::empty());
        while i < texts.len()
            invariant
                i <= texts.len(),
                all == texts_of(texts@),
                first_seen(all).len() <= u32::MAX as int + 1,
                dict.wf(),
                dict.book() == first_seen(all.take(i as int)),
                codes@.len() == i,
                forall|j: int|
                    0 <= j < i ==> #[trigger] codes@[j] < dict.book().len()
                        && dict.book()[codes@[j] as int] == all[j],
            decreases texts.len() - i,
        {
            proof {
                lemma_first_seen_prefix(all, i as int + 1);
                assert(all.take(i as int + 1).drop_last() =~= all.take(i as int));
                assert(all.take(i as int + 1).last() == texts@[i as int]@);
            }
            let code = dict.intern(texts[i].clone());
            codes.push(code);
            i += 1;
        }
        assert(all.take(texts.len() as int) =~= all);
        let count = dict.len();
        let packed = if count <= u8::MAX as usize + 1 {
            Codes::U8(Self::pack_codes::<u8>(&codes))
        } else if count <= u16::MAX as usize + 1 {
            Codes::U16(Self::pack_codes::<u16>(&codes))
        } else {
            Codes::U32(Self::pack_codes::<u32>(&codes))
        };
        let mut dict = dict;
        shrink_to_fit(&mut dict.codebook);
        let r = ColumnCodec { codes: packed, scheme: Scheme::Dictionary(dict) };
        assert(r.codes.values() =~= index_list(codes@));
        assert(r.values() =~= Seq::new(texts@.len(), |i: int| Val::Str(texts@[i]@)));
        r
    }
}

/// The strings that a vector of strings holds.
pub open spec fn texts_of(v: Seq<String>) -> Seq<Seq<char>> {
    Seq::new(v.len(), |i: int| v[i]@)
}

/// `Vec::shrink_to_fit`: gives spare capacity back and keeps the elements.
#[verifier::external_body]
pub(crate) fn shrink_to_fit<T>(v: &mut Vec<T>)
    ensures
        final(v)@ == old(v)@,
{
    v.shrink_to_fit()
}

impl IntegerColumn {
    /// Freezes integers whose smallest is at least `min` and whose largest
    /// is at most `max`: as offsets from `min` in the narrowest of 8, 16 and
    /// 32 bits that holds `max - min`, and at full width where none does.
    pub fn new(values: Vec<i64>, min: i64, max: i64) -> (r: ColumnData)
        requires
            min <= max,
            forall|i: int| 0 <= i < values@.len() ==> min <= #[trigger] values@[i] <= max,
        ensures
            r.wf(),
            r.values() == int_values(values_of(values@)),
            max - min > u32::MAX ==> r is Integer && r->Integer_0.values@ == values@,
            max - min <= u32::MAX ==> r is Encoded && r->Encoded_0.scheme@ == (SchemeView::Offset {
                offset: min as int,
                span: max - min,
            }) && r->Encoded_0.codes.encoding() == narrowest(max - min) && r->Encoded_0.codes.values()
                == Seq::new(values@.len(), |i: int| values@[i] - min),
    {
        let range: i128 = max as i128 - min as i128;
        if range <= u32::MAX as i128 {
            let codes = if range <= u8::MAX as i128 {
                Codes::U8(ColumnCodec::offset_codes::<u8>(&values, min))
            } else if range <= u16::MAX as i128 {
                Codes::U16(ColumnCodec::offset_codes::<u16>(&values, min))
            } else {
                Codes::U32(ColumnCodec::offset_codes::<u32>(&values, min))
            };
            let codec = ColumnCodec { codes, scheme: Scheme::Offset { offset: min, span: range as u32 } };
            assert(codec.values() =~= int_values(values_of(values@)));
            ColumnData::Encoded(codec)
        } else {
            let mut values = values;
            shrink_to_fit(&mut values);
            ColumnData::Integer(IntegerColumn { values })
        }
    }
}

/// An integer column that keeps its values at full width.
pub struct IntegerColumn {
    pub values: Vec<i64>,
}

/// The storage forms of a column.
pub enum ColumnData {
    /// Only nulls: the row count.
    Null(usize),
    /// Integers at full width.
    Integer(IntegerColumn),
    /// A compact encoding.
    Encoded(ColumnCodec),
}

/// `n` nulls.
pub open spec fn nulls(n: nat) -> Seq<Val> {
    Seq::new(n, |i: int| Val::Null)
}

/// The values that a sequence of integers stands for.
pub open spec fn int_values(s: Seq<int>) -> Seq<Val> {
    Seq::new(s.len(), |i: int| Val::Int(s[i]))
}

impl ColumnData {
    pub open spec fn wf(&self) -> bool {
        match self {
            ColumnData::Encoded(c) => c.wf(),
            _ => true,
        }
    }

    /// The values of the rows.
    pub open spec fn values(&self) -> Seq<Val> {
        match self {
            ColumnData::Null(n) => nulls(*n as nat),
            ColumnData::Integer(c) => int_values(values_of(c.values@)),
            ColumnData::Encoded(c) => c.values(),
        }
    }

    /// The basic type of the values.
    pub open spec fn basic_type(&self) -> BasicType {
        match self {
            ColumnData::Null(_) => BasicType::Null,
            ColumnData::Integer(_) => BasicType::Integer,
            ColumnData::Encoded(c) => c.scheme@.basic_type(),
        }
    }

    /// The codec, where the column is stored in a compact encoding.
    pub open spec fn codec(&self) -> Option<ColumnCodec> {
        match self {
            ColumnData::Encoded(c) => Some(*c),
            _ => None,
        }
    }

    /// The number of rows.
    pub fn len(&self) -> (n: usize)
        ensures
            n == self.values().len(),
    {
        match self {
            ColumnData::Null(n) => *n,
            ColumnData::Integer(c) => c.values.len(),
            ColumnData::Encoded(c) => c.codes.len(),
        }
    }

    /// The codec, where the column is stored in a compact encoding.
    pub fn to_codec(&self) -> (r: Option<&ColumnCodec>)
        ensures
            match r {
                Some(c) => self.codec() == Some(*c),
                None => self.codec() is None,
            },
    {
        match self {
            ColumnData::Encoded(c) => Some(c),
            _ => None,
        }
    }
}

impl ColumnData {
    /// The column as it is stored: codes where it is encoded.
    pub open spec fn stored(&self) -> VecView {
        match self {
            ColumnData::Null(n) => VecView::Null(*n as nat),
            ColumnData::Integer(c) => VecView::Integer(values_of(c.values@)),
            ColumnData::Encoded(c) => c@,
        }
    }

    /// How the column is stored.
    pub open spec fn encoding(&self) -> EncodingType {
        self.stored().encoding()
    }

    /// The column as stored, borrowed.
    pub fn get_stored<'a>(&'a self) -> (r: TypedVec<'a>)
        requires
            self.wf(),
        ensures
            r@ == self.stored(),
            r.wf(),
            !(r@ is Constant),
            r@.len() == self.values().len(),
    {
        match self {
            ColumnData::Null(n) => TypedVec::Null(*n),
            ColumnData::Integer(c) => TypedVec::Integer(Buf::Borrowed(&c.values)),
            ColumnData::Encoded(c) => c.get_encoded(),
        }
    }

    /// The decoded view of the whole column.
    pub fn collect_decoded<'a>(&'a self) -> (r: TypedVec<'a>)
        requires
            self.wf(),
        ensures
            r@ == self.stored().decoded(),
            r@.values() == self.values(),
            r.wf(),
    {
        proof {
            lemma_decoded_values(self.stored());
            assert(self.stored().values() =~= self.values());
        }
        self.get_stored().decode()
    }

    /// The decoded rows at the set bits of `mask`, in row order.
    pub fn filter_decode<'a>(&'a self, mask: &BitVec) -> (r: TypedVec<'a>)
        requires
            self.wf(),
            bits(mask).len() == self.values().len(),
        ensures
            r@ == self.stored().decoded().filtered(bits(mask)),
            r@.values() == gather(self.values(), set_positions(bits(mask))),
            r.wf(),
    {
        proof {
            lemma_set_positions_bounds(bits(mask));
            lemma_gathered_values(self.stored(), set_positions(bits(mask)));
            lemma_decoded_values(self.stored().filtered(bits(mask)));
            assert(self.stored().values() =~= self.values());
        }
        self.get_stored().filter(mask).decode()
    }

    /// The decoded rows at the positions `indices`, in that order.
    pub fn index_decode<'a>(&'a self, indices: &Vec<usize>) -> (r: TypedVec<'a>)
        requires
            self.wf(),
            indices_below(indices@, self.values().len()),
        ensures
            r@ == self.stored().decoded().gathered(index_list(indices@)),
            r@.values() == gather(self.values(), index_list(indices@)),
            r.wf(),
    {
        proof {
            assert forall|k: int| 0 <= k < index_list(indices@).len() implies 0 <= #[trigger] index_list(
                indices@,
            )[k] < self.stored().len() by {
                assert(indices@[k] < self.values().len());
            }
            lemma_gathered_values(self.stored(), index_list(indices@));
            lemma_decoded_values(self.stored().gathered(index_list(indices@)));
            assert(self.stored().values() =~= self.values());
        }
        self.get_stored().index(indices).decode()
    }
}

/// Filtered decoding yields as many values as the filter has set bits, and
/// its `i`-th value is the value of the column at the position of the
/// `i`-th set bit.
pub proof fn lemma_filter_decode(col: ColumnData, mask: Seq<bool>)
    requires
        col.wf(),
        mask.len() == col.values().len(),
    ensures
        col.stored().decoded().filtered(mask).values().len() == crate::bits::count_ones(mask),
        forall|i: int|
            0 <= i < crate::bits::count_ones(mask) ==> 0 <= set_positions(mask)[i] < mask.len()
                && mask[set_positions(mask)[i]]
                && #[trigger] col.stored().decoded().filtered(mask).values()[i]
                == col.values()[set_positions(mask)[i]],
        forall|i: int, j: int|
            0 <= i < j < crate::bits::count_ones(mask) ==> #[trigger] set_positions(mask)[i]
                < #[trigger] set_positions(mask)[j],
{
    lemma_set_positions_bounds(mask);
    crate::bits::lemma_set_positions_increasing(mask);
    lemma_decoded_values(col.stored());
    lemma_gathered_values(col.stored().decoded(), set_positions(mask));
    assert(col.stored().values() =~= col.values());
}

/// Indexed decoding yields one value per index, and its `i`-th value is
/// the value of the column at the `i`-th index.
pub proof fn lemma_index_decode(col: ColumnData, indices: Seq<int>)
    requires
        col.wf(),
        forall|k: int| 0 <= k < indices.len() ==> 0 <= #[trigger] indices[k] < col.values().len(),
    ensures
        col.stored().decoded().gathered(indices).values().len() == indices.len(),
        forall|i: int|
            0 <= i < indices.len() ==> #[trigger] col.stored().decoded().gathered(indices).values()[i]
                == col.values()[indices[i]],
{
    lemma_decoded_values(col.stored());
    lemma_gathered_values(col.stored().decoded(), indices);
    assert(col.stored().values() =~= col.values());
}

/// A dictionary built from `texts` holds each of their strings once; a
/// string of the input is encoded as a code that decodes to it, and any
/// other string as -1, which is no code.
pub proof fn lemma_dictionary_round_trip(texts: Seq<Seq<char>>, s: Seq<char>)
    ensures
        first_seen(texts).no_duplicates(),
        forall|t: Seq<char>| texts.contains(t) <==> first_seen(texts).contains(t),
        texts.contains(s) ==> SchemeView::Dictionary(first_seen(texts)).admits(
            SchemeView::Dictionary(first_seen(texts)).encode_str(s),
        ) && SchemeView::Dictionary(first_seen(texts)).decode(
            SchemeView::Dictionary(first_seen(texts)).encode_str(s),
        ) == Val::Str(s),
        !texts.contains(s) ==> SchemeView::Dictionary(first_seen(texts)).encode_str(s) == -1,
        !SchemeView::Dictionary(first_seen(texts)).admits(-1),
{
    lemma_first_seen(texts);
    let book = first_seen(texts);
    if texts.contains(s) {
        assert(book.contains(s));
        let k = book.index_of(s);
        assert(0 <= k < book.len() && book[k] == s);
    }
}

/// A named, frozen column. Freezing stores a null as 0 in a column of
/// integers and as the empty string in a column of strings; the column
/// notes how many of its rows were null.
pub struct Column {
    pub name: String,
    pub data: ColumnData,
    pub nulls: usize,
}

impl Column {
    /// The data is well-formed, and no more rows were null than there are.
    pub open spec fn wf(&self) -> bool {
        self.data.wf() && self.nulls <= self.data.values().len()
    }

    /// A column of the given name and data, of whose rows `nulls` were
    /// null.
    pub fn new(name: String, data: ColumnData, nulls: usize) -> (c: Column)
        ensures
            c.name == name,
            c.data == data,
            c.nulls == nulls,
    {
        Column { name, data, nulls }
    }

    /// The number of rows that were null when the column was frozen.
    pub fn null_count(&self) -> (n: usize)
        ensures
            n == self.nulls,
    {
        self.nulls
    }

    /// The values of the rows.
    pub open spec fn values(&self) -> Seq<Val> {
        self.data.values()
    }

    pub fn name(&self) -> (r: &str)
        ensures
            r@ == self.name@,
    {
        self.name.as_str()
    }

    pub fn len(&self) -> (n: usize)
        ensures
            n == self.values().len(),
    {
        self.data.len()
    }

    pub fn data(&self) -> (r: &ColumnData)
        ensures
            *r == self.data,
    {
        &self.data
    }
}

} // verus!
