//! The integer widths that columns and vectors are stored in.

use vstd::prelude::*;

verus! {

/// How the elements of a vector are represented.
#[derive(Clone, Copy, Debug, PartialEq, Eq, Structural)]
pub enum EncodingType {
    Str,
    I64,
    U8,
    U16,
    U32,
    Null,
    BitVec,
}

/// The largest integer that a width holds.
pub open spec fn widest(enc: EncodingType) -> int {
    match enc {
        EncodingType::U8 => u8::MAX as int,
        EncodingType::U16 => u16::MAX as int,
        EncodingType::U32 => u32::MAX as int,
        _ => i64::MAX as int,
    }
}

/// An integer type that a vector of integers can be stored in.
pub trait IntLike: Copy + Sized {
    /// The integer that the value stands for.
    spec fn value(self) -> int;

    /// The encoding that vectors of this type carry.
    spec fn encoding() -> EncodingType;

    fn to_i64(self) -> (r: i64)
        ensures
            r as int == self.value(),
    ;

    fn encoding_type() -> (r: EncodingType)
        ensures
            r == Self::encoding(),
    ;
}

/// An unsigned integer type that codes are packed in.
pub trait Packed: IntLike {
    /// The largest code that the type holds.
    spec fn limit() -> int;

    proof fn lemma_range(self)
        ensures
            0 <= self.value() <= Self::limit(),
            Self::limit() <= u32::MAX,
    ;

    proof fn lemma_limit()
        ensures
            0 <= Self::limit() <= u32::MAX,
    ;

    /// The code `v`, where the type can hold it.
    fn narrow(v: i64) -> (r: Option<Self>)
        ensures
            0 <= v <= Self::limit() ==> r is Some && r.unwrap().value() == v,
            !(0 <= v <= Self::limit()) ==> r is None,
    ;

    fn to_usize(self) -> (r: usize)
        ensures
            r as int == self.value(),
    ;
}

impl IntLike for i64 {
    open spec fn value(self) -> int {
        self as int
    }

    open spec fn encoding() -> EncodingType {
        EncodingType::I64
    }

    fn to_i64(self) -> (r: i64) {
        self
    }

    fn encoding_type() -> (r: EncodingType) {
        EncodingType::I64
    }
}

impl IntLike for u8 {
    open spec fn value(self) -> int {
        self as int
    }

    open spec fn encoding() -> EncodingType {
        EncodingType::U8
    }

    fn to_i64(self) -> (r: i64) {
        self as i64
    }

    fn encoding_type() -> (r: EncodingType) {
        EncodingType::U8
    }
}

impl Packed for u8 {
    open spec fn limit() -> int {
        u8::MAX as int
    }

    proof fn lemma_range(self) {
    }

    proof fn lemma_limit() {
    }

    fn narrow(v: i64) -> (r: Option<Self>) {
        if 0 <= v && v <= u8::MAX as i64 {
            Some(v as u8)
        } else {
            None
        }
    }

    fn to_usize(self) -> (r: usize) {
        self as usize
    }
}

impl IntLike for u16 {
    open spec fn value(self) -> int {
        self as int
    }

    open spec fn encoding() -> EncodingType {
        EncodingType::U16
    }

    fn to_i64(self) -> (r: i64) {
        self as i64
    }

    fn encoding_type() -> (r: EncodingType) {
        EncodingType::U16
    }
}

impl Packed for u16 {
    open spec fn limit() -> int {
        u16::MAX as int
    }

    proof fn lemma_range(self) {
    }

    proof fn lemma_limit() {
    }

    fn narrow(v: i64) -> (r: Option<Self>) {
        if 0 <= v && v <= u16::MAX as i64 {
            Some(v as u16)
        } else {
            None
        }
    }

    fn to_usize(self) -> (r: usize) {
        self as usize
    }
}

impl IntLike for u32 {
    open spec fn value(self) -> int {
        self as int
    }

    open spec fn encoding() -> EncodingType {
        EncodingType::U32
    }

    fn to_i64(self) -> (r: i64) {
        self as i64
    }

    fn encoding_type() -> (r: EncodingType) {
        EncodingType::U32
    }
}

impl Packed for u32 {
    open spec fn limit() -> int {
        u32::MAX as int
    }

    proof fn lemma_range(self) {
    }

    proof fn lemma_limit() {
    }

    fn narrow(v: i64) -> (r: Option<Self>) {
        if 0 <= v && v <= u32::MAX as i64 {
            Some(v as u32)
        } else {
            None
        }
    }

    fn to_usize(self) -> (r: usize) {
        self as usize
    }
}

/// The integers that a sequence of stored values stands for.
pub open spec fn values_of<T: IntLike>(s: Seq<T>) -> Seq<int> {
    Seq::new(s.len(), |i: int| s[i].value())
}

/// A buffer that is either borrowed from a column or owned by the vector.
pub enum Buf<'a, T> {
    Borrowed(&'a Vec<T>),
    Owned(Vec<T>),
}

impl<'a, T> View for Buf<'a, T> {
    type V = Seq<T>;

    open spec fn view(&self) -> Seq<T> {
        match self {
            Buf::Borrowed(v) => v@,
            Buf::Owned(v) => v@,
        }
    }
}

impl<'a, T> Buf<'a, T> {
    /// The elements, whoever owns them.
    pub fn as_vec(&self) -> (r: &Vec<T>)
        ensures
            r@ == self@,
    {
        match self {
            Buf::Borrowed(v) => v,
            Buf::Owned(v) => v,
        }
    }

    pub fn len(&self) -> (r: usize)
        ensures
            r == self@.len(),
    {
        self.as_vec().len()
    }
}

} // verus!
