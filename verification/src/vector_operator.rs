//! The vector operators: each produces one typed vector for the batch.

use crate::bits::{bits, bitwise_and, bitwise_or, bv_intersect, bv_union};
use crate::column::{ColumnCodec, ColumnData};
use crate::int_like::EncodingType;
use crate::raw_val::{RawVal, Val};
use crate::typed_vec::{
    equals_scalar, equals_string, index_list, indices_below, less_than_scalar, TypedVec,
    VecView,
};
use bit_vec::BitVec;
use std::rc::Rc;
use vstd::prelude::*;

verus! {

/// An operator of the execution tree.
pub trait VecOperator<'a> {
    /// Whether the operator can run: its inputs have the types it takes.
    spec fn wf(&self) -> bool;

    /// What the operator produces.
    spec fn output(&self) -> VecView;

    /// Produces the vector for the batch.
    fn execute(&self) -> (r: TypedVec<'a>)
        requires
            self.wf(),
        ensures
            r@ == self.output(),
            r.wf(),
    ;
}

/// The operators, as one type.
pub enum Operator<'a> {
    GetDecode(GetDecode<'a>),
    FilterDecode(FilterDecode<'a>),
    IndexDecode(IndexDecode<'a>),
    GetEncoded(GetEncoded<'a>),
    FilterEncoded(FilterEncoded<'a>),
    IndexEncoded(IndexEncoded<'a>),
    Decode(Decode<'a>),
    Constant(Constant),
    EncodeStrConstant(EncodeStrConstant<'a>),
    EncodeIntConstant(EncodeIntConstant<'a>),
    LessThanVSi64(LessThanVSi64<'a>),
    LessThanVSu8(LessThanVSu8<'a>),
    LessThanVSu16(LessThanVSu16<'a>),
    LessThanVSu32(LessThanVSu32<'a>),
    EqualsVSString(EqualsVSString<'a>),
    EqualsVSI64(EqualsVSI64<'a>),
    EqualsVSU8(EqualsVSU8<'a>),
    EqualsVSU16(EqualsVSU16<'a>),
    EqualsVSU32(EqualsVSU32<'a>),
    Boolean(BooleanOperator<'a>),
}

/// An operator as a child of another.
pub type BoxedOperator<'a> = Box<Operator<'a>>;

/// The decoded view of a whole column.
pub struct GetDecode<'a> {
    pub col: &'a ColumnData,
}

impl<'a> GetDecode<'a> {
    pub fn new(col: &'a ColumnData) -> (r: GetDecode<'a>)
        ensures
            r.col == col,
    {
        GetDecode { col }
    }
}

impl<'a> VecOperator<'a> for GetDecode<'a> {
    open spec fn wf(&self) -> bool {
        self.col.wf()
    }

    open spec fn output(&self) -> VecView {
        self.col.stored().decoded()
    }

    fn execute(&self) -> (r: TypedVec<'a>) {
        self.col.collect_decoded()
    }
}

/// The decoded rows of a column at the set bits of a filter.
pub struct FilterDecode<'a> {
    pub col: &'a ColumnData,
    pub filter: Rc<BitVec>,
}

impl<'a> FilterDecode<'a> {
    pub fn new(col: &'a ColumnData, filter: Rc<BitVec>) -> (r: FilterDecode<'a>)
        ensures
            r.col == col,
            r.filter == filter,
    {
        FilterDecode { col, filter }
    }
}

impl<'a> VecOperator<'a> for FilterDecode<'a> {
    open spec fn wf(&self) -> bool {
        self.col.wf() && bits(&*self.filter).len() == self.col.values().len()
    }

    open spec fn output(&self) -> VecView {
        self.col.stored().decoded().filtered(bits(&*self.filter))
    }

    fn execute(&self) -> (r: TypedVec<'a>) {
        self.col.filter_decode(&self.filter)
    }
}

/// The decoded rows of a column at the listed positions.
pub struct IndexDecode<'a> {
    pub col: &'a ColumnData,
    pub filter: Rc<Vec<usize>>,
}

impl<'a> IndexDecode<'a> {
    pub fn new(col: &'a ColumnData, filter: Rc<Vec<usize>>) -> (r: IndexDecode<'a>)
        ensures
            r.col == col,
            r.filter == filter,
    {
        IndexDecode { col, filter }
    }
}

impl<'a> VecOperator<'a> for IndexDecode<'a> {
    open spec fn wf(&self) -> bool {
        self.col.wf() && indices_below(self.filter@, self.col.values().len())
    }

    open spec fn output(&self) -> VecView {
        self.col.stored().decoded().gathered(index_list(self.filter@))
    }

    fn execute(&self) -> (r: TypedVec<'a>) {
        self.col.index_decode(&self.filter)
    }
}

/// The code stream of a whole column.
pub struct GetEncoded<'a> {
    pub col: &'a ColumnCodec,
}

impl<'a> GetEncoded<'a> {
    pub fn new(col: &'a ColumnCodec) -> (r: GetEncoded<'a>)
        ensures
            r.col == col,
    {
        GetEncoded { col }
    }
}

impl<'a> VecOperator<'a> for GetEncoded<'a> {
    open spec fn wf(&self) -> bool {
        self.col.wf()
    }

    open spec fn output(&self) -> VecView {
        self.col@
    }

    fn execute(&self) -> (r: TypedVec<'a>) {
        self.col.get_encoded()
    }
}

/// The codes of a column at the set bits of a filter.
pub struct FilterEncoded<'a> {
    pub col: &'a ColumnCodec,
    pub filter: Rc<BitVec>,
}

impl<'a> FilterEncoded<'a> {
    pub fn new(col: &'a ColumnCodec, filter: Rc<BitVec>) -> (r: FilterEncoded<'a>)
        ensures
            r.col == col,
            r.filter == filter,
    {
        FilterEncoded { col, filter }
    }
}

impl<'a> VecOperator<'a> for FilterEncoded<'a> {
    open spec fn wf(&self) -> bool {
        self.col.wf() && bits(&*self.filter).len() == self.col@.len()
    }

    open spec fn output(&self) -> VecView {
        self.col@.filtered(bits(&*self.filter))
    }

    fn execute(&self) -> (r: TypedVec<'a>) {
        self.col.filter_encoded(&self.filter)
    }
}

/// The codes of a column at the listed positions.
pub struct IndexEncoded<'a> {
    pub col: &'a ColumnCodec,
    pub filter: Rc<Vec<usize>>,
}

impl<'a> IndexEncoded<'a> {
    pub fn new(col: &'a ColumnCodec, filter: Rc<Vec<usize>>) -> (r: IndexEncoded<'a>)
        ensures
            r.col == col,
            r.filter == filter,
    {
        IndexEncoded { col, filter }
    }
}

impl<'a> VecOperator<'a> for IndexEncoded<'a> {
    open spec fn wf(&self) -> bool {
        self.col.wf() && indices_below(self.filter@, self.col@.len())
    }

    open spec fn output(&self) -> VecView {
        self.col@.gathered(index_list(self.filter@))
    }

    fn execute(&self) -> (r: TypedVec<'a>) {
        self.col.index_encoded(&self.filter)
    }
}

/// The decoded form of what a child produces.
pub struct Decode<'a> {
    pub plan: BoxedOperator<'a>,
}

impl<'a> Decode<'a> {
    pub fn new(plan: BoxedOperator<'a>) -> (r: Decode<'a>)
        ensures
            r.plan == plan,
    {
        Decode { plan }
    }
}

impl<'a> VecOperator<'a> for Decode<'a> {
    open spec fn wf(&self) -> bool
        decreases self,
    {
        self.plan.wf()
    }

    open spec fn output(&self) -> VecView
        decreases self,
    {
        self.plan.output().decoded()
    }

    fn execute(&self) -> (r: TypedVec<'a>)
        decreases self,
    {
        self.plan.execute().decode()
    }
}

/// A scalar.
pub struct Constant {
    pub val: RawVal,
}

impl Constant {
    pub fn new(val: RawVal) -> (r: Constant)
        ensures
            r.val == val,
    {
        Constant { val }
    }
}

impl<'a> VecOperator<'a> for Constant {
    open spec fn wf(&self) -> bool {
        true
    }

    open spec fn output(&self) -> VecView {
        VecView::Constant(self.val@)
    }

    fn execute(&self) -> (r: TypedVec<'a>) {
        TypedVec::Constant(self.val.clone())
    }
}

/// The code of a string scalar in the codebook of a column, or -1 where the
/// codebook does not hold the string.
pub struct EncodeStrConstant<'a> {
    pub constant: BoxedOperator<'a>,
    pub codec: &'a ColumnCodec,
}

impl<'a> EncodeStrConstant<'a> {
    pub fn new(constant: BoxedOperator<'a>, codec: &'a ColumnCodec) -> (r: EncodeStrConstant<'a>)
        ensures
            r.constant == constant,
            r.codec == codec,
    {
        EncodeStrConstant { constant, codec }
    }
}

impl<'a> VecOperator<'a> for EncodeStrConstant<'a> {
    open spec fn wf(&self) -> bool
        decreases self,
    {
        self.constant.wf() && self.constant.output().is_str_const() && self.codec.wf()
    }

    open spec fn output(&self) -> VecView
        decreases self,
    {
        VecView::Constant(Val::Int(self.codec.encoded_str(self.constant.output().str_const())))
    }

    fn execute(&self) -> (r: TypedVec<'a>)
        decreases self,
    {
        let constant = self.constant.execute();
        TypedVec::Constant(self.codec.encode_str(constant.cast_str_const().as_str()))
    }
}

/// The code of an integer scalar in the offset encoding of a column, or -1
/// where no code of the column's width stands for it.
pub struct EncodeIntConstant<'a> {
    pub constant: BoxedOperator<'a>,
    pub codec: &'a ColumnCodec,
}

impl<'a> EncodeIntConstant<'a> {
    pub fn new(constant: BoxedOperator<'a>, codec: &'a ColumnCodec) -> (r: EncodeIntConstant<'a>)
        ensures
            r.constant == constant,
            r.codec == codec,
    {
        EncodeIntConstant { constant, codec }
    }
}

impl<'a> VecOperator<'a> for EncodeIntConstant<'a> {
    open spec fn wf(&self) -> bool
        decreases self,
    {
        self.constant.wf() && self.constant.output().is_int_const() && self.codec.wf()
    }

    open spec fn output(&self) -> VecView
        decreases self,
    {
        VecView::Constant(Val::Int(self.codec.encoded_int(self.constant.output().int_const())))
    }

    fn execute(&self) -> (r: TypedVec<'a>)
        decreases self,
    {
        let constant = self.constant.execute();
        TypedVec::Constant(self.codec.encode_int(constant.cast_int_const()))
    }
}

/// Bit `i` says whether integer `i` of the child is less than the scalar.
pub struct LessThanVSi64<'a> {
    pub lhs: BoxedOperator<'a>,
    pub rhs: i64,
}

impl<'a> LessThanVSi64<'a> {
    pub fn new(lhs: BoxedOperator<'a>, rhs: i64) -> (r: LessThanVSi64<'a>)
        ensures
            r.lhs == lhs,
            r.rhs == rhs,
    {
        LessThanVSi64 { lhs, rhs }
    }
}

impl<'a> VecOperator<'a> for LessThanVSi64<'a> {
    open spec fn wf(&self) -> bool
        decreases self,
    {
        self.lhs.wf() && self.lhs.output() is Integer
    }

    open spec fn output(&self) -> VecView
        decreases self,
    {
        VecView::Boolean(self.lhs.output().less_than(self.rhs as int))
    }

    fn execute(&self) -> (r: TypedVec<'a>)
        decreases self,
    {
        let lhs = self.lhs.execute();
        let result = less_than_scalar(lhs.cast_ref_i64(), self.rhs);
        TypedVec::Boolean(result)
    }
}

/// Bit `i` says whether 8-bit code `i` of the child is less than the scalar.
pub struct LessThanVSu8<'a> {
    pub lhs: BoxedOperator<'a>,
    pub rhs: u8,
}

impl<'a> LessThanVSu8<'a> {
    pub fn new(lhs: BoxedOperator<'a>, rhs: u8) -> (r: LessThanVSu8<'a>)
        ensures
            r.lhs == lhs,
            r.rhs == rhs,
    {
        LessThanVSu8 { lhs, rhs }
    }
}

impl<'a> VecOperator<'a> for LessThanVSu8<'a> {
    open spec fn wf(&self) -> bool
        decreases self,
    {
        self.lhs.wf() && self.lhs.output().is_codes(EncodingType::U8) && self.lhs.output().wf()
    }

    open spec fn output(&self) -> VecView
        decreases self,
    {
        VecView::Boolean(self.lhs.output().less_than(self.rhs as int))
    }

    fn execute(&self) -> (r: TypedVec<'a>)
        decreases self,
    {
        let lhs = self.lhs.execute();
        let result = less_than_scalar(lhs.cast_ref_u8(), self.rhs as i64);
        TypedVec::Boolean(result)
    }
}

/// Bit `i` says whether 16-bit code `i` of the child is less than the scalar.
pub struct LessThanVSu16<'a> {
    pub lhs: BoxedOperator<'a>,
    pub rhs: u16,
}

impl<'a> LessThanVSu16<'a> {
    pub fn new(lhs: BoxedOperator<'a>, rhs: u16) -> (r: LessThanVSu16<'a>)
        ensures
            r.lhs == lhs,
            r.rhs == rhs,
    {
        LessThanVSu16 { lhs, rhs }
    }
}

impl<'a> VecOperator<'a> for LessThanVSu16<'a> {
    open spec fn wf(&self) -> bool
        decreases self,
    {
        self.lhs.wf() && self.lhs.output().is_codes(EncodingType::U16) && self.lhs.output().wf()
    }

    open spec fn output(&self) -> VecView
        decreases self,
    {
        VecView::Boolean(self.lhs.output().less_than(self.rhs as int))
    }

    fn execute(&self) -> (r: TypedVec<'a>)
        decreases self,
    {
        let lhs = self.lhs.execute();
        let result = less_than_scalar(lhs.cast_ref_u16(), self.rhs as i64);
        TypedVec::Boolean(result)
    }
}

/// Bit `i` says whether 32-bit code `i` of the child is less than the scalar.
pub struct LessThanVSu32<'a> {
    pub lhs: BoxedOperator<'a>,
    pub rhs: u32,
}

impl<'a> LessThanVSu32<'a> {
    pub fn new(lhs: BoxedOperator<'a>, rhs: u32) -> (r: LessThanVSu32<'a>)
        ensures
            r.lhs == lhs,
            r.rhs == rhs,
    {
        LessThanVSu32 { lhs, rhs }
    }
}

impl<'a> VecOperator<'a> for LessThanVSu32<'a> {
    open spec fn wf(&self) -> bool
        decreases self,
    {
        self.lhs.wf() && self.lhs.output().is_codes(EncodingType::U32) && self.lhs.output().wf()
    }

    open spec fn output(&self) -> VecView
        decreases self,
    {
        VecView::Boolean(self.lhs.output().less_than(self.rhs as int))
    }

    fn execute(&self) -> (r: TypedVec<'a>)
        decreases self,
    {
        let lhs = self.lhs.execute();
        let result = less_than_scalar(lhs.cast_ref_u32(), self.rhs as i64);
        TypedVec::Boolean(result)
    }
}

/// Bit `i` says whether string `i` of the left child is the string scalar of the right child.
pub struct EqualsVSString<'a> {
    pub lhs: BoxedOperator<'a>,
    pub rhs: BoxedOperator<'a>,
}

impl<'a> EqualsVSString<'a> {
    pub fn new(lhs: BoxedOperator<'a>, rhs: BoxedOperator<'a>) -> (r: EqualsVSString<'a>)
        ensures
            r.lhs == lhs,
            r.rhs == rhs,
    {
        EqualsVSString { lhs, rhs }
    }
}

impl<'a> VecOperator<'a> for EqualsVSString<'a> {
    open spec fn wf(&self) -> bool
        decreases self,
    {
        &&& self.lhs.wf()
        &&& self.rhs.wf()
        &&& self.lhs.output() is String
        &&& self.rhs.output().is_str_const()
    }

    open spec fn output(&self) -> VecView
        decreases self,
    {
        VecView::Boolean(self.lhs.output().equals_str(self.rhs.output().str_const()))
    }

    fn execute(&self) -> (r: TypedVec<'a>)
        decreases self,
    {
        let lhs = self.lhs.execute();
        let rhs = self.rhs.execute();
        let result = equals_string(lhs.cast_ref_str(), rhs.cast_str_const());
        TypedVec::Boolean(result)
    }
}

/// Bit `i` says whether integer `i` of the left child equals the integer scalar of the right child.
pub struct EqualsVSI64<'a> {
    pub lhs: BoxedOperator<'a>,
    pub rhs: BoxedOperator<'a>,
}

impl<'a> EqualsVSI64<'a> {
    pub fn new(lhs: BoxedOperator<'a>, rhs: BoxedOperator<'a>) -> (r: EqualsVSI64<'a>)
        ensures
            r.lhs == lhs,
            r.rhs == rhs,
    {
        EqualsVSI64 { lhs, rhs }
    }
}

impl<'a> VecOperator<'a> for EqualsVSI64<'a> {
    open spec fn wf(&self) -> bool
        decreases self,
    {
        &&& self.lhs.wf()
        &&& self.rhs.wf()
        &&& self.lhs.output() is Integer
        &&& self.rhs.output().is_int_const()
    }

    open spec fn output(&self) -> VecView
        decreases self,
    {
        VecView::Boolean(self.lhs.output().equals_int(self.rhs.output().int_const()))
    }

    fn execute(&self) -> (r: TypedVec<'a>)
        decreases self,
    {
        let lhs = self.lhs.execute();
        let rhs = self.rhs.execute();
        let result = equals_scalar(lhs.cast_ref_i64(), rhs.cast_int_const());
        assert(bits(&result) =~= self.lhs.output().equals_int(self.rhs.output().int_const()));
        TypedVec::Boolean(result)
    }
}

/// Bit `i` says whether 8-bit code `i` of the left child equals the integer scalar of the right child.
pub struct EqualsVSU8<'a> {
    pub lhs: BoxedOperator<'a>,
    pub rhs: BoxedOperator<'a>,
}

impl<'a> EqualsVSU8<'a> {
    pub fn new(lhs: BoxedOperator<'a>, rhs: BoxedOperator<'a>) -> (r: EqualsVSU8<'a>)
        ensures
            r.lhs == lhs,
            r.rhs == rhs,
    {
        EqualsVSU8 { lhs, rhs }
    }
}

impl<'a> VecOperator<'a> for EqualsVSU8<'a> {
    open spec fn wf(&self) -> bool
        decreases self,
    {
        &&& self.lhs.wf()
        &&& self.rhs.wf()
        &&& self.lhs.output().is_codes(EncodingType::U8)
        &&& self.rhs.output().is_int_const()
    }

    open spec fn output(&self) -> VecView
        decreases self,
    {
        VecView::Boolean(self.lhs.output().equals_int(self.rhs.output().int_const()))
    }

    fn execute(&self) -> (r: TypedVec<'a>)
        decreases self,
    {
        let lhs = self.lhs.execute();
        let rhs = self.rhs.execute();
        let result = equals_scalar(lhs.cast_ref_u8(), rhs.cast_int_const());
        assert(bits(&result) =~= self.lhs.output().equals_int(self.rhs.output().int_const()));
        TypedVec::Boolean(result)
    }
}

/// Bit `i` says whether 16-bit code `i` of the left child equals the integer scalar of the right child.
pub struct EqualsVSU16<'a> {
    pub lhs: BoxedOperator<'a>,
    pub rhs: BoxedOperator<'a>,
}

impl<'a> EqualsVSU16<'a> {
    pub fn new(lhs: BoxedOperator<'a>, rhs: BoxedOperator<'a>) -> (r: EqualsVSU16<'a>)
        ensures
            r.lhs == lhs,
            r.rhs == rhs,
    {
        EqualsVSU16 { lhs, rhs }
    }
}

impl<'a> VecOperator<'a> for EqualsVSU16<'a> {
    open spec fn wf(&self) -> bool
        decreases self,
    {
        &&& self.lhs.wf()
        &&& self.rhs.wf()
        &&& self.lhs.output().is_codes(EncodingType::U16)
        &&& self.rhs.output().is_int_const()
    }

    open spec fn output(&self) -> VecView
        decreases self,
    {
        VecView::Boolean(self.lhs.output().equals_int(self.rhs.output().int_const()))
    }

    fn execute(&self) -> (r: TypedVec<'a>)
        decreases self,
    {
        let lhs = self.lhs.execute();
        let rhs = self.rhs.execute();
        let result = equals_scalar(lhs.cast_ref_u16(), rhs.cast_int_const());
        assert(bits(&result) =~= self.lhs.output().equals_int(self.rhs.output().int_const()));
        TypedVec::Boolean(result)
    }
}

/// Bit `i` says whether 32-bit code `i` of the left child equals the integer scalar of the right child.
pub struct EqualsVSU32<'a> {
    pub lhs: BoxedOperator<'a>,
    pub rhs: BoxedOperator<'a>,
}

impl<'a> EqualsVSU32<'a> {
    pub fn new(lhs: BoxedOperator<'a>, rhs: BoxedOperator<'a>) -> (r: EqualsVSU32<'a>)
        ensures
            r.lhs == lhs,
            r.rhs == rhs,
    {
        EqualsVSU32 { lhs, rhs }
    }
}

impl<'a> VecOperator<'a> for EqualsVSU32<'a> {
    open spec fn wf(&self) -> bool
        decreases self,
    {
        &&& self.lhs.wf()
        &&& self.rhs.wf()
        &&& self.lhs.output().is_codes(EncodingType::U32)
        &&& self.rhs.output().is_int_const()
    }

    open spec fn output(&self) -> VecView
        decreases self,
    {
        VecView::Boolean(self.lhs.output().equals_int(self.rhs.output().int_const()))
    }

    fn execute(&self) -> (r: TypedVec<'a>)
        decreases self,
    {
        let lhs = self.lhs.execute();
        let rhs = self.rhs.execute();
        let result = equals_scalar(lhs.cast_ref_u32(), rhs.cast_int_const());
        assert(bits(&result) =~= self.lhs.output().equals_int(self.rhs.output().int_const()));
        TypedVec::Boolean(result)
    }
}

/// The two ways of combining bit-vectors.
#[derive(Clone, Copy, Debug, PartialEq, Eq, Structural)]
pub enum BooleanOp {
    Or,
    And,
}

/// The element-wise combination of the bit-vectors of two children.
pub struct BooleanOperator<'a> {
    pub lhs: BoxedOperator<'a>,
    pub rhs: BoxedOperator<'a>,
    pub op: BooleanOp,
}

impl<'a> BooleanOperator<'a> {
    fn new(lhs: BoxedOperator<'a>, rhs: BoxedOperator<'a>, op: BooleanOp) -> (r: BoxedOperator<'a>)
        ensures
            *r == Operator::Boolean(BooleanOperator { lhs, rhs, op }),
    {
        Box::new(Operator::Boolean(BooleanOperator { lhs, rhs, op }))
    }
}

/// The constructors of the boolean operators.
pub struct Boolean;

impl Boolean {
    /// The element-wise OR of two bit-vectors of equal length.
    pub fn or<'a>(lhs: BoxedOperator<'a>, rhs: BoxedOperator<'a>) -> (r: BoxedOperator<'a>)
        ensures
            *r == Operator::Boolean(BooleanOperator { lhs, rhs, op: BooleanOp::Or }),
    {
        BooleanOperator::new(lhs, rhs, BooleanOp::Or)
    }

    /// The element-wise AND of two bit-vectors of equal length.
    pub fn and<'a>(lhs: BoxedOperator<'a>, rhs: BoxedOperator<'a>) -> (r: BoxedOperator<'a>)
        ensures
            *r == Operator::Boolean(BooleanOperator { lhs, rhs, op: BooleanOp::And }),
    {
        BooleanOperator::new(lhs, rhs, BooleanOp::And)
    }
}

impl BooleanOp {
    /// The combination of two bit sequences of equal length.
    pub open spec fn apply(self, a: Seq<bool>, b: Seq<bool>) -> Seq<bool> {
        match self {
            BooleanOp::Or => bitwise_or(a, b),
            BooleanOp::And => bitwise_and(a, b),
        }
    }

    /// Combines `rhs` into `lhs`.
    pub fn evaluate(self, lhs: &mut BitVec, rhs: &BitVec)
        requires
            bits(old(lhs)).len() == bits(rhs).len(),
        ensures
            bits(final(lhs)) == self.apply(bits(old(lhs)), bits(rhs)),
    {
        match self {
            BooleanOp::Or => {
                bv_union(lhs, rhs);
            },
            BooleanOp::And => {
                bv_intersect(lhs, rhs);
            },
        }
    }
}

impl<'a> VecOperator<'a> for BooleanOperator<'a> {
    open spec fn wf(&self) -> bool
        decreases self,
    {
        &&& self.lhs.wf()
        &&& self.rhs.wf()
        &&& self.lhs.output() is Boolean
        &&& self.rhs.output() is Boolean
        &&& self.lhs.output().len() == self.rhs.output().len()
    }

    open spec fn output(&self) -> VecView
        decreases self,
    {
        VecView::Boolean(self.op.apply(self.lhs.output().bools(), self.rhs.output().bools()))
    }

    fn execute(&self) -> (r: TypedVec<'a>)
        decreases self,
    {
        let lhs = self.lhs.execute();
        let rhs = self.rhs.execute();
        let mut result = lhs.cast_bit_vec();
        let other = rhs.cast_bit_vec();
        self.op.evaluate(&mut result, &other);
        TypedVec::Boolean(result)
    }
}

impl<'a> VecOperator<'a> for Operator<'a> {
    open spec fn wf(&self) -> bool
        decreases self,
    {
        match self {
            Operator::GetDecode(op) => op.wf(),
            Operator::FilterDecode(op) => op.wf(),
            Operator::IndexDecode(op) => op.wf(),
            Operator::GetEncoded(op) => op.wf(),
            Operator::FilterEncoded(op) => op.wf(),
            Operator::IndexEncoded(op) => op.wf(),
            Operator::Decode(op) => op.wf(),
            Operator::Constant(op) => op.wf(),
            Operator::EncodeStrConstant(op) => op.wf(),
            Operator::EncodeIntConstant(op) => op.wf(),
            Operator::LessThanVSi64(op) => op.wf(),
            Operator::LessThanVSu8(op) => op.wf(),
            Operator::LessThanVSu16(op) => op.wf(),
            Operator::LessThanVSu32(op) => op.wf(),
            Operator::EqualsVSString(op) => op.wf(),
            Operator::EqualsVSI64(op) => op.wf(),
            Operator::EqualsVSU8(op) => op.wf(),
            Operator::EqualsVSU16(op) => op.wf(),
            Operator::EqualsVSU32(op) => op.wf(),
            Operator::Boolean(op) => op.wf(),
        }
    }

    open spec fn output(&self) -> VecView
        decreases self,
    {
        match self {
            Operator::GetDecode(op) => op.output(),
            Operator::FilterDecode(op) => op.output(),
            Operator::IndexDecode(op) => op.output(),
            Operator::GetEncoded(op) => op.output(),
            Operator::FilterEncoded(op) => op.output(),
            Operator::IndexEncoded(op) => op.output(),
            Operator::Decode(op) => op.output(),
            Operator::Constant(op) => op.output(),
            Operator::EncodeStrConstant(op) => op.output(),
            Operator::EncodeIntConstant(op) => op.output(),
            Operator::LessThanVSi64(op) => op.output(),
            Operator::LessThanVSu8(op) => op.output(),
            Operator::LessThanVSu16(op) => op.output(),
            Operator::LessThanVSu32(op) => op.output(),
            Operator::EqualsVSString(op) => op.output(),
            Operator::EqualsVSI64(op) => op.output(),
            Operator::EqualsVSU8(op) => op.output(),
            Operator::EqualsVSU16(op) => op.output(),
            Operator::EqualsVSU32(op) => op.output(),
            Operator::Boolean(op) => op.output(),
        }
    }

    fn execute(&self) -> (r: TypedVec<'a>)
        decreases self,
    {
        match self {
            Operator::GetDecode(op) => op.execute(),
            Operator::FilterDecode(op) => op.execute(),
            Operator::IndexDecode(op) => op.execute(),
            Operator::GetEncoded(op) => op.execute(),
            Operator::FilterEncoded(op) => op.execute(),
            Operator::IndexEncoded(op) => op.execute(),
            Operator::Decode(op) => op.execute(),
            Operator::Constant(op) => op.execute(),
            Operator::EncodeStrConstant(op) => op.execute(),
            Operator::EncodeIntConstant(op) => op.execute(),
            Operator::LessThanVSi64(op) => op.execute(),
            Operator::LessThanVSu8(op) => op.execute(),
            Operator::LessThanVSu16(op) => op.execute(),
            Operator::LessThanVSu32(op) => op.execute(),
            Operator::EqualsVSString(op) => op.execute(),
            Operator::EqualsVSI64(op) => op.execute(),
            Operator::EqualsVSU8(op) => op.execute(),
            Operator::EqualsVSU16(op) => op.execute(),
            Operator::EqualsVSU32(op) => op.execute(),
            Operator::Boolean(op) => op.execute(),
        }
    }
}

} // verus!
