//! Plan-time descriptions: filters, element types and errors.

use crate::bits::{bits, set_positions};
use crate::column::{ColumnCodec, ColumnData};
use crate::int_like::EncodingType;
use crate::raw_val::BasicType;
use crate::typed_vec::{index_list, indices_below, VecView};
use bit_vec::BitVec;
use std::rc::Rc;
use vstd::prelude::*;

verus! {

/// Why a query could not be planned or run.
#[derive(Clone, Copy, Debug, PartialEq, Eq, Structural)]
pub enum QueryError {
    /// The operands of an operator have types that it does not take.
    TypeError,
    /// The query uses a construct that the engine does not implement.
    UnsupportedQuery,
    /// The query names a column that the batch does not hold.
    UnknownColumn,
    /// The query cannot go on: a filter that is no filter, or a sum that
    /// does not fit in 64 bits.
    FatalError,
}

/// The aggregation functions.
#[derive(Clone, Copy, Debug, PartialEq, Eq, Structural)]
pub enum Aggregator {
    Count,
    Sum,
}

/// Which rows of a batch an expression is evaluated on. The bit-vector and
/// the index list are shared by the plan nodes that read them.
pub enum Filter {
    /// Every row.
    All,
    /// The rows whose bit is set, in row order.
    BitVec(Rc<BitVec>),
    /// The rows at the listed positions, in the order of the list.
    Indices(Rc<Vec<usize>>),
}

impl Clone for Filter {
    fn clone(&self) -> (r: Self)
        ensures
            r == *self,
    {
        match self {
            Filter::All => Filter::All,
            Filter::BitVec(b) => Filter::BitVec(b.clone()),
            Filter::Indices(idx) => Filter::Indices(idx.clone()),
        }
    }
}

impl Filter {
    /// Whether the filter fits a batch of `rows` rows.
    pub open spec fn admits(&self, rows: nat) -> bool {
        match self {
            Filter::All => true,
            Filter::BitVec(b) => bits(&**b).len() == rows,
            Filter::Indices(idx) => indices_below(idx@, rows),
        }
    }

    /// The positions of the rows that the filter lets through, in the order
    /// in which they come out.
    pub open spec fn positions(&self, rows: nat) -> Seq<int> {
        match self {
            Filter::All => Seq::new(rows, |i: int| i),
            Filter::BitVec(b) => set_positions(bits(&**b)),
            Filter::Indices(idx) => index_list(idx@),
        }
    }

    /// A vector over the rows of the batch, cut down to the rows that the
    /// filter lets through.
    pub open spec fn apply(&self, v: VecView) -> VecView {
        match self {
            Filter::All => v,
            Filter::BitVec(b) => v.filtered(bits(&**b)),
            Filter::Indices(idx) => v.gathered(index_list(idx@)),
        }
    }
}

/// The type of what a plan produces.
#[derive(Clone, Copy)]
pub struct Type<'a> {
    /// The basic type of the decoded values.
    pub decoded: BasicType,
    /// The codec of the column that the codes come from, where the values
    /// are encoded.
    pub codec: Option<&'a ColumnCodec>,
    /// Whether the plan produces a scalar.
    pub is_scalar: bool,
    /// Whether the plan hands out the buffer of a column.
    pub is_borrowed: bool,
}

/// The encoding of decoded values of a basic type.
pub open spec fn plain_encoding(t: BasicType) -> EncodingType {
    match t {
        BasicType::Integer => EncodingType::I64,
        BasicType::String => EncodingType::Str,
        BasicType::Boolean => EncodingType::BitVec,
        BasicType::Null => EncodingType::Null,
    }
}

impl<'a> Type<'a> {
    /// The type of a vector, encoded by `codec` where there is one.
    pub fn new(basic: BasicType, codec: Option<&'a ColumnCodec>) -> (t: Type<'a>)
        ensures
            t == (Type { decoded: basic, codec, is_scalar: false, is_borrowed: true }),
    {
        Type { decoded: basic, codec, is_scalar: false, is_borrowed: true }
    }

    /// The type of a scalar.
    pub fn scalar(basic: BasicType) -> (t: Type<'a>)
        ensures
            t == (Type { decoded: basic, codec: None, is_scalar: true, is_borrowed: false }),
    {
        Type { decoded: basic, codec: None, is_scalar: true, is_borrowed: false }
    }

    /// The type of a bit-vector.
    pub fn bit_vec() -> (t: Type<'a>)
        ensures
            t == (Type {
                decoded: BasicType::Boolean,
                codec: None,
                is_scalar: false,
                is_borrowed: false,
            }),
    {
        Type { decoded: BasicType::Boolean, codec: None, is_scalar: false, is_borrowed: false }
    }

    /// Whether the values are encoded.
    pub open spec fn encoded(&self) -> bool {
        self.codec is Some
    }

    /// Whether the values are encoded.
    #[verifier::when_used_as_spec(encoded)]
    pub fn is_encoded(&self) -> (r: bool)
        ensures
            r == self.encoded(),
    {
        self.codec.is_some()
    }

    /// How the values are represented.
    pub open spec fn encoding(&self) -> EncodingType {
        match self.codec {
            Some(c) => c.codes.encoding(),
            None => plain_encoding(self.decoded),
        }
    }

    /// How the values are represented.
    pub fn encoding_type(&self) -> (r: EncodingType)
        ensures
            r == self.encoding(),
    {
        match self.codec {
            Some(c) => c.codes.encoding_type(),
            None => match self.decoded {
                BasicType::Integer => EncodingType::I64,
                BasicType::String => EncodingType::Str,
                BasicType::Boolean => EncodingType::BitVec,
                BasicType::Null => EncodingType::Null,
            },
        }
    }

    /// The type of the decoded values.
    pub fn decoded(&self) -> (t: Type<'a>)
        ensures
            t == (Type { codec: None, ..*self }),
    {
        Type {
            decoded: self.decoded,
            codec: None,
            is_scalar: self.is_scalar,
            is_borrowed: self.is_borrowed,
        }
    }

    /// The type of a vector that the plan owns.
    pub fn mutable(&self) -> (t: Type<'a>)
        ensures
            t == (Type { is_borrowed: false, ..*self }),
    {
        Type {
            decoded: self.decoded,
            codec: self.codec,
            is_scalar: self.is_scalar,
            is_borrowed: false,
        }
    }

    /// Whether `v` is a value of the type, over `rows` rows where it is a
    /// vector.
    pub open spec fn describes(&self, v: VecView, rows: nat) -> bool {
        if self.is_scalar {
            &&& self.codec is None
            &&& v matches VecView::Constant(c)
            &&& c.basic_type() == self.decoded
        } else {
            &&& v.len() == rows
            &&& v.wf()
            &&& match self.codec {
                Some(c) => {
                    &&& c.wf()
                    &&& v matches VecView::Encoded(enc, _, scheme)
                    &&& enc == c.codes.encoding()
                    &&& scheme == c.scheme@
                    &&& scheme.basic_type() == self.decoded
                },
                None => match self.decoded {
                    BasicType::Integer => v is Integer,
                    BasicType::String => v is String,
                    BasicType::Boolean => v is Boolean,
                    BasicType::Null => v is Null,
                },
            }
        }
    }
}

impl ColumnData {
    /// The type of the column as it is stored.
    pub open spec fn stored_type<'a>(&'a self) -> Type<'a> {
        Type {
            decoded: self.basic_type(),
            codec: match self {
                ColumnData::Encoded(c) => Some(c),
                _ => None,
            },
            is_scalar: false,
            is_borrowed: true,
        }
    }

    /// The type of the column as it is stored.
    pub fn full_type<'a>(&'a self) -> (t: Type<'a>)
        ensures
            t == self.stored_type(),
    {
        match self {
            ColumnData::Null(_) => Type::new(BasicType::Null, None),
            ColumnData::Integer(_) => Type::new(BasicType::Integer, None),
            ColumnData::Encoded(c) => {
                let basic = match &c.scheme {
                    crate::column::Scheme::Offset { .. } => BasicType::Integer,
                    crate::column::Scheme::Dictionary(_) => BasicType::String,
                };
                Type::new(basic, Some(c))
            },
        }
    }
}

} // verus!
