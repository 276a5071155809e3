//! Query plans: how an expression is evaluated on a batch, and how a plan is
//! lowered to operators.

use crate::batch::Batch;
use crate::bits::{bits, lemma_set_positions_bounds};
use crate::column::{ColumnCodec, ColumnData};
use crate::expression::{Expr, FuncType};
use crate::int_like::{widest, EncodingType};
use crate::raw_val::{BasicType, RawVal, Val};
use crate::typed_vec::{index_list, indices_below, VecView};
use crate::types::{Filter, QueryError, Type};
use crate::vector_operator::{
    Boolean, BooleanOp, BooleanOperator, BoxedOperator, Constant, Decode, EncodeIntConstant,
    EncodeStrConstant, EqualsVSI64, EqualsVSString, EqualsVSU16, EqualsVSU32, EqualsVSU8,
    FilterDecode, FilterEncoded, GetDecode, GetEncoded, IndexDecode, IndexEncoded,
    LessThanVSi64, LessThanVSu16, LessThanVSu32, LessThanVSu8, Operator, VecOperator,
};
use bit_vec::BitVec;
use std::rc::Rc;
use vstd::prelude::*;

verus! {

/// A plan for one expression on one batch.
pub enum QueryPlan<'a> {
    GetDecode(&'a ColumnData),
    FilterDecode(&'a ColumnData, Rc<BitVec>),
    IndexDecode(&'a ColumnData, Rc<Vec<usize>>),
    GetEncoded(&'a ColumnCodec),
    FilterEncoded(&'a ColumnCodec, Rc<BitVec>),
    IndexEncoded(&'a ColumnCodec, Rc<Vec<usize>>),
    Decode(Box<QueryPlan<'a>>),
    EncodeStrConstant(Box<QueryPlan<'a>>, &'a ColumnCodec),
    EncodeIntConstant(Box<QueryPlan<'a>>, &'a ColumnCodec),
    LessThanVS(EncodingType, Box<QueryPlan<'a>>, Box<QueryPlan<'a>>),
    EqualsVS(EncodingType, Box<QueryPlan<'a>>, Box<QueryPlan<'a>>),
    And(Box<QueryPlan<'a>>, Box<QueryPlan<'a>>),
    Or(Box<QueryPlan<'a>>, Box<QueryPlan<'a>>),
    Constant(RawVal),
}

/// Whether the elements of `v` are integers of the width `enc`.
pub open spec fn compares_at(v: VecView, enc: EncodingType) -> bool {
    match enc {
        EncodingType::I64 => v is Integer,
        EncodingType::U8 | EncodingType::U16 | EncodingType::U32 => v.is_codes(enc) && v.wf(),
        _ => false,
    }
}

impl<'a> QueryPlan<'a> {
    /// Whether the plan can run: each node gets operands of the types it
    /// takes.
    pub open spec fn wf(&self) -> bool
        decreases self,
    {
        match self {
            QueryPlan::GetDecode(col) => col.wf(),
            QueryPlan::FilterDecode(col, f) => col.wf() && bits(&**f).len() == col.values().len(),
            QueryPlan::IndexDecode(col, idx) => col.wf() && indices_below(idx@, col.values().len()),
            QueryPlan::GetEncoded(col) => col.wf(),
            QueryPlan::FilterEncoded(col, f) => col.wf() && bits(&**f).len() == col@.len(),
            QueryPlan::IndexEncoded(col, idx) => col.wf() && indices_below(idx@, col@.len()),
            QueryPlan::Decode(plan) => plan.wf(),
            QueryPlan::EncodeStrConstant(plan, codec) => plan.wf() && plan.result().is_str_const()
                && codec.wf(),
            QueryPlan::EncodeIntConstant(plan, codec) => plan.wf() && plan.result().is_int_const()
                && codec.wf(),
            QueryPlan::LessThanVS(enc, lhs, rhs) => {
                &&& lhs.wf()
                &&& rhs.wf()
                &&& compares_at(lhs.result(), *enc)
                &&& rhs.result().is_int_const()
                &&& *enc != EncodingType::I64 ==> rhs.result().int_const() <= widest(*enc)
            },
            QueryPlan::EqualsVS(enc, lhs, rhs) => {
                &&& lhs.wf()
                &&& rhs.wf()
                &&& if *enc == EncodingType::Str {
                    lhs.result() is String && rhs.result().is_str_const()
                } else {
                    compares_at(lhs.result(), *enc) && rhs.result().is_int_const()
                }
            },
            QueryPlan::And(lhs, rhs) | QueryPlan::Or(lhs, rhs) => {
                &&& lhs.wf()
                &&& rhs.wf()
                &&& lhs.result() is Boolean
                &&& rhs.result() is Boolean
                &&& lhs.result().len() == rhs.result().len()
            },
            QueryPlan::Constant(_) => true,
        }
    }

    /// What the plan produces.
    pub open spec fn result(&self) -> VecView
        decreases self,
    {
        match self {
            QueryPlan::GetDecode(col) => col.stored().decoded(),
            QueryPlan::FilterDecode(col, f) => col.stored().decoded().filtered(bits(&**f)),
            QueryPlan::IndexDecode(col, idx) => col.stored().decoded().gathered(index_list(idx@)),
            QueryPlan::GetEncoded(col) => col@,
            QueryPlan::FilterEncoded(col, f) => col@.filtered(bits(&**f)),
            QueryPlan::IndexEncoded(col, idx) => col@.gathered(index_list(idx@)),
            QueryPlan::Decode(plan) => plan.result().decoded(),
            QueryPlan::EncodeStrConstant(plan, codec) => VecView::Constant(
                Val::Int(codec.encoded_str(plan.result().str_const())),
            ),
            QueryPlan::EncodeIntConstant(plan, codec) => VecView::Constant(
                Val::Int(codec.encoded_int(plan.result().int_const())),
            ),
            QueryPlan::LessThanVS(_, lhs, rhs) => VecView::Boolean(
                lhs.result().less_than(rhs.result().int_const()),
            ),
            QueryPlan::EqualsVS(enc, lhs, rhs) => if *enc == EncodingType::Str {
                VecView::Boolean(lhs.result().equals_str(rhs.result().str_const()))
            } else {
                VecView::Boolean(lhs.result().equals_int(rhs.result().int_const()))
            },
            QueryPlan::And(lhs, rhs) => VecView::Boolean(
                BooleanOp::And.apply(lhs.result().bools(), rhs.result().bools()),
            ),
            QueryPlan::Or(lhs, rhs) => VecView::Boolean(
                BooleanOp::Or.apply(lhs.result().bools(), rhs.result().bools()),
            ),
            QueryPlan::Constant(v) => VecView::Constant(v@),
        }
    }
}

/// The type of a vector that a plan owns.
pub open spec fn owned<'a>(t: Type<'a>) -> Type<'a> {
    Type { is_borrowed: false, ..t }
}

/// The type of the decoded values of a type.
pub open spec fn plain<'a>(t: Type<'a>) -> Type<'a> {
    Type { codec: None, ..t }
}

/// The type of a bit-vector.
pub open spec fn bit_vec_type<'a>() -> Type<'a> {
    Type { decoded: BasicType::Boolean, codec: None, is_scalar: false, is_borrowed: false }
}

/// The plan of a column reference under a filter, and its type: the code
/// stream where the column has a codec, the decoded values where it has
/// none.
pub open spec fn column_plan<'a>(data: &'a ColumnData, filter: Filter) -> (QueryPlan<'a>, Type<'a>) {
    let t = data.stored_type();
    match data {
        ColumnData::Encoded(c) => match filter {
            Filter::All => (QueryPlan::GetEncoded(c), t),
            Filter::BitVec(f) => (QueryPlan::FilterEncoded(c, f), owned(t)),
            Filter::Indices(f) => (QueryPlan::IndexEncoded(c, f), owned(t)),
        },
        _ => match filter {
            Filter::All => (QueryPlan::GetDecode(data), plain(t)),
            Filter::BitVec(f) => (QueryPlan::FilterDecode(data, f), plain(t)),
            Filter::Indices(f) => (QueryPlan::IndexDecode(data, f), plain(t)),
        },
    }
}

/// The plan of a function applied to two planned operands, or the error
/// that the operands call for. A comparison takes a vector on the left and
/// a scalar of the same basic type on the right; where the vector is
/// encoded, the scalar is encoded too and the comparison runs on the codes.
/// AND and OR take two bit-vectors.
pub open spec fn function_plan<'a>(
    func: FuncType,
    lhs: (QueryPlan<'a>, Type<'a>),
    rhs: (QueryPlan<'a>, Type<'a>),
) -> Result<(QueryPlan<'a>, Type<'a>), QueryError> {
    let (plan_lhs, type_lhs) = lhs;
    let (plan_rhs, type_rhs) = rhs;
    match func {
        FuncType::LT | FuncType::Equals => {
            let ints = type_lhs.decoded == BasicType::Integer && type_rhs.decoded
                == BasicType::Integer;
            let strs = func == FuncType::Equals && type_lhs.decoded == BasicType::String
                && type_rhs.decoded == BasicType::String;
            if !ints && !strs {
                Err(QueryError::TypeError)
            } else if !type_rhs.is_scalar || type_lhs.is_scalar {
                Err(QueryError::UnsupportedQuery)
            } else {
                let right = match type_lhs.codec {
                    Some(c) => if ints {
                        QueryPlan::EncodeIntConstant(Box::new(plan_rhs), c)
                    } else {
                        QueryPlan::EncodeStrConstant(Box::new(plan_rhs), c)
                    },
                    None => plan_rhs,
                };
                let plan = if func == FuncType::LT {
                    QueryPlan::LessThanVS(type_lhs.encoding(), Box::new(plan_lhs), Box::new(right))
                } else {
                    QueryPlan::EqualsVS(type_lhs.encoding(), Box::new(plan_lhs), Box::new(right))
                };
                Ok((plan, bit_vec_type()))
            }
        },
        FuncType::And | FuncType::Or => {
            if type_lhs.decoded != BasicType::Boolean || type_rhs.decoded != BasicType::Boolean {
                Err(QueryError::TypeError)
            } else if func == FuncType::And {
                Ok((QueryPlan::And(Box::new(plan_lhs), Box::new(plan_rhs)), bit_vec_type()))
            } else {
                Ok((QueryPlan::Or(Box::new(plan_lhs), Box::new(plan_rhs)), bit_vec_type()))
            }
        },
    }
}

/// The plan of a column reference is well-typed.
pub proof fn lemma_column_plan<'a>(data: &'a ColumnData, filter: Filter)
    requires
        data.wf(),
        filter.admits(data.values().len()),
    ensures
        column_plan(data, filter).0.wf(),
        column_plan(data, filter).1.describes(
            column_plan(data, filter).0.result(),
            filter.positions(data.values().len()).len(),
        ),
        column_plan(data, filter).0.result() == filter.apply(
            if data is Encoded {
                data.stored()
            } else {
                data.stored().decoded()
            },
        ),
{
    let stored = data.stored();
    let idx = filter.positions(data.values().len());
    assert(stored.wf()) by {
        match data {
            ColumnData::Encoded(c) => {
                assert forall|i: int| 0 <= i < c.codes.values().len() implies c.scheme@.admits(
                    #[trigger] c.codes.values()[i],
                ) by {}
            },
            _ => {},
        }
    }
    assert(stored.len() == data.values().len());
    match filter {
        Filter::BitVec(f) => {
            lemma_set_positions_bounds(bits(&*f));
        },
        Filter::Indices(f) => {
            assert forall|k: int| 0 <= k < idx.len() implies 0 <= #[trigger] idx[k] < stored.len() by {
                assert(f@[k] < stored.len());
            }
        },
        Filter::All => {},
    }
    crate::typed_vec::lemma_decoded_values(stored);
    crate::typed_vec::lemma_gathered_wf(stored, idx);
    crate::typed_vec::lemma_gathered_wf(stored.decoded(), idx);
    crate::typed_vec::lemma_gathered_values(stored, idx);
    crate::typed_vec::lemma_gathered_values(stored.decoded(), idx);
}

/// The plan of a function of well-typed operands is well-typed.
pub proof fn lemma_function_plan<'a>(
    func: FuncType,
    lhs: (QueryPlan<'a>, Type<'a>),
    rhs: (QueryPlan<'a>, Type<'a>),
    rows: nat,
)
    requires
        lhs.0.wf(),
        rhs.0.wf(),
        lhs.1.describes(lhs.0.result(), rows),
        rhs.1.describes(rhs.0.result(), rows),
    ensures
        function_plan(func, lhs, rhs) matches Ok((plan, t)) ==> plan.wf() && t.describes(
            plan.result(),
            rows,
        ),
{
    let (plan_lhs, type_lhs) = lhs;
    let (plan_rhs, type_rhs) = rhs;
    match func {
        FuncType::LT | FuncType::Equals => {
            let ints = type_lhs.decoded == BasicType::Integer && type_rhs.decoded
                == BasicType::Integer;
            let strs = func == FuncType::Equals && type_lhs.decoded == BasicType::String
                && type_rhs.decoded == BasicType::String;
            if (ints || strs) && type_rhs.is_scalar && !type_lhs.is_scalar {
                let enc = type_lhs.encoding();
                match type_lhs.codec {
                    Some(c) => {
                        lemma_encoded_operand(ints, lhs, rhs, c, rows);
                        let right = if ints {
                            QueryPlan::EncodeIntConstant(Box::new(plan_rhs), c)
                        } else {
                            QueryPlan::EncodeStrConstant(Box::new(plan_rhs), c)
                        };
                        lemma_comparison(func, enc, plan_lhs, right, rows);
                    },
                    None => {
                        lemma_comparison(func, enc, plan_lhs, plan_rhs, rows);
                    },
                }
            }
        },
        FuncType::And | FuncType::Or => {
            if type_lhs.decoded == BasicType::Boolean && type_rhs.decoded == BasicType::Boolean {
                lemma_combination(plan_lhs, plan_rhs, rows);
            }
        },
    }
}

/// The scalar of a comparison with an encoded vector, encoded by the codec
/// of the vector, is an integer that the width of the codes holds.
proof fn lemma_encoded_operand<'a>(
    ints: bool,
    lhs: (QueryPlan<'a>, Type<'a>),
    rhs: (QueryPlan<'a>, Type<'a>),
    c: &'a ColumnCodec,
    rows: nat,
)
    requires
        rhs.0.wf(),
        lhs.1.describes(lhs.0.result(), rows),
        rhs.1.describes(rhs.0.result(), rows),
        lhs.1.codec == Some(c),
        !lhs.1.is_scalar,
        rhs.1.is_scalar,
        if ints {
            rhs.1.decoded == BasicType::Integer
        } else {
            rhs.1.decoded == BasicType::String
        },
    ensures
        ({
            let right = if ints {
                QueryPlan::EncodeIntConstant(Box::new(rhs.0), c)
            } else {
                QueryPlan::EncodeStrConstant(Box::new(rhs.0), c)
            };
            &&& right.wf()
            &&& right.result().is_int_const()
            &&& ints ==> right.result().int_const() <= widest(lhs.1.encoding())
            &&& compares_at(lhs.0.result(), lhs.1.encoding())
            &&& lhs.1.encoding() != EncodingType::Str
            &&& lhs.1.encoding() != EncodingType::I64
            &&& lhs.0.result().len() == rows
        }),
{
    let scalar = rhs.0.result();
    if ints {
        assert(scalar.is_int_const());
        let right = QueryPlan::EncodeIntConstant(Box::new(rhs.0), c);
        assert(right.result() == VecView::Constant(Val::Int(c.encoded_int(scalar.int_const()))));
        assert(c.encoded_int(scalar.int_const()) <= c.codes.limit());
    } else {
        assert(scalar.is_str_const());
        let right = QueryPlan::EncodeStrConstant(Box::new(rhs.0), c);
        let s = scalar.str_const();
        assert(right.result() == VecView::Constant(Val::Int(c.encoded_str(s))));
    }
}

/// AND and OR of two bit-vectors over the same rows are well-typed and give
/// one bit per row.
proof fn lemma_combination<'a>(lhs: QueryPlan<'a>, rhs: QueryPlan<'a>, rows: nat)
    requires
        lhs.wf(),
        rhs.wf(),
        lhs.result() is Boolean,
        rhs.result() is Boolean,
        lhs.result().len() == rows,
        rhs.result().len() == rows,
    ensures
        QueryPlan::And(Box::new(lhs), Box::new(rhs)).wf(),
        QueryPlan::Or(Box::new(lhs), Box::new(rhs)).wf(),
        bit_vec_type().describes(QueryPlan::And(Box::new(lhs), Box::new(rhs)).result(), rows),
        bit_vec_type().describes(QueryPlan::Or(Box::new(lhs), Box::new(rhs)).result(), rows),
{
}

/// A comparison of a vector with a scalar of its kind is well-typed and
/// gives one bit per row.
proof fn lemma_comparison<'a>(
    func: FuncType,
    enc: EncodingType,
    lhs: QueryPlan<'a>,
    rhs: QueryPlan<'a>,
    rows: nat,
)
    requires
        func == FuncType::LT || func == FuncType::Equals,
        lhs.wf(),
        rhs.wf(),
        lhs.result().len() == rows,
        if enc == EncodingType::Str {
            func == FuncType::Equals && lhs.result() is String && rhs.result().is_str_const()
        } else {
            &&& compares_at(lhs.result(), enc)
            &&& rhs.result().is_int_const()
            &&& func == FuncType::LT && enc != EncodingType::I64 ==> rhs.result().int_const()
                <= widest(enc)
        },
    ensures
        func == FuncType::LT ==> QueryPlan::LessThanVS(enc, Box::new(lhs), Box::new(rhs)).wf()
            && bit_vec_type().describes(
            QueryPlan::LessThanVS(enc, Box::new(lhs), Box::new(rhs)).result(),
            rows,
        ),
        func == FuncType::Equals ==> QueryPlan::EqualsVS(enc, Box::new(lhs), Box::new(rhs)).wf()
            && bit_vec_type().describes(
            QueryPlan::EqualsVS(enc, Box::new(lhs), Box::new(rhs)).result(),
            rows,
        ),
{
    let v = lhs.result();
    if enc == EncodingType::Str {
        assert(v.strs().len() == rows);
    } else {
        assert(v.ints().len() == rows);
    }
}

impl<'a> QueryPlan<'a> {
    /// The plan of an expression on a batch under a filter, and the type of
    /// what it produces; or the error that the expression calls for: a
    /// column that the batch does not hold, operands of the wrong type, or
    /// a comparison that is not one of a vector with a scalar.
    pub open spec fn planned(expr: &Expr, columns: &'a Batch, filter: Filter) -> Result<
        (QueryPlan<'a>, Type<'a>),
        QueryError,
    >
        decreases expr,
    {
        match expr {
            Expr::ColName(name) => match columns.position(name@) {
                Some(i) => Ok(column_plan(&columns.cols@[i].data, filter)),
                None => Err(QueryError::UnknownColumn),
            },
            Expr::Const(v) => Ok(
                (
                    QueryPlan::Constant(*v),
                    Type {
                        decoded: v@.basic_type(),
                        codec: None,
                        is_scalar: true,
                        is_borrowed: false,
                    },
                ),
            ),
            Expr::Func(func, lhs, rhs) => match Self::planned(lhs, columns, filter) {
                Err(e) => Err(e),
                Ok(left) => match Self::planned(rhs, columns, filter) {
                    Err(e) => Err(e),
                    Ok(right) => function_plan(*func, left, right),
                },
            },
        }
    }

    /// Plans an expression on a batch under a filter.
    pub fn create_query_plan(expr: &Expr, columns: &'a Batch, filter: Filter) -> (res: Result<
        (QueryPlan<'a>, Type<'a>),
        QueryError,
    >)
        requires
            columns.wf(),
            filter.admits(columns.rows()),
        ensures
            res == Self::planned(expr, columns, filter),
            res matches Ok((plan, t)) ==> plan.wf() && t.describes(
                plan.result(),
                filter.positions(columns.rows()).len(),
            ),
        decreases expr,
    {
        match expr {
            Expr::ColName(name) => match columns.get(name.as_str()) {
                Some(c) => {
                    proof {
                        let i = columns.position(name@)->Some_0;
                        assert(columns.cols@[i].wf());
                        assert(columns.cols@[i].values().len() == columns.rows());
                        lemma_column_plan(&c.data, filter);
                    }
                    let data = c.data();
                    let t = data.full_type();
                    let planned = match data.to_codec() {
                        None => match filter {
                            Filter::All => (QueryPlan::GetDecode(data), t.decoded()),
                            Filter::BitVec(f) => (QueryPlan::FilterDecode(data, f), t.decoded()),
                            Filter::Indices(f) => (QueryPlan::IndexDecode(data, f), t.decoded()),
                        },
                        Some(codec) => match filter {
                            Filter::All => (QueryPlan::GetEncoded(codec), t),
                            Filter::BitVec(f) => (QueryPlan::FilterEncoded(codec, f), t.mutable()),
                            Filter::Indices(f) => (QueryPlan::IndexEncoded(codec, f), t.mutable()),
                        },
                    };
                    Ok(planned)
                },
                None => Err(QueryError::UnknownColumn),
            },
            Expr::Const(v) => Ok((QueryPlan::Constant(v.clone()), Type::scalar(v.get_type()))),
            Expr::Func(func, lhs, rhs) => {
                let left = match Self::create_query_plan(lhs, columns, filter.clone()) {
                    Ok(p) => p,
                    Err(e) => {
                        return Err(e);
                    },
                };
                let right = match Self::create_query_plan(rhs, columns, filter) {
                    Ok(p) => p,
                    Err(e) => {
                        return Err(e);
                    },
                };
                proof {
                    lemma_function_plan(*func, left, right, filter.positions(columns.rows()).len());
                }
                Self::plan_function(*func, left, right)
            },
        }
    }

    /// The plan of the grouping key of a select list: the list holds one
    /// expression, and its plan produces codes of 8 or of 16 bits.
    pub open spec fn grouping_key(exprs: Seq<Expr>, columns: &'a Batch, filter: Filter) -> Result<
        (QueryPlan<'a>, Type<'a>),
        QueryError,
    > {
        if exprs.len() != 1 {
            Err(QueryError::UnsupportedQuery)
        } else {
            match Self::planned(&exprs[0], columns, filter) {
                Err(e) => Err(e),
                Ok((plan, t)) => if t.codec is Some && !t.is_scalar && (t.encoding()
                    == EncodingType::U8 || t.encoding() == EncodingType::U16) {
                    Ok((plan, t))
                } else {
                    Err(QueryError::UnsupportedQuery)
                },
            }
        }
    }

    /// Plans the grouping key of a select list. Grouping by several
    /// expressions, and by one that is not stored as codes of 8 or of 16
    /// bits, is unsupported.
    pub fn compile_grouping_key(exprs: &Vec<Expr>, columns: &'a Batch, filter: Filter) -> (res:
        Result<(QueryPlan<'a>, Type<'a>), QueryError>)
        requires
            columns.wf(),
            filter.admits(columns.rows()),
        ensures
            res == Self::grouping_key(exprs@, columns, filter),
            res matches Ok((plan, t)) ==> plan.wf() && t.describes(
                plan.result(),
                filter.positions(columns.rows()).len(),
            ) && (plan.result().is_codes(EncodingType::U8) || plan.result().is_codes(
                EncodingType::U16,
            )),
    {
        if exprs.len() != 1 {
            return Err(QueryError::UnsupportedQuery);
        }
        let (plan, t) = match Self::create_query_plan(&exprs[0], columns, filter) {
            Ok(p) => p,
            Err(e) => {
                return Err(e);
            },
        };
        if !t.is_encoded() || t.is_scalar {
            return Err(QueryError::UnsupportedQuery);
        }
        match t.encoding_type() {
            EncodingType::U8 | EncodingType::U16 => Ok((plan, t)),
            _ => Err(QueryError::UnsupportedQuery),
        }
    }

    /// Plans a function applied to two planned operands.
    fn plan_function(
        func: FuncType,
        lhs: (QueryPlan<'a>, Type<'a>),
        rhs: (QueryPlan<'a>, Type<'a>),
    ) -> (res: Result<(QueryPlan<'a>, Type<'a>), QueryError>)
        ensures
            res == function_plan(func, lhs, rhs),
    {
        let (plan_lhs, type_lhs) = lhs;
        let (plan_rhs, type_rhs) = rhs;
        match func {
            FuncType::LT | FuncType::Equals => {
                let ints = type_lhs.decoded == BasicType::Integer && type_rhs.decoded
                    == BasicType::Integer;
                let strs = func == FuncType::Equals && type_lhs.decoded == BasicType::String
                    && type_rhs.decoded == BasicType::String;
                if !ints && !strs {
                    return Err(QueryError::TypeError);
                }
                if !type_rhs.is_scalar || type_lhs.is_scalar {
                    return Err(QueryError::UnsupportedQuery);
                }
                let right = match type_lhs.codec {
                    Some(c) => if ints {
                        QueryPlan::EncodeIntConstant(Box::new(plan_rhs), c)
                    } else {
                        QueryPlan::EncodeStrConstant(Box::new(plan_rhs), c)
                    },
                    None => plan_rhs,
                };
                let plan = if func == FuncType::LT {
                    QueryPlan::LessThanVS(type_lhs.encoding_type(), Box::new(plan_lhs), Box::new(right))
                } else {
                    QueryPlan::EqualsVS(type_lhs.encoding_type(), Box::new(plan_lhs), Box::new(right))
                };
                Ok((plan, Type::bit_vec()))
            },
            FuncType::And | FuncType::Or => {
                if type_lhs.decoded != BasicType::Boolean || type_rhs.decoded != BasicType::Boolean {
                    Err(QueryError::TypeError)
                } else if func == FuncType::And {
                    Ok((QueryPlan::And(Box::new(plan_lhs), Box::new(plan_rhs)), Type::bit_vec()))
                } else {
                    Ok((QueryPlan::Or(Box::new(plan_lhs), Box::new(plan_rhs)), Type::bit_vec()))
                }
            },
        }
    }
}

/// Planning is a function of its inputs: two plans made of the same
/// expression on the same batch under the same filter are the same plan of
/// the same type, or the same error.
pub proof fn lemma_planning_deterministic<'a>(
    expr: &Expr,
    columns: &'a Batch,
    filter: Filter,
    first: Result<(QueryPlan<'a>, Type<'a>), QueryError>,
    second: Result<(QueryPlan<'a>, Type<'a>), QueryError>,
)
    requires
        first == QueryPlan::planned(expr, columns, filter),
        second == QueryPlan::planned(expr, columns, filter),
    ensures
        first == second,
{
}

/// The bound that a comparison by `<` at a narrow width is run with: the
/// scalar, or 0 in place of a negative scalar, which is below every code
/// as 0 is.
pub open spec fn narrow_bound(c: int) -> int {
    if c < 0 {
        0
    } else {
        c
    }
}

/// The operator that compares a vector by `<` with the scalar `c` at the
/// width `enc`.
pub open spec fn less_than_operator<'a>(enc: EncodingType, lhs: Operator<'a>, c: int) -> Operator<'a> {
    match enc {
        EncodingType::U8 => Operator::LessThanVSu8(
            LessThanVSu8 { lhs: Box::new(lhs), rhs: narrow_bound(c) as u8 },
        ),
        EncodingType::U16 => Operator::LessThanVSu16(
            LessThanVSu16 { lhs: Box::new(lhs), rhs: narrow_bound(c) as u16 },
        ),
        EncodingType::U32 => Operator::LessThanVSu32(
            LessThanVSu32 { lhs: Box::new(lhs), rhs: narrow_bound(c) as u32 },
        ),
        _ => Operator::LessThanVSi64(LessThanVSi64 { lhs: Box::new(lhs), rhs: c as i64 }),
    }
}

/// The operator that compares a vector by `==` with a scalar: strings
/// where `enc` is `Str`, integers of the width `enc` else.
pub open spec fn equals_operator<'a>(enc: EncodingType, lhs: Operator<'a>, rhs: Operator<'a>) -> Operator<
    'a,
> {
    match enc {
        EncodingType::Str => Operator::EqualsVSString(
            EqualsVSString { lhs: Box::new(lhs), rhs: Box::new(rhs) },
        ),
        EncodingType::U8 => Operator::EqualsVSU8(EqualsVSU8 { lhs: Box::new(lhs), rhs: Box::new(rhs) }),
        EncodingType::U16 => Operator::EqualsVSU16(
            EqualsVSU16 { lhs: Box::new(lhs), rhs: Box::new(rhs) },
        ),
        EncodingType::U32 => Operator::EqualsVSU32(
            EqualsVSU32 { lhs: Box::new(lhs), rhs: Box::new(rhs) },
        ),
        _ => Operator::EqualsVSI64(EqualsVSI64 { lhs: Box::new(lhs), rhs: Box::new(rhs) }),
    }
}

impl<'a> QueryPlan<'a> {
    /// The operators that a plan is lowered to: one operator per node, each
    /// comparison by the kernel of its width, and the scalar of a
    /// comparison by `<` folded into its operator.
    pub open spec fn lowered(&self) -> Operator<'a>
        decreases self,
    {
        match self {
            QueryPlan::GetDecode(col) => Operator::GetDecode(GetDecode { col }),
            QueryPlan::FilterDecode(col, f) => Operator::FilterDecode(FilterDecode { col, filter: *f }),
            QueryPlan::IndexDecode(col, f) => Operator::IndexDecode(IndexDecode { col, filter: *f }),
            QueryPlan::GetEncoded(col) => Operator::GetEncoded(GetEncoded { col }),
            QueryPlan::FilterEncoded(col, f) => Operator::FilterEncoded(
                FilterEncoded { col, filter: *f },
            ),
            QueryPlan::IndexEncoded(col, f) => Operator::IndexEncoded(IndexEncoded { col, filter: *f }),
            QueryPlan::Constant(c) => Operator::Constant(Constant { val: *c }),
            QueryPlan::Decode(plan) => Operator::Decode(Decode { plan: Box::new(plan.lowered()) }),
            QueryPlan::EncodeStrConstant(plan, codec) => Operator::EncodeStrConstant(
                EncodeStrConstant { constant: Box::new(plan.lowered()), codec },
            ),
            QueryPlan::EncodeIntConstant(plan, codec) => Operator::EncodeIntConstant(
                EncodeIntConstant { constant: Box::new(plan.lowered()), codec },
            ),
            QueryPlan::LessThanVS(enc, lhs, rhs) => less_than_operator(
                *enc,
                lhs.lowered(),
                rhs.result().int_const(),
            ),
            QueryPlan::EqualsVS(enc, lhs, rhs) => equals_operator(*enc, lhs.lowered(), rhs.lowered()),
            QueryPlan::Or(lhs, rhs) => Operator::Boolean(
                BooleanOperator {
                    lhs: Box::new(lhs.lowered()),
                    rhs: Box::new(rhs.lowered()),
                    op: BooleanOp::Or,
                },
            ),
            QueryPlan::And(lhs, rhs) => Operator::Boolean(
                BooleanOperator {
                    lhs: Box::new(lhs.lowered()),
                    rhs: Box::new(rhs.lowered()),
                    op: BooleanOp::And,
                },
            ),
        }
    }
}

/// Lowers a plan to the operators that run it. The operators produce what
/// the plan stands for.
pub fn prepare<'a>(plan: QueryPlan<'a>) -> (op: BoxedOperator<'a>)
    requires
        plan.wf(),
    ensures
        *op == plan.lowered(),
        op.wf(),
        op.output() == plan.result(),
    decreases plan,
{
    match plan {
        QueryPlan::GetDecode(col) => Box::new(Operator::GetDecode(GetDecode::new(col))),
        QueryPlan::FilterDecode(col, f) => Box::new(Operator::FilterDecode(FilterDecode::new(col, f))),
        QueryPlan::IndexDecode(col, f) => Box::new(Operator::IndexDecode(IndexDecode::new(col, f))),
        QueryPlan::GetEncoded(col) => Box::new(Operator::GetEncoded(GetEncoded::new(col))),
        QueryPlan::FilterEncoded(col, f) => Box::new(
            Operator::FilterEncoded(FilterEncoded::new(col, f)),
        ),
        QueryPlan::IndexEncoded(col, f) => Box::new(Operator::IndexEncoded(IndexEncoded::new(col, f))),
        QueryPlan::Constant(c) => Box::new(Operator::Constant(Constant::new(c))),
        QueryPlan::Decode(plan) => Box::new(Operator::Decode(Decode::new(prepare(*plan)))),
        QueryPlan::EncodeStrConstant(plan, codec) => Box::new(
            Operator::EncodeStrConstant(EncodeStrConstant::new(prepare(*plan), codec)),
        ),
        QueryPlan::EncodeIntConstant(plan, codec) => Box::new(
            Operator::EncodeIntConstant(EncodeIntConstant::new(prepare(*plan), codec)),
        ),
        QueryPlan::LessThanVS(left_type, lhs, rhs) => less_than_vs(
            left_type,
            prepare(*lhs),
            prepare(*rhs),
        ),
        QueryPlan::EqualsVS(left_type, lhs, rhs) => equals_vs(left_type, prepare(*lhs), prepare(*rhs)),
        QueryPlan::Or(lhs, rhs) => Boolean::or(prepare(*lhs), prepare(*rhs)),
        QueryPlan::And(lhs, rhs) => Boolean::and(prepare(*lhs), prepare(*rhs)),
    }
}

/// The operator that compares the vector of `lhs` with the scalar of `rhs`
/// by `<` at the width `left_type`. A negative scalar is below every code.
pub fn less_than_vs<'a>(left_type: EncodingType, lhs: BoxedOperator<'a>, rhs: BoxedOperator<'a>) -> (op:
    BoxedOperator<'a>)
    requires
        lhs.wf(),
        rhs.wf(),
        compares_at(lhs.output(), left_type),
        rhs.output().is_int_const(),
        left_type != EncodingType::I64 ==> rhs.output().int_const() <= widest(left_type),
    ensures
        *op == less_than_operator(left_type, *lhs, rhs.output().int_const()),
        op.wf(),
        op.output() == VecView::Boolean(lhs.output().less_than(rhs.output().int_const())),
{
    let c = rhs.execute().cast_int_const();
    let ghost v = lhs.output();
    match left_type {
        EncodingType::U8 => {
            let bound: u8 = if c < 0 { 0 } else { c as u8 };
            assert(v.less_than(bound as int) =~= v.less_than(c as int));
            Box::new(Operator::LessThanVSu8(LessThanVSu8::new(lhs, bound)))
        },
        EncodingType::U16 => {
            let bound: u16 = if c < 0 { 0 } else { c as u16 };
            assert(v.less_than(bound as int) =~= v.less_than(c as int));
            Box::new(Operator::LessThanVSu16(LessThanVSu16::new(lhs, bound)))
        },
        EncodingType::U32 => {
            let bound: u32 = if c < 0 { 0 } else { c as u32 };
            assert(v.less_than(bound as int) =~= v.less_than(c as int));
            Box::new(Operator::LessThanVSu32(LessThanVSu32::new(lhs, bound)))
        },
        _ => Box::new(Operator::LessThanVSi64(LessThanVSi64::new(lhs, c))),
    }
}

/// The operator that compares the vector of `lhs` with the scalar of `rhs`
/// by `==`: strings where `left_type` is `Str`, integers of the width
/// `left_type` else.
pub fn equals_vs<'a>(left_type: EncodingType, lhs: BoxedOperator<'a>, rhs: BoxedOperator<'a>) -> (op:
    BoxedOperator<'a>)
    requires
        lhs.wf(),
        rhs.wf(),
        if left_type == EncodingType::Str {
            lhs.output() is String && rhs.output().is_str_const()
        } else {
            compares_at(lhs.output(), left_type) && rhs.output().is_int_const()
        },
    ensures
        *op == equals_operator(left_type, *lhs, *rhs),
        op.wf(),
        op.output() == if left_type == EncodingType::Str {
            VecView::Boolean(lhs.output().equals_str(rhs.output().str_const()))
        } else {
            VecView::Boolean(lhs.output().equals_int(rhs.output().int_const()))
        },
{
    match left_type {
        EncodingType::Str => Box::new(Operator::EqualsVSString(EqualsVSString::new(lhs, rhs))),
        EncodingType::U8 => Box::new(Operator::EqualsVSU8(EqualsVSU8::new(lhs, rhs))),
        EncodingType::U16 => Box::new(Operator::EqualsVSU16(EqualsVSU16::new(lhs, rhs))),
        EncodingType::U32 => Box::new(Operator::EqualsVSU32(EqualsVSU32::new(lhs, rhs))),
        _ => Box::new(Operator::EqualsVSI64(EqualsVSI64::new(lhs, rhs))),
    }
}

} // verus!
