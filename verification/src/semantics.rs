//! What expressions mean, row by row, and that plans compute it.

use crate::batch::Batch;
use crate::column::{ColumnCodec, ColumnData, SchemeView};
use crate::expression::{Expr, FuncType};
use crate::int_like::{widest, EncodingType};
use crate::query_plan::{
    bit_vec_type, column_plan, function_plan, lemma_column_plan, lemma_function_plan, QueryPlan,
};
use crate::raw_val::{BasicType, Val};
use crate::typed_vec::VecView;
use crate::types::{Filter, Type};
use vstd::prelude::*;

verus! {

/// The value that stands for a truth value: 1 for true, 0 for false.
pub open spec fn truth(b: bool) -> Val {
    Val::Int(if b {
        1int
    } else {
        0int
    })
}

/// The integer of an integer value.
pub open spec fn int_of(v: Val) -> int {
    match v {
        Val::Int(i) => i,
        _ => 0,
    }
}

/// The codec of the column that an expression reads, where the expression
/// is a reference to a column that is stored in a compact encoding.
pub open spec fn codec_of<'a>(expr: &Expr, columns: &'a Batch) -> Option<&'a ColumnCodec> {
    match expr {
        Expr::ColName(name) => match columns.position(name@) {
            Some(i) => match &columns.cols@[i].data {
                ColumnData::Encoded(c) => Some(c),
                _ => None,
            },
            None => None,
        },
        _ => None,
    }
}

/// Whether a function holds of the values `a` and `b` of its operands.
/// `<` on the codes of an encoded column holds only of a constant that a
/// code of the column's width stands for.
pub open spec fn holds(func: FuncType, lhs: &Expr, columns: &Batch, a: Val, b: Val) -> bool {
    match func {
        FuncType::LT => int_of(a) < int_of(b) && match codec_of(lhs, columns) {
            Some(c) => c.encoded_int(int_of(b)) >= 0,
            None => true,
        },
        FuncType::Equals => a == b,
        FuncType::And => a == truth(true) && b == truth(true),
        FuncType::Or => a == truth(true) || b == truth(true),
    }
}

/// The value of an expression at a row of a batch. The value of a
/// comparison and of AND and OR is a truth value.
pub open spec fn expr_value(expr: &Expr, columns: &Batch, row: int) -> Val
    decreases expr,
{
    match expr {
        Expr::ColName(name) => match columns.position(name@) {
            Some(i) => columns.cols@[i].values()[row],
            None => Val::Null,
        },
        Expr::Const(v) => v@,
        Expr::Func(func, lhs, rhs) => truth(
            holds(
                *func,
                lhs,
                columns,
                expr_value(lhs, columns, row),
                expr_value(rhs, columns, row),
            ),
        ),
    }
}

/// The values of an expression at the rows `positions`.
pub open spec fn expr_values(expr: &Expr, columns: &Batch, positions: Seq<int>) -> Seq<Val> {
    Seq::new(positions.len(), |k: int| expr_value(expr, columns, positions[k]))
}

/// Whether a plan of the type `t` computes the expression at the rows
/// `positions`: a scalar is the value of the expression at every row, and
/// element `k` of a vector stands for the value at row `positions[k]`.
pub open spec fn computes(
    plan: QueryPlan,
    t: Type,
    expr: &Expr,
    columns: &Batch,
    positions: Seq<int>,
) -> bool {
    &&& t.codec == codec_of(expr, columns)
    &&& if t.is_scalar {
        forall|row: int| plan.result() == VecView::Constant(#[trigger] expr_value(expr, columns, row))
    } else {
        plan.result().values() == expr_values(expr, columns, positions)
    }
}

/// A plan that was made is well-typed.
pub proof fn lemma_planned_typed<'a>(expr: &Expr, columns: &'a Batch, filter: Filter)
    requires
        columns.wf(),
        filter.admits(columns.rows()),
    ensures
        QueryPlan::planned(expr, columns, filter) matches Ok((plan, t)) ==> plan.wf() && t.describes(
            plan.result(),
            filter.positions(columns.rows()).len(),
        ),
    decreases expr,
{
    match expr {
        Expr::ColName(name) => match columns.position(name@) {
            Some(i) => {
                assert(columns.cols@[i].wf());
                assert(columns.cols@[i].values().len() == columns.rows());
                lemma_column_plan(&columns.cols@[i].data, filter);
            },
            None => {},
        },
        Expr::Const(v) => {},
        Expr::Func(func, lhs, rhs) => {
            lemma_planned_typed(lhs, columns, filter);
            lemma_planned_typed(rhs, columns, filter);
            match QueryPlan::planned(lhs, columns, filter) {
                Ok(left) => match QueryPlan::planned(rhs, columns, filter) {
                    Ok(right) => {
                        lemma_function_plan(
                            *func,
                            left,
                            right,
                            filter.positions(columns.rows()).len(),
                        );
                    },
                    Err(_) => {},
                },
                Err(_) => {},
            }
        },
    }
}

/// The rows that a filter lets through are rows of the batch.
pub proof fn lemma_positions_in_range(filter: Filter, rows: nat)
    requires
        filter.admits(rows),
    ensures
        forall|k: int|
            0 <= k < filter.positions(rows).len() ==> 0 <= #[trigger] filter.positions(rows)[k]
                < rows,
{
    match filter {
        Filter::BitVec(b) => {
            crate::bits::lemma_set_positions_bounds(crate::bits::bits(&*b));
        },
        Filter::Indices(idx) => {
            assert forall|k: int| 0 <= k < filter.positions(rows).len() implies 0
                <= #[trigger] filter.positions(rows)[k] < rows by {
                assert(idx@[k] < rows);
            }
        },
        Filter::All => {},
    }
}

/// The plan of a column reference computes the column at the rows that the
/// filter lets through.
proof fn lemma_column_sound<'a>(expr: &Expr, columns: &'a Batch, filter: Filter, i: int)
    requires
        columns.wf(),
        filter.admits(columns.rows()),
        expr matches Expr::ColName(name) && columns.position(name@) == Some(i),
        0 <= i < columns.cols@.len(),
    ensures
        computes(
            column_plan(&columns.cols@[i].data, filter).0,
            column_plan(&columns.cols@[i].data, filter).1,
            expr,
            columns,
            filter.positions(columns.rows()),
        ),
{
    let data = &columns.cols@[i].data;
    let rows = columns.rows();
    let pos = filter.positions(rows);
    assert(columns.cols@[i].wf());
    assert(columns.cols@[i].values().len() == rows);
    lemma_column_plan(data, filter);
    lemma_positions_in_range(filter, rows);
    let plan = column_plan(data, filter).0;
    let base = if data is Encoded {
        data.stored()
    } else {
        data.stored().decoded()
    };
    crate::typed_vec::lemma_decoded_values(data.stored());
    assert(data.stored().values() =~= data.values());
    assert(base.values() == data.values());
    assert(base.len() == rows);
    match filter {
        Filter::All => {
            assert(plan.result().values() =~= expr_values(expr, columns, pos));
        },
        _ => {
            crate::typed_vec::lemma_gathered_values(base, pos);
            assert(plan.result().values() =~= expr_values(expr, columns, pos));
        },
    }
}

/// A comparison of the integers of a vector with an integer scalar
/// computes `<` and `==` row by row.
proof fn lemma_compare_plain(v: VecView, c: int, values: Seq<Val>)
    requires
        v is Integer,
        v.values() == values,
    ensures
        VecView::Boolean(v.less_than(c)).values() == Seq::new(
            values.len(),
            |k: int| truth(int_of(values[k]) < c),
        ),
        VecView::Boolean(v.equals_int(c)).values() == Seq::new(
            values.len(),
            |k: int| truth(values[k] == Val::Int(c)),
        ),
{
    assert forall|k: int| 0 <= k < values.len() implies values[k] == Val::Int(v.ints()[k]) by {
        assert(v.values()[k] == Val::Int(v.ints()[k]));
    }
    assert(VecView::Boolean(v.less_than(c)).values() =~= Seq::new(
        values.len(),
        |k: int| truth(int_of(values[k]) < c),
    ));
    assert(VecView::Boolean(v.equals_int(c)).values() =~= Seq::new(
        values.len(),
        |k: int| truth(values[k] == Val::Int(c)),
    ));
}

/// A comparison of the codes of an offset-encoded vector with the encoded
/// form of an integer scalar computes `==` row by row, and `<` where a
/// code stands for the scalar.
proof fn lemma_compare_offsets(v: VecView, codec: &ColumnCodec, c: int, values: Seq<Val>)
    requires
        codec.wf(),
        v.wf(),
        v matches VecView::Encoded(enc, _, scheme) && enc == codec.codes.encoding() && scheme
            == codec.scheme@ && scheme is Offset,
        v.values() == values,
    ensures
        VecView::Boolean(v.less_than(codec.encoded_int(c))).values() == Seq::new(
            values.len(),
            |k: int| truth(int_of(values[k]) < c && codec.encoded_int(c) >= 0),
        ),
        VecView::Boolean(v.equals_int(codec.encoded_int(c))).values() == Seq::new(
            values.len(),
            |k: int| truth(values[k] == Val::Int(c)),
        ),
{
    let code = codec.encoded_int(c);
    assert(codec.codes.limit() == widest(codec.codes.encoding()));
    match v {
        VecView::Encoded(enc, codes, scheme) => {
            assert forall|k: int| 0 <= k < values.len() implies values[k] == scheme.decode(codes[k])
                && scheme.admits(codes[k]) by {
                assert(v.values()[k] == scheme.decode(codes[k]));
            }
            assert(VecView::Boolean(v.less_than(code)).values() =~= Seq::new(
                values.len(),
                |k: int| truth(int_of(values[k]) < c && codec.encoded_int(c) >= 0),
            ));
            assert(VecView::Boolean(v.equals_int(code)).values() =~= Seq::new(
                values.len(),
                |k: int| truth(values[k] == Val::Int(c)),
            ));
        },
        _ => {},
    }
}

/// A comparison of the codes of a dictionary-encoded vector with the code
/// of a string scalar computes `==` row by row.
proof fn lemma_compare_codes(v: VecView, codec: &ColumnCodec, s: Seq<char>, values: Seq<Val>)
    requires
        codec.wf(),
        v.wf(),
        v matches VecView::Encoded(enc, _, scheme) && enc == codec.codes.encoding() && scheme
            == codec.scheme@ && scheme is Dictionary,
        v.values() == values,
    ensures
        VecView::Boolean(v.equals_int(codec.encoded_str(s))).values() == Seq::new(
            values.len(),
            |k: int| truth(values[k] == Val::Str(s)),
        ),
{
    let code = codec.encoded_str(s);
    match v {
        VecView::Encoded(enc, codes, scheme) => {
            match scheme {
                SchemeView::Dictionary(book) => {
                    assert(book.no_duplicates());
                    assert forall|k: int| 0 <= k < values.len() implies (codes[k] == code) == (values[k]
                        == Val::Str(s)) by {
                        assert(v.values()[k] == scheme.decode(codes[k]));
                        assert(scheme.admits(codes[k]));
                        if book.contains(s) {
                            let j = book.index_of(s);
                            assert(0 <= j < book.len() && book[j] == s);
                        }
                        if book[codes[k]] == s {
                            assert(book.contains(s));
                        }
                    }
                    assert(VecView::Boolean(v.equals_int(code)).values() =~= Seq::new(
                        values.len(),
                        |k: int| truth(values[k] == Val::Str(s)),
                    ));
                },
                _ => {},
            }
        },
        _ => {},
    }
}

/// A comparison of the strings of a vector with a string scalar computes
/// `==` row by row.
proof fn lemma_compare_strings(v: VecView, s: Seq<char>, values: Seq<Val>)
    requires
        v is String,
        v.values() == values,
    ensures
        VecView::Boolean(v.equals_str(s)).values() == Seq::new(
            values.len(),
            |k: int| truth(values[k] == Val::Str(s)),
        ),
{
    assert forall|k: int| 0 <= k < values.len() implies values[k] == Val::Str(v.strs()[k]) by {
        assert(v.values()[k] == Val::Str(v.strs()[k]));
    }
    assert(VecView::Boolean(v.equals_str(s)).values() =~= Seq::new(
        values.len(),
        |k: int| truth(values[k] == Val::Str(s)),
    ));
}

/// AND and OR of two bit-vectors compute the conjunction and the
/// disjunction row by row.
proof fn lemma_combine(a: VecView, b: VecView, x: Seq<Val>, y: Seq<Val>)
    requires
        a is Boolean,
        b is Boolean,
        a.len() == b.len(),
        a.values() == x,
        b.values() == y,
    ensures
        VecView::Boolean(crate::bits::bitwise_and(a.bools(), b.bools())).values() == Seq::new(
            x.len(),
            |k: int| truth(x[k] == truth(true) && y[k] == truth(true)),
        ),
        VecView::Boolean(crate::bits::bitwise_or(a.bools(), b.bools())).values() == Seq::new(
            x.len(),
            |k: int| truth(x[k] == truth(true) || y[k] == truth(true)),
        ),
{
    assert forall|k: int| 0 <= k < x.len() implies x[k] == truth(a.bools()[k]) && y[k] == truth(
        b.bools()[k],
    ) by {
        assert(a.values()[k] == truth(a.bools()[k]));
        assert(b.values()[k] == truth(b.bools()[k]));
    }
    assert(VecView::Boolean(crate::bits::bitwise_and(a.bools(), b.bools())).values() =~= Seq::new(
        x.len(),
        |k: int| truth(x[k] == truth(true) && y[k] == truth(true)),
    ));
    assert(VecView::Boolean(crate::bits::bitwise_or(a.bools(), b.bools())).values() =~= Seq::new(
        x.len(),
        |k: int| truth(x[k] == truth(true) || y[k] == truth(true)),
    ));
}

/// The plan of a function computes the function of what the plans of its
/// operands compute.
proof fn lemma_function_sound<'a>(
    expr: &Expr,
    func: FuncType,
    lhs: &Expr,
    rhs: &Expr,
    left: (QueryPlan<'a>, Type<'a>),
    right: (QueryPlan<'a>, Type<'a>),
    columns: &'a Batch,
    positions: Seq<int>,
)
    requires
        expr matches Expr::Func(f, l, r) && f == func && **l == *lhs && **r == *rhs,
        left.0.wf(),
        right.0.wf(),
        left.1.describes(left.0.result(), positions.len()),
        right.1.describes(right.0.result(), positions.len()),
        computes(left.0, left.1, lhs, columns, positions),
        computes(right.0, right.1, rhs, columns, positions),
    ensures
        function_plan(func, left, right) matches Ok((plan, t)) ==> computes(
            plan,
            t,
            expr,
            columns,
            positions,
        ),
{
    let (plan_lhs, type_lhs) = left;
    let (plan_rhs, type_rhs) = right;
    let a = plan_lhs.result();
    let b = plan_rhs.result();
    let expected = expr_values(expr, columns, positions);
    match function_plan(func, left, right) {
        Ok((plan, t)) => {
            assert(t == bit_vec_type());
            match func {
                FuncType::LT | FuncType::Equals => {
                    let ints = type_lhs.decoded == BasicType::Integer && type_rhs.decoded
                        == BasicType::Integer;
                    let x = expr_values(lhs, columns, positions);
                    assert(a.values() == x);
                    let scalar = b->Constant_0;
                    assert(b == VecView::Constant(scalar));
                    assert forall|k: int| 0 <= k < positions.len() implies expr_value(
                        rhs,
                        columns,
                        positions[k],
                    ) == scalar by {
                        assert(b == VecView::Constant(expr_value(rhs, columns, positions[k])));
                    }
                    assert forall|k: int| 0 <= k < positions.len() implies #[trigger] expected[k]
                        == truth(holds(func, lhs, columns, x[k], scalar)) by {}
                    assert(codec_of(lhs, columns) == type_lhs.codec);
                    assert(x.len() == positions.len());
                    let got = plan.result().values();
                    if ints {
                        let c0 = int_of(scalar);
                        assert(scalar == Val::Int(c0));
                        assert(b.int_const() == c0);
                        match type_lhs.codec {
                            Some(c) => {
                                lemma_compare_offsets(a, c, c0, x);
                                let right_plan = QueryPlan::EncodeIntConstant(Box::new(plan_rhs), c);
                                assert(right_plan.result().int_const() == c.encoded_int(c0));
                                if func == FuncType::LT {
                                    assert(plan.result() == VecView::Boolean(
                                        a.less_than(c.encoded_int(c0)),
                                    ));
                                } else {
                                    assert(plan.result() == VecView::Boolean(
                                        a.equals_int(c.encoded_int(c0)),
                                    ));
                                }
                            },
                            None => {
                                lemma_compare_plain(a, c0, x);
                                if func == FuncType::LT {
                                    assert(plan.result() == VecView::Boolean(a.less_than(c0)));
                                } else {
                                    assert(plan.result() == VecView::Boolean(a.equals_int(c0)));
                                }
                            },
                        }
                    } else {
                        let s0 = scalar->Str_0;
                        assert(scalar == Val::Str(s0));
                        assert(b.str_const() == s0);
                        assert(func == FuncType::Equals);
                        match type_lhs.codec {
                            Some(c) => {
                                lemma_compare_codes(a, c, s0, x);
                                let right_plan = QueryPlan::EncodeStrConstant(Box::new(plan_rhs), c);
                                assert(right_plan.result().int_const() == c.encoded_str(s0));
                                assert(type_lhs.encoding() != EncodingType::Str);
                                assert(plan.result() == VecView::Boolean(
                                    a.equals_int(c.encoded_str(s0)),
                                ));
                            },
                            None => {
                                lemma_compare_strings(a, s0, x);
                                assert(type_lhs.encoding() == EncodingType::Str);
                                assert(plan.result() == VecView::Boolean(a.equals_str(s0)));
                            },
                        }
                    }
                    assert(got.len() == expected.len());
                    assert forall|k: int| 0 <= k < expected.len() implies got[k] == expected[k] by {
                        assert(expected[k] == truth(holds(func, lhs, columns, x[k], scalar)));
                    }
                    assert(got =~= expected);
                },
                FuncType::And | FuncType::Or => {
                    let x = expr_values(lhs, columns, positions);
                    let y = expr_values(rhs, columns, positions);
                    assert(!type_lhs.is_scalar && !type_rhs.is_scalar);
                    lemma_combine(a, b, x, y);
                    assert(plan.result().values() =~= expected);
                },
            }
        },
        Err(_) => {},
    }
}

/// A plan computes its expression: where a plan is made of an expression
/// on a batch under a filter, element `k` of what the plan produces stands
/// for the value of the expression at the `k`-th row that the filter lets
/// through, and a scalar is the value of the expression at every row.
pub proof fn lemma_plan_sound<'a>(expr: &Expr, columns: &'a Batch, filter: Filter)
    requires
        columns.wf(),
        filter.admits(columns.rows()),
    ensures
        QueryPlan::planned(expr, columns, filter) matches Ok((plan, t)) ==> computes(
            plan,
            t,
            expr,
            columns,
            filter.positions(columns.rows()),
        ),
    decreases expr,
{
    let positions = filter.positions(columns.rows());
    match expr {
        Expr::ColName(name) => match columns.position(name@) {
            Some(i) => {
                lemma_column_sound(expr, columns, filter, i);
            },
            None => {},
        },
        Expr::Const(v) => {},
        Expr::Func(func, lhs, rhs) => {
            lemma_plan_sound(lhs, columns, filter);
            lemma_plan_sound(rhs, columns, filter);
            lemma_planned_typed(lhs, columns, filter);
            lemma_planned_typed(rhs, columns, filter);
            match QueryPlan::planned(lhs, columns, filter) {
                Ok(left) => match QueryPlan::planned(rhs, columns, filter) {
                    Ok(right) => {
                        lemma_function_sound(expr, *func, lhs, rhs, left, right, columns, positions);
                    },
                    Err(_) => {},
                },
                Err(_) => {},
            }
        },
    }
}

/// A projection computes its expressions: column `i` of what the select
/// list produces under a filter holds the values of expression `i` at the
/// rows that the filter lets through, and a scalar column is the value of
/// its expression at every row.
pub proof fn lemma_projection_sound(exprs: Seq<Expr>, columns: &Batch, filter: Filter, i: int)
    requires
        columns.wf(),
        filter.admits(columns.rows()),
        crate::query::projection(exprs, columns, filter) is Ok,
        0 <= i < exprs.len(),
    ensures
        crate::query::projection(exprs, columns, filter)->Ok_0.len() == exprs.len(),
        ({
            let view = crate::query::projection(exprs, columns, filter)->Ok_0[i];
            if view is Constant {
                forall|row: int| view == VecView::Constant(#[trigger] expr_value(&exprs[i], columns, row))
            } else {
                view.values() == expr_values(&exprs[i], columns, filter.positions(columns.rows()))
            }
        }),
    decreases exprs.len(),
{
    let rest = exprs.drop_last();
    let last = exprs.last();
    if i < exprs.len() - 1 {
        lemma_projection_sound(rest, columns, filter, i);
        assert(rest[i] == exprs[i]);
    } else {
        if rest.len() > 0 {
            lemma_projection_sound(rest, columns, filter, 0);
        }
        lemma_plan_sound(&last, columns, filter);
        lemma_planned_typed(&last, columns, filter);
        match QueryPlan::planned(&last, columns, filter) {
            Ok((plan, t)) => {
                crate::typed_vec::lemma_decoded_values(plan.result());
            },
            Err(_) => {},
        }
    }
}

/// What is summed is what the expression says: element `k` of the decoded
/// integers of a plan of an integer vector is the value of the expression
/// at the `k`-th row that the filter lets through.
pub proof fn lemma_summand_sound<'a>(expr: &Expr, columns: &'a Batch, filter: Filter, k: int)
    requires
        columns.wf(),
        filter.admits(columns.rows()),
        QueryPlan::planned(expr, columns, filter) matches Ok((plan, t)) && t.decoded
            == BasicType::Integer && !t.is_scalar,
        0 <= k < filter.positions(columns.rows()).len(),
    ensures
        QueryPlan::planned(expr, columns, filter)->Ok_0.0.result().decoded().ints().len()
            == filter.positions(columns.rows()).len(),
        Val::Int(QueryPlan::planned(expr, columns, filter)->Ok_0.0.result().decoded().ints()[k])
            == expr_value(expr, columns, filter.positions(columns.rows())[k]),
{
    lemma_plan_sound(expr, columns, filter);
    lemma_planned_typed(expr, columns, filter);
    let (plan, t) = QueryPlan::planned(expr, columns, filter)->Ok_0;
    let v = plan.result();
    crate::typed_vec::lemma_decoded_values(v);
    assert(v.decoded() is Integer);
    assert(v.decoded().values()[k] == Val::Int(v.decoded().ints()[k]));
    assert(v.values()[k] == expr_value(expr, columns, filter.positions(columns.rows())[k]));
}

/// Rows are grouped by what the grouping expression says: the code of the
/// `k`-th row that the filter lets through decodes to the value of the
/// grouping expression at that row.
pub proof fn lemma_group_key_sound<'a>(exprs: Seq<Expr>, columns: &'a Batch, filter: Filter, k: int)
    requires
        columns.wf(),
        filter.admits(columns.rows()),
        QueryPlan::grouping_key(exprs, columns, filter) is Ok,
        0 <= k < filter.positions(columns.rows()).len(),
    ensures
        exprs.len() == 1,
        QueryPlan::grouping_key(exprs, columns, filter)->Ok_0.0.result() matches VecView::Encoded(
            _,
            codes,
            scheme,
        ) && codes.len() == filter.positions(columns.rows()).len() && scheme.admits(codes[k])
            && scheme.decode(codes[k]) == expr_value(
            &exprs[0],
            columns,
            filter.positions(columns.rows())[k],
        ),
{
    lemma_plan_sound(&exprs[0], columns, filter);
    lemma_planned_typed(&exprs[0], columns, filter);
    let (plan, t) = QueryPlan::planned(&exprs[0], columns, filter)->Ok_0;
    let v = plan.result();
    assert(v.values()[k] == expr_value(&exprs[0], columns, filter.positions(columns.rows())[k]));
    match v {
        VecView::Encoded(_, codes, scheme) => {
            assert(scheme.admits(codes[k]));
        },
        _ => {},
    }
}

} // verus!
