use ruba::batch::Batch;
use ruba::buffer::{Buffer, InputColumn};
use ruba::expression::{Expr, FuncType};
use ruba::int_like::EncodingType;
use ruba::query::{BatchResult, LimitClause, Query};
use ruba::query_plan::QueryPlan;
use ruba::raw_val::RawVal;
use ruba::typed_vec::TypedVec;
use ruba::types::{Aggregator, Filter, QueryError};

fn ints(name: &str, values: &[i64]) -> (String, InputColumn) {
    (name.to_string(), InputColumn::Int(values.to_vec()))
}

fn strs(name: &str, values: &[&str]) -> (String, InputColumn) {
    (
        name.to_string(),
        InputColumn::Str(values.iter().map(|s| s.to_string()).collect()),
    )
}

fn batch(columns: Vec<(String, InputColumn)>) -> Batch {
    let mut buffer = Buffer::default();
    buffer.push_typed_cols(columns);
    buffer.into_batch()
}

fn col(name: &str) -> Expr {
    Expr::ColName(name.to_string())
}

fn num(i: i64) -> Expr {
    Expr::Const(RawVal::Int(i))
}

fn lit(s: &str) -> Expr {
    Expr::Const(RawVal::Str(s.to_string()))
}

fn func(f: FuncType, lhs: Expr, rhs: Expr) -> Expr {
    Expr::Func(f, Box::new(lhs), Box::new(rhs))
}

fn query(select: Vec<Expr>, filter: Expr) -> Query {
    Query {
        select,
        table: "t".to_string(),
        filter,
        aggregate: Vec::new(),
        order_by: None,
        order_desc: false,
        limit: LimitClause { limit: 10, offset: 0 },
        order_by_index: None,
    }
}

fn as_ints(v: &TypedVec) -> Vec<i64> {
    match v {
        TypedVec::Integer(b) => b.as_vec().clone(),
        _ => panic!("not a vector of integers"),
    }
}

fn as_strings(v: &TypedVec) -> Vec<String> {
    match v {
        TypedVec::String(s) => s.iter().map(|x| x.to_string()).collect(),
        _ => panic!("not a vector of strings"),
    }
}

fn run<'a>(q: &Query, b: &'a Batch) -> BatchResult<'a> {
    match q.run(b) {
        Ok(r) => r,
        Err(e) => panic!("query failed: {:?}", e),
    }
}

fn run_aggregate<'a>(q: &Query, b: &'a Batch) -> BatchResult<'a> {
    match q.run_aggregate(b) {
        Ok(r) => r,
        Err(e) => panic!("query failed: {:?}", e),
    }
}

fn error_of(r: Result<BatchResult, QueryError>) -> QueryError {
    match r {
        Ok(_) => panic!("query succeeded"),
        Err(e) => e,
    }
}

#[test]
fn projection_with_integer_predicate() {
    let b = batch(vec![
        ints("num", &[0, 1, 2, 3, 4]),
        strs("name", &["a", "b", "c", "d", "e"]),
    ]);
    let q = query(vec![col("name")], func(FuncType::LT, col("num"), num(2)));
    let r = run(&q, &b);
    assert_eq!(r.select.len(), 1);
    assert_eq!(as_strings(&r.select[0]), vec!["a", "b"]);
    assert!(r.group_by.is_none());
    assert_eq!(r.sort_by, None);
    assert_eq!(r.aggregators.len(), 0);
    assert_eq!(r.level, 0);
    assert_eq!(r.batch_count, 1);
}

#[test]
fn string_equality_with_dictionary() {
    let b = batch(vec![strs("first_name", &["Adam", "Eve", "Adam", "Bob"])]);
    let q = query(
        vec![col("first_name")],
        func(FuncType::Equals, col("first_name"), lit("Adam")),
    );
    let r = run(&q, &b);
    assert_eq!(as_strings(&r.select[0]), vec!["Adam", "Adam"]);
}

#[test]
fn string_equality_with_unknown_constant_selects_nothing() {
    let b = batch(vec![strs("first_name", &["Adam", "Eve", "Adam", "Bob"])]);
    let q = query(
        vec![col("first_name")],
        func(FuncType::Equals, col("first_name"), lit("Nobody")),
    );
    let r = run(&q, &b);
    assert_eq!(as_strings(&r.select[0]), Vec::<String>::new());
}

#[test]
fn string_equality_compares_codes_with_the_encoded_constant() {
    let b = batch(vec![strs("first_name", &["Adam", "Eve", "Adam", "Bob"])]);
    let filter = func(FuncType::Equals, col("first_name"), lit("Nobody"));
    let planned = QueryPlan::create_query_plan(&filter, &b, Filter::All);
    let (plan, t) = match planned {
        Ok(p) => p,
        Err(e) => panic!("no plan: {:?}", e),
    };
    assert!(!t.is_scalar);
    match plan {
        QueryPlan::EqualsVS(width, lhs, rhs) => {
            assert_eq!(width, EncodingType::U8);
            assert!(matches!(*lhs, QueryPlan::GetEncoded(_)));
            match *rhs {
                QueryPlan::EncodeStrConstant(constant, codec) => {
                    assert!(matches!(*constant, QueryPlan::Constant(RawVal::Str(_))));
                    assert_eq!(codec.encode_str("Nobody"), RawVal::Int(-1));
                    assert_eq!(codec.encode_str("Adam"), RawVal::Int(0));
                    assert_eq!(codec.encode_str("Eve"), RawVal::Int(1));
                    assert_eq!(codec.encode_str("Bob"), RawVal::Int(2));
                }
                _ => panic!("the constant is not encoded"),
            }
        }
        _ => panic!("not a comparison of codes"),
    }
}

#[test]
fn count_grouped_by_small_cardinality_column() {
    let b = batch(vec![ints("passenger_count", &[1, 1, 2, 1, 3, 2])]);
    let mut q = query(vec![col("passenger_count")], num(1));
    q.aggregate = vec![(Aggregator::Count, num(1))];
    let r = run_aggregate(&q, &b);
    let keys = r.group_by.expect("grouping columns");
    assert_eq!(keys.len(), 1);
    assert_eq!(as_ints(&keys[0]), vec![1, 2, 3]);
    assert_eq!(r.select.len(), 1);
    assert_eq!(as_ints(&r.select[0]), vec![3, 2, 1]);
    assert_eq!(r.aggregators, vec![Aggregator::Count]);
    assert_eq!(r.sort_by, None);
    assert_eq!(r.level, 0);
    assert_eq!(r.batch_count, 1);
}

#[test]
fn sum_grouped() {
    let b = batch(vec![
        strs("k", &["x", "y", "x", "y", "x"]),
        ints("v", &[10, 1, 20, 2, 30]),
    ]);
    let mut q = query(vec![col("k")], num(1));
    q.aggregate = vec![(Aggregator::Sum, col("v"))];
    let r = run_aggregate(&q, &b);
    let keys = r.group_by.expect("grouping columns");
    assert_eq!(as_strings(&keys[0]), vec!["x", "y"]);
    assert_eq!(as_ints(&r.select[0]), vec![60, 3]);
}

#[test]
fn order_by_with_limit() {
    let b = batch(vec![ints("num", &[5, 1, 4, 2, 3])]);
    let mut q = query(vec![col("num")], num(1));
    q.order_by = Some("num".to_string());
    q.order_by_index = Some(0);
    q.limit = LimitClause { limit: 3, offset: 0 };
    let r = run(&q, &b);
    assert_eq!(as_ints(&r.select[0]), vec![1, 2, 3]);
    assert_eq!(r.sort_by, Some(0));
}

#[test]
fn order_by_descending_with_limit() {
    let b = batch(vec![ints("num", &[5, 1, 4, 2, 3])]);
    let mut q = query(vec![col("num")], num(1));
    q.order_by = Some("num".to_string());
    q.order_by_index = Some(0);
    q.order_desc = true;
    q.limit = LimitClause { limit: 3, offset: 0 };
    let r = run(&q, &b);
    assert_eq!(as_ints(&r.select[0]), vec![5, 4, 3]);
}

#[test]
fn boolean_combinators() {
    let b = batch(vec![ints("a", &[0, 1, 2, 3]), ints("b", &[3, 2, 1, 0])]);
    let filter = func(
        FuncType::And,
        func(FuncType::LT, col("a"), num(3)),
        func(FuncType::LT, col("b"), num(3)),
    );
    let q = query(vec![col("a")], filter);
    let r = run(&q, &b);
    assert_eq!(as_ints(&r.select[0]), vec![1, 2]);
}

#[test]
fn or_selects_rows_of_either_side() {
    let b = batch(vec![ints("a", &[0, 1, 2, 3]), ints("b", &[3, 2, 1, 0])]);
    let filter = func(
        FuncType::Or,
        func(FuncType::LT, col("a"), num(1)),
        func(FuncType::Equals, col("b"), num(0)),
    );
    let q = query(vec![col("a"), col("b")], filter);
    let r = run(&q, &b);
    assert_eq!(as_ints(&r.select[0]), vec![0, 3]);
    assert_eq!(as_ints(&r.select[1]), vec![3, 0]);
}

#[test]
fn order_by_string_column_orders_by_decoded_strings() {
    let b = batch(vec![
        strs("name", &["pear", "apple", "fig", "apple"]),
        ints("n", &[1, 2, 3, 4]),
    ]);
    let mut q = query(vec![col("name"), col("n")], num(1));
    q.order_by = Some("name".to_string());
    q.order_by_index = Some(0);
    let r = run(&q, &b);
    assert_eq!(as_strings(&r.select[0]), vec!["apple", "apple", "fig", "pear"]);
    assert_eq!(as_ints(&r.select[1]), vec![2, 4, 3, 1]);
}

#[test]
fn order_by_under_a_filter_keeps_row_positions() {
    let b = batch(vec![ints("num", &[5, 1, 4, 2, 3, 0])]);
    let mut q = query(vec![col("num")], func(FuncType::LT, col("num"), num(5)));
    q.order_by = Some("num".to_string());
    q.order_by_index = Some(0);
    q.order_desc = true;
    q.limit = LimitClause { limit: 2, offset: 1 };
    let r = run(&q, &b);
    assert_eq!(as_ints(&r.select[0]), vec![4, 3, 2]);
}

#[test]
fn limit_larger_than_the_batch_keeps_every_row() {
    let b = batch(vec![ints("num", &[2, 1])]);
    let mut q = query(vec![col("num")], num(1));
    q.order_by_index = Some(0);
    q.limit = LimitClause { limit: u64::MAX, offset: u64::MAX };
    let r = run(&q, &b);
    assert_eq!(as_ints(&r.select[0]), vec![1, 2]);
}

#[test]
fn equal_keys_keep_their_row_order() {
    let b = batch(vec![ints("k", &[1, 0, 1, 0]), ints("row", &[0, 1, 2, 3])]);
    let mut q = query(vec![col("k"), col("row")], num(1));
    q.order_by_index = Some(0);
    let r = run(&q, &b);
    assert_eq!(as_ints(&r.select[1]), vec![1, 3, 0, 2]);
    q.order_desc = true;
    let r = run(&q, &b);
    assert_eq!(as_ints(&r.select[1]), vec![0, 2, 1, 3]);
}

#[test]
fn count_under_a_filter_counts_the_rows_that_pass() {
    let b = batch(vec![
        ints("passenger_count", &[1, 1, 2, 1, 3, 2]),
        ints("fare", &[10, 20, 30, 40, 50, 60]),
    ]);
    let mut q = query(
        vec![col("passenger_count")],
        func(FuncType::LT, col("fare"), num(45)),
    );
    q.aggregate = vec![(Aggregator::Count, num(1)), (Aggregator::Sum, col("fare"))];
    let r = run_aggregate(&q, &b);
    let keys = r.group_by.expect("grouping columns");
    assert_eq!(as_ints(&keys[0]), vec![1, 2, 3]);
    let counts = as_ints(&r.select[0]);
    assert_eq!(counts, vec![3, 1, 0]);
    assert_eq!(counts.iter().sum::<i64>(), 4);
    assert!(counts.len() <= 3);
    assert_eq!(as_ints(&r.select[1]), vec![70, 30, 0]);
    assert_eq!(r.aggregators, vec![Aggregator::Count, Aggregator::Sum]);
}

#[test]
fn groups_come_in_the_order_of_their_decoded_keys() {
    let b = batch(vec![strs("k", &["pear", "apple", "pear", "fig"])]);
    let mut q = query(vec![col("k")], num(1));
    q.aggregate = vec![(Aggregator::Count, num(1))];
    let r = run_aggregate(&q, &b);
    let keys = r.group_by.expect("grouping columns");
    assert_eq!(as_strings(&keys[0]), vec!["apple", "fig", "pear"]);
    assert_eq!(as_ints(&r.select[0]), vec![1, 1, 2]);
}

#[test]
fn less_than_with_a_constant_below_the_column_selects_nothing() {
    let b = batch(vec![ints("num", &[10, 11, 12])]);
    let q = query(vec![col("num")], func(FuncType::LT, col("num"), num(3)));
    let r = run(&q, &b);
    assert_eq!(as_ints(&r.select[0]), Vec::<i64>::new());
}

#[test]
fn less_than_with_a_constant_that_no_code_stands_for_selects_nothing() {
    let b = batch(vec![ints("num", &[10, 11, 12])]);
    let q = query(vec![col("num")], func(FuncType::LT, col("num"), num(1000)));
    let r = run(&q, &b);
    assert_eq!(as_ints(&r.select[0]), Vec::<i64>::new());
}

#[test]
fn less_than_on_a_full_width_column() {
    let b = batch(vec![ints("big", &[0, 10_000_000_000, -5])]);
    let q = query(vec![col("big")], func(FuncType::LT, col("big"), num(1)));
    let r = run(&q, &b);
    assert_eq!(as_ints(&r.select[0]), vec![0, -5]);
}

#[test]
fn equality_on_sixteen_bit_codes() {
    let b = batch(vec![ints("num", &[0, 300, 7, 300])]);
    let q = query(vec![col("num")], func(FuncType::Equals, col("num"), num(300)));
    let r = run(&q, &b);
    assert_eq!(as_ints(&r.select[0]), vec![300, 300]);
}

#[test]
fn equality_on_thirty_two_bit_codes() {
    let b = batch(vec![ints("num", &[0, 70_000, 7])]);
    let q = query(vec![col("num")], func(FuncType::LT, col("num"), num(70_000)));
    let r = run(&q, &b);
    assert_eq!(as_ints(&r.select[0]), vec![0, 7]);
    let q = query(vec![col("num")], func(FuncType::Equals, col("num"), num(70_000)));
    let r = run(&q, &b);
    assert_eq!(as_ints(&r.select[0]), vec![70_000]);
}

#[test]
fn constant_projection_is_a_scalar() {
    let b = batch(vec![ints("num", &[1, 2])]);
    let q = query(vec![num(7)], num(1));
    let r = run(&q, &b);
    assert!(matches!(&r.select[0], TypedVec::Constant(RawVal::Int(7))));
}

#[test]
fn unknown_column_is_reported() {
    let b = batch(vec![ints("num", &[1, 2])]);
    let q = query(vec![col("missing")], num(1));
    assert_eq!(error_of(q.run(&b)), QueryError::UnknownColumn);
    let q = query(vec![col("num")], func(FuncType::LT, col("missing"), num(1)));
    assert_eq!(error_of(q.run(&b)), QueryError::UnknownColumn);
}

#[test]
fn mismatched_operand_types_are_a_type_error() {
    let b = batch(vec![ints("num", &[1, 2]), strs("s", &["a", "b"])]);
    let q = query(vec![col("num")], func(FuncType::LT, col("num"), lit("a")));
    assert_eq!(error_of(q.run(&b)), QueryError::TypeError);
    let q = query(vec![col("num")], func(FuncType::LT, col("s"), lit("a")));
    assert_eq!(error_of(q.run(&b)), QueryError::TypeError);
    let q = query(vec![col("num")], func(FuncType::And, col("num"), col("num")));
    assert_eq!(error_of(q.run(&b)), QueryError::TypeError);
}

#[test]
fn comparison_with_a_vector_on_the_right_is_unsupported() {
    let b = batch(vec![ints("a", &[1, 2]), ints("b", &[2, 1])]);
    let q = query(vec![col("a")], func(FuncType::LT, col("a"), col("b")));
    assert_eq!(error_of(q.run(&b)), QueryError::UnsupportedQuery);
    let q = query(vec![col("a")], func(FuncType::LT, num(1), num(2)));
    assert_eq!(error_of(q.run(&b)), QueryError::UnsupportedQuery);
}

#[test]
fn filter_that_is_a_column_is_fatal() {
    let b = batch(vec![ints("a", &[1, 2])]);
    let q = query(vec![col("a")], col("a"));
    assert_eq!(error_of(q.run(&b)), QueryError::FatalError);
    assert_eq!(error_of(q.run_aggregate(&b)), QueryError::FatalError);
}

#[test]
fn grouping_by_several_columns_is_unsupported() {
    let b = batch(vec![ints("a", &[1, 2]), ints("b", &[2, 1])]);
    let mut q = query(vec![col("a"), col("b")], num(1));
    q.aggregate = vec![(Aggregator::Count, num(1))];
    assert_eq!(error_of(q.run_aggregate(&b)), QueryError::UnsupportedQuery);
}

#[test]
fn grouping_by_a_wide_column_is_unsupported() {
    let b = batch(vec![ints("a", &[0, 70_000])]);
    let mut q = query(vec![col("a")], num(1));
    q.aggregate = vec![(Aggregator::Count, num(1))];
    assert_eq!(error_of(q.run_aggregate(&b)), QueryError::UnsupportedQuery);
}

#[test]
fn aggregator_that_does_not_take_its_plan_is_unsupported() {
    let b = batch(vec![ints("a", &[1, 2]), strs("s", &["x", "y"])]);
    let mut q = query(vec![col("a")], num(1));
    q.aggregate = vec![(Aggregator::Count, col("a"))];
    assert_eq!(error_of(q.run_aggregate(&b)), QueryError::UnsupportedQuery);
    q.aggregate = vec![(Aggregator::Sum, col("s"))];
    assert_eq!(error_of(q.run_aggregate(&b)), QueryError::UnsupportedQuery);
    q.aggregate = vec![(Aggregator::Sum, num(1))];
    assert_eq!(error_of(q.run_aggregate(&b)), QueryError::UnsupportedQuery);
}

#[test]
fn sum_that_does_not_fit_is_fatal() {
    let b = batch(vec![
        ints("k", &[1, 1, 2]),
        ints("v", &[i64::MAX, 1, 5]),
    ]);
    let mut q = query(vec![col("k")], num(1));
    q.aggregate = vec![(Aggregator::Sum, col("v"))];
    assert_eq!(error_of(q.run_aggregate(&b)), QueryError::FatalError);
}

#[test]
fn sum_at_the_edge_of_sixty_four_bits_fits() {
    let b = batch(vec![
        ints("k", &[1, 1, 2]),
        ints("v", &[i64::MAX - 1, 1, i64::MIN]),
    ]);
    let mut q = query(vec![col("k")], num(1));
    q.aggregate = vec![(Aggregator::Sum, col("v"))];
    let r = run_aggregate(&q, &b);
    assert_eq!(as_ints(&r.select[0]), vec![i64::MAX, i64::MIN]);
}

#[test]
fn planning_twice_gives_the_same_plan() {
    let b = batch(vec![ints("num", &[0, 1, 2])]);
    let filter = func(FuncType::LT, col("num"), num(2));
    let shape = |plan: &QueryPlan| match plan {
        QueryPlan::LessThanVS(width, lhs, rhs) => (
            *width,
            matches!(**lhs, QueryPlan::GetEncoded(_)),
            matches!(**rhs, QueryPlan::EncodeIntConstant(_, _)),
        ),
        _ => panic!("not a comparison"),
    };
    let first = QueryPlan::create_query_plan(&filter, &b, Filter::All).ok().expect("plan");
    let second = QueryPlan::create_query_plan(&filter, &b, Filter::All).ok().expect("plan");
    assert_eq!(shape(&first.0), shape(&second.0));
    assert_eq!(shape(&first.0), (EncodingType::U8, true, true));
    assert_eq!(first.1.decoded, second.1.decoded);
    assert_eq!(first.1.is_scalar, second.1.is_scalar);
}
