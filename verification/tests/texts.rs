use ruba::aggregation::{count_kernel, finish, sum_kernel};
use ruba::expression::{Expr, FuncType};
use ruba::int_like::Buf;
use ruba::query::{all_rows, rank_rows, LimitClause, Query};
use ruba::raw_val::RawVal;
use ruba::text::{bytes_less, int_to_text, make_numbered_name, same_text, text_less};
use ruba::typed_vec::TypedVec;
use ruba::types::{Aggregator, QueryError};

fn col(name: &str) -> Expr {
    Expr::ColName(name.to_string())
}

fn func(f: FuncType, lhs: Expr, rhs: Expr) -> Expr {
    Expr::Func(f, Box::new(lhs), Box::new(rhs))
}

fn query(select: Vec<Expr>, filter: Expr, aggregate: Vec<(Aggregator, Expr)>) -> Query {
    Query {
        select,
        table: "t".to_string(),
        filter,
        aggregate,
        order_by: None,
        order_desc: false,
        limit: LimitClause { limit: 1, offset: 0 },
        order_by_index: None,
    }
}

#[test]
fn decimal_form_of_integers() {
    assert_eq!(int_to_text(0), "0");
    assert_eq!(int_to_text(7), "7");
    assert_eq!(int_to_text(10), "10");
    assert_eq!(int_to_text(-1), "-1");
    assert_eq!(int_to_text(1234567890), "1234567890");
    assert_eq!(int_to_text(i64::MAX), "9223372036854775807");
    assert_eq!(int_to_text(i64::MIN), "-9223372036854775808");
    for i in [-1001i64, -100, -99, 99, 100, 1001, 405060] {
        assert_eq!(int_to_text(i), i.to_string());
    }
}

#[test]
fn numbered_names() {
    assert_eq!(make_numbered_name("col", 0), "col_0");
    assert_eq!(make_numbered_name("count", 12), "count_12");
    assert_eq!(make_numbered_name("", 305), "_305");
}

#[test]
fn strings_are_ordered_by_their_bytes() {
    assert!(text_less("a", "b"));
    assert!(!text_less("b", "a"));
    assert!(!text_less("a", "a"));
    assert!(text_less("", "a"));
    assert!(!text_less("", ""));
    assert!(text_less("a", "aa"));
    assert!(!text_less("aa", "a"));
    assert!(text_less("Z", "a"));
    assert!(text_less("z", "é"));
    assert!(bytes_less(&[1, 2], &[1, 3]));
    assert!(!bytes_less(&[1, 3], &[1, 2, 9]));
    let words = ["", "a", "ab", "b", "Z", "é", "zz", "a"];
    for x in words.iter() {
        for y in words.iter() {
            assert_eq!(text_less(x, y), x < y);
            assert_eq!(same_text(x, y), x == y);
        }
    }
}

#[test]
fn result_column_names_follow_the_select_and_aggregate_lists() {
    let q = query(
        vec![
            col("url"),
            func(FuncType::LT, col("a"), Expr::Const(RawVal::Int(1))),
            col("app"),
            Expr::Const(RawVal::Int(1)),
        ],
        Expr::Const(RawVal::Int(1)),
        vec![
            (Aggregator::Count, Expr::Const(RawVal::Int(1))),
            (Aggregator::Sum, col("events")),
            (Aggregator::Count, Expr::Const(RawVal::Int(1))),
        ],
    );
    assert_eq!(
        q.result_column_names(),
        vec!["url", "col_0", "app", "col_1", "count_0", "sum_1", "count_2"]
    );
    let q = query(vec![], Expr::Const(RawVal::Int(1)), vec![]);
    assert_eq!(q.result_column_names(), Vec::<String>::new());
}

#[test]
fn select_star_is_recognised() {
    let q = query(vec![col("*")], Expr::Const(RawVal::Int(1)), vec![]);
    assert!(q.is_select_star());
    let q = query(vec![col("a")], Expr::Const(RawVal::Int(1)), vec![]);
    assert!(!q.is_select_star());
    let q = query(vec![col("*"), col("*")], Expr::Const(RawVal::Int(1)), vec![]);
    assert!(!q.is_select_star());
    let q = query(
        vec![Expr::Const(RawVal::Str("*".to_string()))],
        Expr::Const(RawVal::Int(1)),
        vec![],
    );
    assert!(!q.is_select_star());
    let q = query(vec![], Expr::Const(RawVal::Int(1)), vec![]);
    assert!(!q.is_select_star());
}

#[test]
fn referenced_columns_are_listed_once() {
    let q = query(
        vec![col("a"), func(FuncType::LT, col("b"), col("a"))],
        func(
            FuncType::And,
            func(FuncType::Equals, col("c"), Expr::Const(RawVal::Int(1))),
            func(FuncType::LT, col("a"), Expr::Const(RawVal::Int(1))),
        ),
        vec![(Aggregator::Sum, col("d")), (Aggregator::Sum, col("b"))],
    );
    let mut cols = q.find_referenced_cols();
    assert_eq!(cols.len(), 4);
    cols.sort();
    assert_eq!(cols, vec!["a", "b", "c", "d"]);
    let q = query(vec![], Expr::Const(RawVal::Int(1)), vec![]);
    assert_eq!(q.find_referenced_cols(), Vec::<String>::new());
    let mut names = vec!["z".to_string()];
    col("z").add_colnames(&mut names);
    col("y").add_colnames(&mut names);
    assert_eq!(names, vec!["z", "y"]);
}

#[test]
fn rows_are_ranked_by_key_and_then_by_position() {
    let keys = TypedVec::Integer(Buf::Owned(vec![3, 1, 3, 2, 1]));
    assert_eq!(rank_rows(&keys, false), vec![1, 4, 3, 0, 2]);
    assert_eq!(rank_rows(&keys, true), vec![0, 2, 3, 1, 4]);
    let mut some = vec![4, 2, 0];
    keys.sort_indices_asc(&mut some);
    assert_eq!(some, vec![4, 0, 2]);
    keys.sort_indices_desc(&mut some);
    assert_eq!(some, vec![0, 2, 4]);
    let empty = TypedVec::Integer(Buf::Owned(vec![]));
    assert_eq!(rank_rows(&empty, false), Vec::<usize>::new());
    assert_eq!(all_rows(3), vec![0, 1, 2]);
    let nulls = TypedVec::Null(3);
    assert_eq!(rank_rows(&nulls, true), vec![0, 1, 2]);
    let a = "b".to_string();
    let b = "a".to_string();
    let c = "".to_string();
    let strs = TypedVec::String(vec![&a, &b, &c, &b]);
    assert_eq!(rank_rows(&strs, false), vec![2, 1, 3, 0]);
    assert!(strs.key_less(1, 0));
    assert!(!strs.key_less(1, 3));
    assert!(strs.row_precedes(false, 1, 3));
    assert!(!strs.row_precedes(false, 3, 1));
    assert!(strs.row_precedes(true, 0, 1));
    let many: Vec<i64> = (0..1000).map(|i| (i * 7919) % 1000).collect();
    let keys = TypedVec::Integer(Buf::Owned(many.clone()));
    let rank = rank_rows(&keys, false);
    let sorted: Vec<i64> = rank.iter().map(|i| many[*i]).collect();
    assert_eq!(sorted, (0..1000).collect::<Vec<i64>>());
}

#[test]
fn kernels_count_and_sum_by_group() {
    let groups: Vec<u8> = vec![0, 2, 2, 0, 2];
    let counts = count_kernel(&groups, 4);
    assert_eq!(counts, vec![2, 0, 3, 0]);
    assert_eq!(counts.iter().sum::<i128>(), groups.len() as i128);
    let sums = sum_kernel(&groups, &vec![10, 1, 2, -30, 4], 4);
    assert_eq!(sums, vec![-20, 0, 7, 0]);
    assert_eq!(count_kernel(&Vec::<u16>::new(), 2), vec![0, 0]);
    assert_eq!(count_kernel(&Vec::<u16>::new(), 0), Vec::<i128>::new());
    let wide = sum_kernel(&vec![0u16, 0], &vec![i64::MAX, i64::MAX], 1);
    assert_eq!(wide, vec![2 * (i64::MAX as i128)]);
    assert_eq!(finish(vec![1, -2]), Ok(vec![1, -2]));
    assert_eq!(
        finish(vec![i64::MAX as i128, i64::MIN as i128]),
        Ok(vec![i64::MAX, i64::MIN])
    );
    assert_eq!(finish(wide), Err(QueryError::FatalError));
    assert_eq!(finish(vec![0, i64::MIN as i128 - 1]), Err(QueryError::FatalError));
}

#[test]
fn queries_and_expressions_can_be_cloned() {
    let e = func(
        FuncType::And,
        func(FuncType::LT, col("a"), Expr::Const(RawVal::Int(3))),
        func(FuncType::Equals, col("b"), Expr::Const(RawVal::Str("x".to_string()))),
    );
    assert_eq!(format!("{:?}", e.clone()), format!("{:?}", e));
    let q = query(vec![col("a"), e], Expr::Const(RawVal::Int(1)), vec![(Aggregator::Sum, col("c"))]);
    let copy = q.clone();
    assert_eq!(copy.result_column_names(), q.result_column_names());
    assert_eq!(copy.find_referenced_cols(), vec!["a", "b", "c"]);
    assert_eq!(format!("{:?}", copy), format!("{:?}", q));
}
