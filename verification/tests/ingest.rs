use ruba::buffer::{Buffer, InputColumn};
use ruba::raw_col::RawCol;
use ruba::raw_val::RawVal;
use ruba::typed_vec::TypedVec;

fn s(x: &str) -> String {
    x.to_string()
}

fn column<'a>(b: &'a Buffer, name: &str) -> &'a RawCol {
    for (n, c) in b.buffer.iter() {
        if n == name {
            return c;
        }
    }
    panic!("no column {}", name)
}

fn names(b: &Buffer) -> Vec<String> {
    b.buffer.iter().map(|(n, _)| n.clone()).collect()
}

#[test]
fn default_buffer_is_empty() {
    let b = Buffer::default();
    assert_eq!(b.len(), 0);
    assert_eq!(b.buffer.len(), 0);
}

#[test]
fn push_row_appends_one_value_per_column() {
    let mut b = Buffer::default();
    b.push_row(vec![(s("a"), RawVal::Int(1)), (s("b"), RawVal::Str(s("x")))]);
    b.push_row(vec![(s("a"), RawVal::Int(2)), (s("b"), RawVal::Str(s("y")))]);
    assert_eq!(b.len(), 2);
    assert_eq!(names(&b), vec!["a", "b"]);
    assert_eq!(column(&b, "a").values, vec![RawVal::Int(1), RawVal::Int(2)]);
    assert_eq!(
        column(&b, "b").values,
        vec![RawVal::Str(s("x")), RawVal::Str(s("y"))]
    );
}

#[test]
fn push_row_pads_absent_and_new_columns_with_nulls() {
    let mut b = Buffer::default();
    b.push_row(vec![(s("a"), RawVal::Int(1))]);
    b.push_row(vec![(s("b"), RawVal::Int(2))]);
    b.push_row(vec![]);
    assert_eq!(b.len(), 3);
    assert_eq!(
        column(&b, "a").values,
        vec![RawVal::Int(1), RawVal::Null, RawVal::Null]
    );
    assert_eq!(
        column(&b, "b").values,
        vec![RawVal::Null, RawVal::Int(2), RawVal::Null]
    );
}

#[test]
fn push_row_without_columns_still_counts_the_row() {
    let mut b = Buffer::default();
    b.push_row(vec![]);
    assert_eq!(b.len(), 1);
    b.push_row(vec![(s("a"), RawVal::Int(1))]);
    assert_eq!(b.len(), 2);
    assert_eq!(column(&b, "a").values, vec![RawVal::Null, RawVal::Int(1)]);
}

#[test]
fn push_row_with_a_repeated_name_keeps_the_columns_aligned() {
    let mut b = Buffer::default();
    b.push_row(vec![
        (s("a"), RawVal::Int(1)),
        (s("b"), RawVal::Int(9)),
        (s("a"), RawVal::Int(2)),
    ]);
    assert_eq!(b.len(), 2);
    assert_eq!(column(&b, "a").values, vec![RawVal::Int(1), RawVal::Int(2)]);
    assert_eq!(column(&b, "b").values, vec![RawVal::Int(9), RawVal::Null]);
}

#[test]
fn push_typed_cols_appends_and_pads_to_the_longest() {
    let mut b = Buffer::default();
    b.push_typed_cols(vec![
        (s("i"), InputColumn::Int(vec![1, 2, 3])),
        (s("t"), InputColumn::Str(vec![s("x")])),
        (s("n"), InputColumn::Null(2)),
    ]);
    assert_eq!(b.len(), 3);
    assert_eq!(
        column(&b, "i").values,
        vec![RawVal::Int(1), RawVal::Int(2), RawVal::Int(3)]
    );
    assert_eq!(
        column(&b, "t").values,
        vec![RawVal::Str(s("x")), RawVal::Null, RawVal::Null]
    );
    assert_eq!(
        column(&b, "n").values,
        vec![RawVal::Null, RawVal::Null, RawVal::Null]
    );
    b.push_typed_cols(vec![(s("new"), InputColumn::Int(vec![7]))]);
    assert_eq!(b.len(), 4);
    assert_eq!(
        column(&b, "new").values,
        vec![RawVal::Null, RawVal::Null, RawVal::Null, RawVal::Int(7)]
    );
    assert_eq!(column(&b, "i").values.len(), 4);
    assert_eq!(column(&b, "i").values[3], RawVal::Null);
    b.push_typed_cols(vec![]);
    assert_eq!(b.len(), 4);
}

#[test]
fn push_untyped_cols_appends_and_pads_to_the_longest() {
    let mut b = Buffer::default();
    b.push_untyped_cols(vec![
        (s("a"), vec![RawVal::Int(1), RawVal::Str(s("x"))]),
        (s("b"), vec![RawVal::Null]),
    ]);
    assert_eq!(b.len(), 2);
    assert_eq!(
        column(&b, "a").values,
        vec![RawVal::Int(1), RawVal::Str(s("x"))]
    );
    assert_eq!(column(&b, "b").values, vec![RawVal::Null, RawVal::Null]);
    b.push_untyped_cols(vec![(s("b"), vec![RawVal::Int(5)]), (s("b"), vec![RawVal::Int(6)])]);
    assert_eq!(b.len(), 4);
    assert_eq!(
        column(&b, "b").values,
        vec![RawVal::Null, RawVal::Null, RawVal::Int(5), RawVal::Int(6)]
    );
    assert_eq!(column(&b, "a").values.len(), 4);
}

#[test]
fn into_batch_freezes_every_column() {
    let mut b = Buffer::default();
    b.push_typed_cols(vec![
        (s("i"), InputColumn::Int(vec![5, 6])),
        (s("t"), InputColumn::Str(vec![s("x"), s("y")])),
    ]);
    b.push_row(vec![(s("i"), RawVal::Int(7))]);
    let batch = b.into_batch();
    assert_eq!(batch.len(), 3);
    assert_eq!(batch.cols.len(), 2);
    assert_eq!(batch.cols[0].name(), "i");
    assert_eq!(batch.cols[1].name(), "t");
    assert_eq!(batch.cols[0].len(), 3);
    match batch.cols[0].data().collect_decoded() {
        TypedVec::Integer(v) => assert_eq!(v.as_vec(), &vec![5, 6, 7]),
        _ => panic!("not integers"),
    }
    match batch.cols[1].data().collect_decoded() {
        TypedVec::String(v) => {
            let got: Vec<&str> = v.iter().map(|x| x.as_str()).collect();
            assert_eq!(got, vec!["x", "y", ""]);
        }
        _ => panic!("not strings"),
    }
    assert!(batch.get("t").is_some());
    assert!(batch.get("missing").is_none());
    assert_eq!(batch.get("i").map(|c| c.len()), Some(3));
    let empty = Buffer::default().into_batch();
    assert_eq!(empty.len(), 0);
}

#[test]
fn frozen_columns_note_how_many_rows_were_null() {
    let mut b = Buffer::default();
    b.push_row(vec![(s("i"), RawVal::Int(4)), (s("t"), RawVal::Str(s("x")))]);
    b.push_row(vec![(s("t"), RawVal::Null)]);
    b.push_row(vec![(s("n"), RawVal::Null)]);
    let batch = b.into_batch();
    assert_eq!(batch.cols[0].name(), "i");
    assert_eq!(batch.cols[0].null_count(), 2);
    assert_eq!(batch.cols[1].null_count(), 2);
    assert_eq!(batch.cols[2].null_count(), 3);
    match batch.cols[0].data().collect_decoded() {
        TypedVec::Integer(v) => assert_eq!(v.as_vec(), &vec![4, 0, 0]),
        _ => panic!("not integers"),
    }
    let mut raw = RawCol::new();
    assert_eq!(raw.null_count(), 0);
    raw.push_nulls(2);
    raw.push(RawVal::Int(1));
    assert_eq!(raw.null_count(), 2);
}
