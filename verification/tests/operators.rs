use bit_vec::BitVec;
use ruba::bits::positions_of;
use ruba::column::{ColumnCodec, ColumnData, IntegerColumn};
use ruba::int_like::Buf;
use ruba::query_plan::{equals_vs, less_than_vs, prepare, QueryPlan};
use ruba::raw_val::RawVal;
use ruba::int_like::EncodingType;
use ruba::typed_vec::{equals_scalar, equals_string, less_than_scalar, TypedVec};
use ruba::vector_operator::{
    Boolean, BoxedOperator, Constant, Decode, EncodeIntConstant, EncodeStrConstant, EqualsVSI64,
    EqualsVSString, EqualsVSU16, EqualsVSU32, EqualsVSU8, FilterDecode, FilterEncoded, GetDecode,
    GetEncoded, IndexDecode, IndexEncoded, LessThanVSi64, LessThanVSu16, LessThanVSu32,
    LessThanVSu8, Operator, VecOperator,
};
use std::rc::Rc;

fn mask(bits: &[bool]) -> BitVec {
    let mut b = BitVec::new();
    for x in bits {
        b.push(*x);
    }
    b
}

fn bools(b: &BitVec) -> Vec<bool> {
    b.iter().collect()
}

fn as_bools(v: &TypedVec) -> Vec<bool> {
    match v {
        TypedVec::Boolean(b) => bools(b),
        _ => panic!("not a bit-vector"),
    }
}

fn as_ints(v: &TypedVec) -> Vec<i64> {
    match v {
        TypedVec::Integer(b) => b.as_vec().clone(),
        _ => panic!("not a vector of integers"),
    }
}

fn as_strings(v: &TypedVec) -> Vec<String> {
    match v {
        TypedVec::String(s) => s.iter().map(|x| x.to_string()).collect(),
        _ => panic!("not a vector of strings"),
    }
}

fn codec_of(data: &ColumnData) -> &ColumnCodec {
    match data.to_codec() {
        Some(c) => c,
        None => panic!("the column has no codec"),
    }
}

fn strings(values: &[&str]) -> Vec<String> {
    values.iter().map(|s| s.to_string()).collect()
}

fn constant<'a>(v: RawVal) -> BoxedOperator<'a> {
    Box::new(Operator::Constant(Constant::new(v)))
}

fn bits_of<'a>(bits: &[bool]) -> BoxedOperator<'a> {
    // A comparison of a full-width column with 1 reproduces the given bits.
    let values: Vec<i64> = bits.iter().map(|b| if *b { 0 } else { 1 }).collect();
    let data: &'static ColumnData = Box::leak(Box::new(ColumnData::Integer(IntegerColumn {
        values,
    })));
    Box::new(Operator::LessThanVSi64(LessThanVSi64::new(
        Box::new(Operator::GetDecode(GetDecode::new(data))),
        1,
    )))
}

#[test]
fn kernels_compare_each_element_with_the_scalar() {
    assert_eq!(
        bools(&less_than_scalar(&vec![3i64, -1, 2, 5], 3)),
        vec![false, true, true, false]
    );
    assert_eq!(
        bools(&less_than_scalar(&vec![0u8, 255, 7], 8)),
        vec![true, false, true]
    );
    assert_eq!(bools(&less_than_scalar(&vec![0u8, 255], -1)), vec![false, false]);
    assert_eq!(bools(&less_than_scalar(&vec![0u8, 255], 256)), vec![true, true]);
    assert_eq!(
        bools(&equals_scalar(&vec![1u16, 65535, 1], 1)),
        vec![true, false, true]
    );
    assert_eq!(bools(&equals_scalar(&vec![65535u16], -1)), vec![false]);
    assert_eq!(bools(&equals_scalar(&vec![65535u16], 65535)), vec![true]);
    assert_eq!(bools(&less_than_scalar(&Vec::<u32>::new(), 1)), Vec::<bool>::new());
    let a = "a".to_string();
    let b = "b".to_string();
    assert_eq!(
        bools(&equals_string(&vec![&a, &b, &a], &a)),
        vec![true, false, true]
    );
}

#[test]
fn positions_of_lists_the_set_bits_in_ascending_order() {
    assert_eq!(
        positions_of(&mask(&[false, true, true, false, true])),
        vec![1, 2, 4]
    );
    assert_eq!(positions_of(&mask(&[])), Vec::<usize>::new());
    assert_eq!(positions_of(&mask(&[false, false])), Vec::<usize>::new());
    let long: Vec<bool> = (0..100).map(|i| i % 33 == 0).collect();
    assert_eq!(positions_of(&mask(&long)), vec![0, 33, 66, 99]);
}

#[test]
fn decode_operators_read_the_column() {
    let data = IntegerColumn::new(vec![7, 8, 9, 10], 7, 10);
    let mut get = GetDecode::new(&data);
    assert_eq!(as_ints(&get.execute()), vec![7, 8, 9, 10]);
    get = GetDecode::new(&data);
    assert_eq!(as_ints(&get.execute()), vec![7, 8, 9, 10]);
    let filter = FilterDecode::new(&data, Rc::new(mask(&[false, true, false, true])));
    assert_eq!(as_ints(&filter.execute()), vec![8, 10]);
    let index = IndexDecode::new(&data, Rc::new(vec![3, 0]));
    assert_eq!(as_ints(&index.execute()), vec![10, 7]);
}

#[test]
fn encoded_operators_hand_out_codes_and_decode_restores_them() {
    let data = IntegerColumn::new(vec![7, 8, 9, 10], 7, 10);
    let codec = codec_of(&data);
    match GetEncoded::new(codec).execute() {
        TypedVec::EncodedU8(b, _) => assert_eq!(b.as_vec(), &vec![0u8, 1, 2, 3]),
        _ => panic!("not codes of eight bits"),
    }
    let filtered = FilterEncoded::new(codec, Rc::new(mask(&[true, true, false, false])));
    match filtered.execute() {
        TypedVec::EncodedU8(b, _) => assert_eq!(b.as_vec(), &vec![0u8, 1]),
        _ => panic!("not codes of eight bits"),
    }
    let indexed = IndexEncoded::new(codec, Rc::new(vec![2, 1, 2]));
    match indexed.execute() {
        TypedVec::EncodedU8(b, _) => assert_eq!(b.as_vec(), &vec![2u8, 1, 2]),
        _ => panic!("not codes of eight bits"),
    }
    let decode = Decode::new(Box::new(Operator::IndexEncoded(IndexEncoded::new(
        codec,
        Rc::new(vec![2, 1, 2]),
    ))));
    assert_eq!(as_ints(&decode.execute()), vec![9, 8, 9]);
    let strs = ColumnCodec::from_strings(&strings(&["x", "y", "x"]));
    let decode = Decode::new(Box::new(Operator::GetEncoded(GetEncoded::new(&strs))));
    assert_eq!(as_strings(&decode.execute()), strings(&["x", "y", "x"]));
}

#[test]
fn constant_operator_hands_out_its_scalar() {
    let c = Constant::new(RawVal::Str("k".to_string()));
    match VecOperator::execute(&c) {
        TypedVec::Constant(v) => assert_eq!(v, RawVal::Str("k".to_string())),
        _ => panic!("not a scalar"),
    }
}

#[test]
fn less_than_operators_by_width() {
    let wide = ColumnData::Integer(IntegerColumn { values: vec![5, -5, 6] });
    let op = LessThanVSi64::new(Box::new(Operator::GetDecode(GetDecode::new(&wide))), 6);
    assert_eq!(as_bools(&op.execute()), vec![true, true, false]);

    let narrow = IntegerColumn::new(vec![10, 11, 12], 10, 12);
    let codes = || Box::new(Operator::GetEncoded(GetEncoded::new(codec_of(&narrow))));
    let op = LessThanVSu8::new(codes(), 2);
    assert_eq!(as_bools(&op.execute()), vec![true, true, false]);
    let op = LessThanVSu8::new(codes(), 0);
    assert_eq!(as_bools(&op.execute()), vec![false, false, false]);

    let mid = IntegerColumn::new(vec![0, 300, 299], 0, 300);
    let op = LessThanVSu16::new(
        Box::new(Operator::GetEncoded(GetEncoded::new(codec_of(&mid)))),
        300,
    );
    assert_eq!(as_bools(&op.execute()), vec![true, false, true]);

    let big = IntegerColumn::new(vec![0, 70000, 69999], 0, 70000);
    let op = LessThanVSu32::new(
        Box::new(Operator::GetEncoded(GetEncoded::new(codec_of(&big)))),
        70000,
    );
    assert_eq!(as_bools(&op.execute()), vec![true, false, true]);
}

#[test]
fn equals_operators_by_width() {
    let wide = ColumnData::Integer(IntegerColumn { values: vec![5, -5, 5] });
    let op = EqualsVSI64::new(
        Box::new(Operator::GetDecode(GetDecode::new(&wide))),
        constant(RawVal::Int(5)),
    );
    assert_eq!(as_bools(&op.execute()), vec![true, false, true]);

    let narrow = IntegerColumn::new(vec![10, 11, 10], 10, 11);
    let op = EqualsVSU8::new(
        Box::new(Operator::GetEncoded(GetEncoded::new(codec_of(&narrow)))),
        constant(RawVal::Int(0)),
    );
    assert_eq!(as_bools(&op.execute()), vec![true, false, true]);
    let op = EqualsVSU8::new(
        Box::new(Operator::GetEncoded(GetEncoded::new(codec_of(&narrow)))),
        constant(RawVal::Int(-1)),
    );
    assert_eq!(as_bools(&op.execute()), vec![false, false, false]);

    let mid = IntegerColumn::new(vec![0, 65535, 1], 0, 65535);
    let op = EqualsVSU16::new(
        Box::new(Operator::GetEncoded(GetEncoded::new(codec_of(&mid)))),
        constant(RawVal::Int(65535)),
    );
    assert_eq!(as_bools(&op.execute()), vec![false, true, false]);
    let op = EqualsVSU16::new(
        Box::new(Operator::GetEncoded(GetEncoded::new(codec_of(&mid)))),
        constant(RawVal::Int(-1)),
    );
    assert_eq!(as_bools(&op.execute()), vec![false, false, false]);

    let big = IntegerColumn::new(vec![0, 70000], 0, 70000);
    let op = EqualsVSU32::new(
        Box::new(Operator::GetEncoded(GetEncoded::new(codec_of(&big)))),
        constant(RawVal::Int(70000)),
    );
    assert_eq!(as_bools(&op.execute()), vec![false, true]);

    let strs = ColumnCodec::from_strings(&strings(&["x", "y", "x"]));
    let op = EqualsVSString::new(
        Box::new(Operator::Decode(Decode::new(Box::new(Operator::GetEncoded(
            GetEncoded::new(&strs),
        ))))),
        constant(RawVal::Str("x".to_string())),
    );
    assert_eq!(as_bools(&op.execute()), vec![true, false, true]);
}

#[test]
fn encode_constant_operators_use_the_codec() {
    let strs = ColumnCodec::from_strings(&strings(&["x", "y", "x"]));
    let op = EncodeStrConstant::new(constant(RawVal::Str("y".to_string())), &strs);
    assert!(matches!(op.execute(), TypedVec::Constant(RawVal::Int(1))));
    let op = EncodeStrConstant::new(constant(RawVal::Str("z".to_string())), &strs);
    assert!(matches!(op.execute(), TypedVec::Constant(RawVal::Int(-1))));
    let data = IntegerColumn::new(vec![10, 12], 10, 12);
    let op = EncodeIntConstant::new(constant(RawVal::Int(11)), codec_of(&data));
    assert!(matches!(op.execute(), TypedVec::Constant(RawVal::Int(1))));
    let op = EncodeIntConstant::new(constant(RawVal::Int(9)), codec_of(&data));
    assert!(matches!(op.execute(), TypedVec::Constant(RawVal::Int(-1))));
}

#[test]
fn boolean_operators_combine_bit_by_bit() {
    let a = [true, true, false, false];
    let b = [true, false, true, false];
    assert_eq!(
        as_bools(&Boolean::or(bits_of(&a), bits_of(&b)).execute()),
        vec![true, true, true, false]
    );
    assert_eq!(
        as_bools(&Boolean::and(bits_of(&a), bits_of(&b)).execute()),
        vec![true, false, false, false]
    );
    assert_eq!(
        as_bools(&Boolean::and(bits_of(&[]), bits_of(&[])).execute()),
        Vec::<bool>::new()
    );
}

#[test]
fn boolean_operators_are_commutative_and_associative() {
    let a: Vec<bool> = (0..70).map(|i| i % 2 == 0).collect();
    let b: Vec<bool> = (0..70).map(|i| i % 3 == 0).collect();
    let c: Vec<bool> = (0..70).map(|i| i % 5 == 0).collect();
    let or = |x: &[bool], y: &[bool]| as_bools(&Boolean::or(bits_of(x), bits_of(y)).execute());
    let and = |x: &[bool], y: &[bool]| as_bools(&Boolean::and(bits_of(x), bits_of(y)).execute());
    assert_eq!(or(&a, &b), or(&b, &a));
    assert_eq!(and(&a, &b), and(&b, &a));
    assert_eq!(or(&or(&a, &b), &c), or(&a, &or(&b, &c)));
    assert_eq!(and(&and(&a, &b), &c), and(&a, &and(&b, &c)));
    let expected: Vec<bool> = (0..70).map(|i| i % 2 == 0 || i % 3 == 0).collect();
    assert_eq!(or(&a, &b), expected);
    let expected: Vec<bool> = (0..70).map(|i| i % 6 == 0).collect();
    assert_eq!(and(&a, &b), expected);
}

#[test]
fn prepare_lowers_each_node_to_its_operator() {
    let data = IntegerColumn::new(vec![10, 11, 12], 10, 12);
    let codec = codec_of(&data);
    let plan = QueryPlan::And(
        Box::new(QueryPlan::LessThanVS(
            EncodingType::U8,
            Box::new(QueryPlan::GetEncoded(codec)),
            Box::new(QueryPlan::EncodeIntConstant(
                Box::new(QueryPlan::Constant(RawVal::Int(12))),
                codec,
            )),
        )),
        Box::new(QueryPlan::EqualsVS(
            EncodingType::I64,
            Box::new(QueryPlan::Decode(Box::new(QueryPlan::GetEncoded(codec)))),
            Box::new(QueryPlan::Constant(RawVal::Int(11))),
        )),
    );
    let op = prepare(plan);
    assert!(matches!(*op, Operator::Boolean(_)));
    assert_eq!(as_bools(&op.execute()), vec![false, true, false]);
}

#[test]
fn less_than_of_a_negative_scalar_is_false_for_every_code() {
    let data = IntegerColumn::new(vec![10, 11, 12], 10, 12);
    let codes = || Box::new(Operator::GetEncoded(GetEncoded::new(codec_of(&data))));
    let op = less_than_vs(EncodingType::U8, codes(), constant(RawVal::Int(-1)));
    assert!(matches!(*op, Operator::LessThanVSu8(_)));
    assert_eq!(as_bools(&op.execute()), vec![false, false, false]);
    let op = less_than_vs(EncodingType::U8, codes(), constant(RawVal::Int(255)));
    assert_eq!(as_bools(&op.execute()), vec![true, true, true]);
    let op = equals_vs(EncodingType::U8, codes(), constant(RawVal::Int(2)));
    assert!(matches!(*op, Operator::EqualsVSU8(_)));
    assert_eq!(as_bools(&op.execute()), vec![false, false, true]);
}

#[test]
fn typed_vectors_pick_and_decode() {
    let v = TypedVec::Integer(Buf::Owned(vec![4, 5, 6]));
    assert_eq!(v.len(), 3);
    assert_eq!(v.get_type(), EncodingType::I64);
    assert_eq!(as_ints(&v.index(&vec![2, 0])), vec![6, 4]);
    assert_eq!(as_ints(&v.filter(&mask(&[false, true, true]))), vec![5, 6]);
    let b = TypedVec::Boolean(mask(&[true, false, true]));
    assert_eq!(as_bools(&b.index(&vec![1, 0, 0])), vec![false, true, true]);
    assert_eq!(as_bools(&b.filter(&mask(&[true, true, false]))), vec![true, false]);
    let c = TypedVec::Constant(RawVal::Int(3));
    assert_eq!(c.len(), 1);
    assert!(matches!(c.index(&vec![5, 6]), TypedVec::Constant(RawVal::Int(3))));
    assert!(matches!(c.decode(), TypedVec::Constant(RawVal::Int(3))));
    let n = TypedVec::Null(3);
    assert!(matches!(n.filter(&mask(&[true, false, true])), TypedVec::Null(2)));
}

#[test]
fn order_preserving_decodes_dictionary_codes_only() {
    let strs = ColumnCodec::from_strings(&strings(&["pear", "apple"]));
    match strs.get_encoded().order_preserving() {
        TypedVec::String(v) => {
            let got: Vec<&str> = v.iter().map(|x| x.as_str()).collect();
            assert_eq!(got, vec!["pear", "apple"]);
        }
        _ => panic!("not decoded"),
    }
    let data = IntegerColumn::new(vec![7, 5], 5, 7);
    match codec_of(&data).get_encoded().order_preserving() {
        TypedVec::EncodedU8(b, _) => assert_eq!(b.as_vec(), &vec![2u8, 0]),
        _ => panic!("not codes"),
    }
    let plain = TypedVec::Integer(Buf::Owned(vec![3, 1]));
    assert_eq!(as_ints(&plain.order_preserving()), vec![3, 1]);
}
