use bit_vec::BitVec;
use ruba::column::{Codes, ColumnCodec, ColumnData, IntegerColumn, Scheme};
use ruba::int_like::EncodingType;
use ruba::raw_col::{Classification, RawCol};
use ruba::raw_val::{BasicType, RawVal};
use ruba::typed_vec::TypedVec;

fn as_ints(v: &TypedVec) -> Vec<i64> {
    match v {
        TypedVec::Integer(b) => b.as_vec().clone(),
        _ => panic!("not a vector of integers"),
    }
}

fn as_strings(v: &TypedVec) -> Vec<String> {
    match v {
        TypedVec::String(s) => s.iter().map(|x| x.to_string()).collect(),
        _ => panic!("not a vector of strings"),
    }
}

fn mask(bits: &[bool]) -> BitVec {
    let mut b = BitVec::new();
    for x in bits {
        b.push(*x);
    }
    b
}

fn codec_of(data: &ColumnData) -> &ColumnCodec {
    match data.to_codec() {
        Some(c) => c,
        None => panic!("the column has no codec"),
    }
}

fn strings(values: &[&str]) -> Vec<String> {
    values.iter().map(|s| s.to_string()).collect()
}

#[test]
fn integers_within_a_byte_are_stored_as_offsets_in_eight_bits() {
    let data = IntegerColumn::new(vec![1000, 1255, 1001], 1000, 1255);
    let codec = codec_of(&data);
    match &codec.codes {
        Codes::U8(codes) => assert_eq!(codes, &vec![0u8, 255, 1]),
        _ => panic!("not stored in eight bits"),
    }
    match &codec.scheme {
        Scheme::Offset { offset, span } => {
            assert_eq!(*offset, 1000);
            assert_eq!(*span, 255);
        }
        _ => panic!("not an offset encoding"),
    }
    assert_eq!(as_ints(&data.collect_decoded()), vec![1000, 1255, 1001]);
    assert_eq!(data.len(), 3);
}

#[test]
fn integers_one_past_a_byte_take_sixteen_bits() {
    let data = IntegerColumn::new(vec![-1, 255], -1, 255);
    let codec = codec_of(&data);
    match &codec.codes {
        Codes::U16(codes) => assert_eq!(codes, &vec![0u16, 256]),
        _ => panic!("not stored in sixteen bits"),
    }
    assert_eq!(as_ints(&data.collect_decoded()), vec![-1, 255]);
}

#[test]
fn integers_at_the_edges_of_sixteen_and_thirty_two_bits() {
    let data = IntegerColumn::new(vec![0, 65535], 0, 65535);
    assert_eq!(codec_of(&data).codes.encoding_type(), EncodingType::U16);
    let data = IntegerColumn::new(vec![0, 65536], 0, 65536);
    assert_eq!(codec_of(&data).codes.encoding_type(), EncodingType::U32);
    assert_eq!(as_ints(&data.collect_decoded()), vec![0, 65536]);
    let data = IntegerColumn::new(vec![5, 5 + 4294967295], 5, 5 + 4294967295);
    assert_eq!(codec_of(&data).codes.encoding_type(), EncodingType::U32);
    assert_eq!(as_ints(&data.collect_decoded()), vec![5, 5 + 4294967295]);
}

#[test]
fn integers_of_a_wider_range_stay_at_full_width() {
    let data = IntegerColumn::new(vec![0, 4294967296, 7], 0, 4294967296);
    assert!(data.to_codec().is_none());
    match &data {
        ColumnData::Integer(c) => assert_eq!(c.values, vec![0, 4294967296, 7]),
        _ => panic!("not stored at full width"),
    }
    assert_eq!(as_ints(&data.collect_decoded()), vec![0, 4294967296, 7]);
    let data = IntegerColumn::new(vec![i64::MIN, i64::MAX], i64::MIN, i64::MAX);
    assert!(data.to_codec().is_none());
    assert_eq!(as_ints(&data.collect_decoded()), vec![i64::MIN, i64::MAX]);
}

#[test]
fn offsets_near_the_top_of_the_range_decode_without_overflow() {
    let data = IntegerColumn::new(vec![i64::MAX - 3, i64::MAX], i64::MAX - 3, i64::MAX);
    assert_eq!(codec_of(&data).codes.encoding_type(), EncodingType::U8);
    assert_eq!(as_ints(&data.collect_decoded()), vec![i64::MAX - 3, i64::MAX]);
}

#[test]
fn encode_int_checks_the_range_of_the_width() {
    let data = IntegerColumn::new(vec![10, 12], 10, 12);
    let codec = codec_of(&data);
    assert_eq!(codec.encode_int(10), RawVal::Int(0));
    assert_eq!(codec.encode_int(12), RawVal::Int(2));
    assert_eq!(codec.encode_int(265), RawVal::Int(255));
    assert_eq!(codec.encode_int(266), RawVal::Int(-1));
    assert_eq!(codec.encode_int(9), RawVal::Int(-1));
    assert_eq!(codec.encode_int(i64::MIN), RawVal::Int(-1));
    assert_eq!(codec.encode_int(i64::MAX), RawVal::Int(-1));
    assert_eq!(codec.encode_str("10"), RawVal::Int(-1));
}

#[test]
fn dictionary_keeps_each_string_once_in_first_seen_order() {
    let codec = ColumnCodec::from_strings(&strings(&["b", "a", "b", "c", "a"]));
    match &codec.scheme {
        Scheme::Dictionary(d) => {
            assert_eq!(d.codebook, strings(&["b", "a", "c"]));
            assert_eq!(d.len(), 3);
        }
        _ => panic!("not a dictionary"),
    }
    match &codec.codes {
        Codes::U8(codes) => assert_eq!(codes, &vec![0u8, 1, 0, 2, 1]),
        _ => panic!("not stored in eight bits"),
    }
    assert_eq!(
        as_strings(&codec.decode(codec.get_encoded())),
        strings(&["b", "a", "b", "c", "a"])
    );
}

#[test]
fn dictionary_encodes_known_strings_and_rejects_others() {
    let input = ["b", "a", "b", "c", "a"];
    let codec = ColumnCodec::from_strings(&strings(&input));
    let book = strings(&["b", "a", "c"]);
    for s in input.iter() {
        match codec.encode_str(s) {
            RawVal::Int(code) => {
                assert!(code >= 0);
                assert_eq!(book[code as usize], *s);
            }
            _ => panic!("not a code"),
        }
    }
    assert_eq!(codec.encode_str("d"), RawVal::Int(-1));
    assert_eq!(codec.encode_str(""), RawVal::Int(-1));
    assert_eq!(codec.encode_int(0), RawVal::Int(-1));
}

#[test]
fn dictionary_of_more_than_a_byte_of_strings_takes_sixteen_bits() {
    let texts: Vec<String> = (0..256).map(|i| format!("s{}", i)).collect();
    let codec = ColumnCodec::from_strings(&texts);
    assert_eq!(codec.codes.encoding_type(), EncodingType::U8);
    let texts: Vec<String> = (0..257).map(|i| format!("s{}", i % 257)).collect();
    let codec = ColumnCodec::from_strings(&texts);
    assert_eq!(codec.codes.encoding_type(), EncodingType::U16);
    assert_eq!(as_strings(&codec.decode(codec.get_encoded())), texts);
    assert_eq!(codec.encode_str("s256"), RawVal::Int(256));
}

#[test]
fn filter_decode_keeps_the_rows_of_the_set_bits() {
    let data = IntegerColumn::new(vec![7, 8, 9, 10, 11], 7, 11);
    let bits = [true, false, false, true, true];
    let filter = mask(&bits);
    let out = as_ints(&data.filter_decode(&filter));
    assert_eq!(out.len(), bits.iter().filter(|b| **b).count());
    assert_eq!(out, vec![7, 10, 11]);
    let none = mask(&[false; 5]);
    assert_eq!(as_ints(&data.filter_decode(&none)), Vec::<i64>::new());
    let codec = ColumnCodec::from_strings(&strings(&["x", "y", "x"]));
    let data = ColumnData::Encoded(codec);
    assert_eq!(
        as_strings(&data.filter_decode(&mask(&[false, true, true]))),
        strings(&["y", "x"])
    );
}

#[test]
fn index_decode_picks_the_rows_in_the_order_of_the_list() {
    let data = IntegerColumn::new(vec![7, 8, 9, 10, 11], 7, 11);
    let indices = vec![4, 0, 0, 2];
    let all = as_ints(&data.collect_decoded());
    let out = as_ints(&data.index_decode(&indices));
    assert_eq!(out, vec![11, 7, 7, 9]);
    for (k, i) in indices.iter().enumerate() {
        assert_eq!(out[k], all[*i]);
    }
    assert_eq!(as_ints(&data.index_decode(&Vec::new())), Vec::<i64>::new());
}

#[test]
fn encoded_paths_hand_out_codes() {
    let data = IntegerColumn::new(vec![7, 8, 9], 7, 9);
    let codec = codec_of(&data);
    match codec.get_encoded() {
        TypedVec::EncodedU8(b, _) => assert_eq!(b.as_vec(), &vec![0u8, 1, 2]),
        _ => panic!("not codes of eight bits"),
    }
    match codec.filter_encoded(&mask(&[true, false, true])) {
        TypedVec::EncodedU8(b, _) => assert_eq!(b.as_vec(), &vec![0u8, 2]),
        _ => panic!("not codes of eight bits"),
    }
    match codec.index_encoded(&vec![2, 2, 1]) {
        TypedVec::EncodedU8(b, _) => assert_eq!(b.as_vec(), &vec![2u8, 2, 1]),
        _ => panic!("not codes of eight bits"),
    }
    assert_eq!(codec.scheme.cardinality(), 3);
}

#[test]
fn null_column_keeps_only_its_length() {
    let raw = RawCol::with_nulls(4);
    assert_eq!(raw.len(), 4);
    assert_eq!(raw.classification(), Classification::AllNull);
    let data = raw.finalize();
    assert!(matches!(data, ColumnData::Null(4)));
    assert_eq!(data.len(), 4);
    assert!(matches!(data.collect_decoded(), TypedVec::Null(4)));
    assert!(matches!(
        data.filter_decode(&mask(&[true, false, true, true])),
        TypedVec::Null(3)
    ));
    assert!(matches!(data.index_decode(&vec![0, 0]), TypedVec::Null(2)));
    assert_eq!(data.full_type().decoded, BasicType::Null);
    let empty = RawCol::new().finalize();
    assert!(matches!(empty, ColumnData::Null(0)));
}

#[test]
fn integer_column_stores_nulls_as_zero() {
    let mut raw = RawCol::new();
    raw.push(RawVal::Int(5));
    raw.push(RawVal::Null);
    raw.push_ints(&vec![9, 7]);
    raw.push_nulls(1);
    assert_eq!(raw.classification(), Classification::AllInt);
    let data = raw.finalize();
    assert_eq!(as_ints(&data.collect_decoded()), vec![5, 0, 9, 7, 0]);
    match &codec_of(&data).scheme {
        Scheme::Offset { offset, span } => {
            assert_eq!(*offset, 0);
            assert_eq!(*span, 9);
        }
        _ => panic!("not an offset encoding"),
    }
    assert_eq!(data.full_type().decoded, BasicType::Integer);
}

#[test]
fn string_column_stores_nulls_as_the_empty_string() {
    let mut raw = RawCol::new();
    raw.push_nulls(1);
    raw.push_strings(&strings(&["b", "a"]));
    raw.push(RawVal::Str("b".to_string()));
    assert_eq!(raw.classification(), Classification::AllStr);
    let data = raw.finalize();
    assert_eq!(
        as_strings(&data.collect_decoded()),
        strings(&["", "b", "a", "b"])
    );
    assert_eq!(data.full_type().decoded, BasicType::String);
}

#[test]
fn mixed_column_becomes_strings() {
    let mut raw = RawCol::new();
    raw.push(RawVal::Int(-12));
    raw.push(RawVal::Str("x".to_string()));
    raw.push(RawVal::Null);
    raw.push(RawVal::Int(0));
    raw.push(RawVal::Int(i64::MIN));
    assert_eq!(raw.classification(), Classification::Mixed);
    let data = raw.finalize();
    assert_eq!(
        as_strings(&data.collect_decoded()),
        strings(&["-12", "x", "", "0", "-9223372036854775808"])
    );
}

#[test]
fn raw_values_compare_by_value() {
    assert_eq!(RawVal::Null, RawVal::Null);
    assert_eq!(RawVal::Int(3), RawVal::Int(3));
    assert_ne!(RawVal::Int(3), RawVal::Int(4));
    assert_eq!(RawVal::Str("a".to_string()), RawVal::Str("a".to_string()));
    assert_ne!(RawVal::Str("a".to_string()), RawVal::Str("b".to_string()));
    assert_ne!(RawVal::Str("3".to_string()), RawVal::Int(3));
    assert_ne!(RawVal::Null, RawVal::Int(0));
    assert_eq!(RawVal::Str("a".to_string()).clone(), RawVal::Str("a".to_string()));
    assert_eq!(RawVal::Int(1).get_type(), BasicType::Integer);
    assert_eq!(RawVal::Null.get_type(), BasicType::Null);
    assert_eq!(RawVal::Str(String::new()).get_type(), BasicType::String);
}
