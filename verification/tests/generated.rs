use ruba::batch::Batch;
use ruba::buffer::{Buffer, InputColumn};
use ruba::expression::{Expr, FuncType};
use ruba::query::{LimitClause, Query};
use ruba::raw_val::RawVal;
use ruba::typed_vec::TypedVec;
use ruba::types::Aggregator;

struct Rng(u64);

impl Rng {
    fn next(&mut self) -> u64 {
        self.0 = self
            .0
            .wrapping_mul(6364136223846793005)
            .wrapping_add(1442695040888963407);
        self.0 >> 33
    }

    fn below(&mut self, n: u64) -> i64 {
        (self.next() % n) as i64
    }
}

struct Data {
    small: Vec<i64>,
    mid: Vec<i64>,
    wide: Vec<i64>,
    word: Vec<String>,
}

fn data(rows: usize, seed: u64) -> Data {
    let mut rng = Rng(seed);
    let words = ["ash", "birch", "cedar", "", "elm", "fir", "Zebra", "oak"];
    Data {
        small: (0..rows).map(|_| rng.below(7) - 3).collect(),
        mid: (0..rows).map(|_| rng.below(1000) + 100).collect(),
        wide: (0..rows).map(|_| rng.below(10) * 1_000_000_000_000 - 5).collect(),
        word: (0..rows).map(|_| words[rng.below(8) as usize].to_string()).collect(),
    }
}

fn batch(d: &Data) -> Batch {
    let mut buffer = Buffer::default();
    buffer.push_typed_cols(vec![
        ("small".to_string(), InputColumn::Int(d.small.clone())),
        ("mid".to_string(), InputColumn::Int(d.mid.clone())),
        ("wide".to_string(), InputColumn::Int(d.wide.clone())),
        ("word".to_string(), InputColumn::Str(d.word.clone())),
    ]);
    buffer.into_batch()
}

fn col(name: &str) -> Expr {
    Expr::ColName(name.to_string())
}

fn num(i: i64) -> Expr {
    Expr::Const(RawVal::Int(i))
}

fn func(f: FuncType, lhs: Expr, rhs: Expr) -> Expr {
    Expr::Func(f, Box::new(lhs), Box::new(rhs))
}

fn query(select: Vec<Expr>, filter: Expr) -> Query {
    Query {
        select,
        table: "t".to_string(),
        filter,
        aggregate: Vec::new(),
        order_by: None,
        order_desc: false,
        limit: LimitClause { limit: 1000, offset: 0 },
        order_by_index: None,
    }
}

fn as_ints(v: &TypedVec) -> Vec<i64> {
    match v {
        TypedVec::Integer(b) => b.as_vec().clone(),
        _ => panic!("not a vector of integers"),
    }
}

fn as_strings(v: &TypedVec) -> Vec<String> {
    match v {
        TypedVec::String(s) => s.iter().map(|x| x.to_string()).collect(),
        _ => panic!("not a vector of strings"),
    }
}

#[test]
fn filters_agree_with_row_by_row_evaluation() {
    for seed in 1..6 {
        let d = data(300, seed);
        let b = batch(&d);
        for c in [-4i64, -3, 0, 3, 4, 250] {
            let q = query(
                vec![col("small"), col("word")],
                func(FuncType::LT, col("small"), num(c)),
            );
            let r = q.run(&b).ok().expect("result");
            let keep: Vec<usize> = (0..300)
                .filter(|i| d.small[*i] < c && c >= -3 && c - (-3) <= 255)
                .collect();
            assert_eq!(
                as_ints(&r.select[0]),
                keep.iter().map(|i| d.small[*i]).collect::<Vec<i64>>()
            );
            assert_eq!(
                as_strings(&r.select[1]),
                keep.iter().map(|i| d.word[*i].clone()).collect::<Vec<String>>()
            );
            let q = query(vec![col("mid")], func(FuncType::Equals, col("small"), num(c)));
            let r = q.run(&b).ok().expect("result");
            let keep: Vec<i64> = (0..300)
                .filter(|i| d.small[*i] == c)
                .map(|i| d.mid[i])
                .collect();
            assert_eq!(as_ints(&r.select[0]), keep);
        }
        for c in [-6i64, -5, 999_999_999_995, 3_000_000_000_000] {
            let q = query(vec![col("wide")], func(FuncType::LT, col("wide"), num(c)));
            let r = q.run(&b).ok().expect("result");
            let keep: Vec<i64> = d.wide.iter().cloned().filter(|v| *v < c).collect();
            assert_eq!(as_ints(&r.select[0]), keep);
        }
        for w in ["", "elm", "Zebra", "none"] {
            let q = query(
                vec![col("mid")],
                func(
                    FuncType::Or,
                    func(
                        FuncType::Equals,
                        col("word"),
                        Expr::Const(RawVal::Str(w.to_string())),
                    ),
                    func(
                        FuncType::And,
                        func(FuncType::LT, col("mid"), num(500)),
                        func(FuncType::Equals, col("small"), num(1)),
                    ),
                ),
            );
            let r = q.run(&b).ok().expect("result");
            let keep: Vec<i64> = (0..300)
                .filter(|i| d.word[*i] == w || (d.mid[*i] < 500 && d.small[*i] == 1))
                .map(|i| d.mid[i])
                .collect();
            assert_eq!(as_ints(&r.select[0]), keep);
        }
    }
}

#[test]
fn ordering_agrees_with_a_stable_sort() {
    for seed in 10..14 {
        let d = data(200, seed);
        let b = batch(&d);
        for (column, desc) in [("small", false), ("small", true), ("word", false), ("word", true)] {
            let mut q = query(
                vec![col(column), col("mid")],
                func(FuncType::LT, col("mid"), num(900)),
            );
            q.order_by = Some(column.to_string());
            q.order_by_index = Some(0);
            q.order_desc = desc;
            q.limit = LimitClause { limit: 50, offset: 7 };
            let r = q.run(&b).ok().expect("result");
            let mut rows: Vec<usize> = (0..200).filter(|i| d.mid[*i] < 900).collect();
            if column == "small" {
                rows.sort_by(|x, y| {
                    let o = d.small[*x].cmp(&d.small[*y]);
                    if desc { o.reverse() } else { o }
                });
            } else {
                rows.sort_by(|x, y| {
                    let o = d.word[*x].cmp(&d.word[*y]);
                    if desc { o.reverse() } else { o }
                });
            }
            rows.truncate(57);
            assert_eq!(
                as_ints(&r.select[1]),
                rows.iter().map(|i| d.mid[*i]).collect::<Vec<i64>>()
            );
        }
    }
}

#[test]
fn aggregates_agree_with_row_by_row_accumulation() {
    for seed in 20..24 {
        let d = data(500, seed);
        let b = batch(&d);
        let mut q = query(vec![col("small")], func(FuncType::LT, col("mid"), num(700)));
        q.aggregate = vec![
            (Aggregator::Count, num(1)),
            (Aggregator::Sum, col("mid")),
            (Aggregator::Sum, col("wide")),
        ];
        let r = q.run_aggregate(&b).ok().expect("result");
        let lo = *d.small.iter().min().expect("rows");
        let hi = *d.small.iter().max().expect("rows");
        let keys: Vec<i64> = (lo..=hi).collect();
        let passing: Vec<usize> = (0..500).filter(|i| d.mid[*i] < 700).collect();
        let count = |k: i64| passing.iter().filter(|i| d.small[**i] == k).count() as i64;
        let sum = |k: i64, v: &Vec<i64>| -> i64 {
            passing.iter().filter(|i| d.small[**i] == k).map(|i| v[*i]).sum()
        };
        assert_eq!(as_ints(&r.group_by.as_ref().expect("keys")[0]), keys);
        let counts = as_ints(&r.select[0]);
        assert_eq!(counts, keys.iter().map(|k| count(*k)).collect::<Vec<i64>>());
        assert_eq!(counts.iter().sum::<i64>(), passing.len() as i64);
        assert_eq!(
            as_ints(&r.select[1]),
            keys.iter().map(|k| sum(*k, &d.mid)).collect::<Vec<i64>>()
        );
        assert_eq!(
            as_ints(&r.select[2]),
            keys.iter().map(|k| sum(*k, &d.wide)).collect::<Vec<i64>>()
        );

        let mut q = query(vec![col("word")], num(1));
        q.aggregate = vec![(Aggregator::Count, num(1))];
        let r = q.run_aggregate(&b).ok().expect("result");
        let mut words: Vec<String> = d.word.clone();
        words.sort();
        words.dedup();
        assert_eq!(as_strings(&r.group_by.as_ref().expect("keys")[0]), words);
        assert_eq!(
            as_ints(&r.select[0]),
            words
                .iter()
                .map(|w| d.word.iter().filter(|x| *x == w).count() as i64)
                .collect::<Vec<i64>>()
        );
    }
}
