use ruba::batch::Batch;
use ruba::buffer::{Buffer, InputColumn};
use ruba::inner_ruba::{InnerRuba, Task};
use ruba::raw_val::RawVal;
use ruba::table::Table;
use ruba::typed_vec::TypedVec;

fn s(x: &str) -> String {
    x.to_string()
}

fn table<'a>(db: &'a InnerRuba, name: &str) -> &'a Table {
    for t in db.tables.iter() {
        if t.name() == name {
            return t;
        }
    }
    panic!("no table {}", name)
}

fn buffered(t: &Table, column: &str) -> Vec<RawVal> {
    for (n, c) in t.buffer.buffer.iter() {
        if n == column {
            return c.values.iter().map(|v| v.clone()).collect();
        }
    }
    panic!("no column {}", column)
}

fn task(id: u64, completed: bool, multithreaded: bool) -> Task {
    Task { id, completed, multithreaded }
}

fn small_batch(values: &[i64]) -> Batch {
    let mut b = Buffer::default();
    b.push_typed_cols(vec![(s("v"), InputColumn::Int(values.to_vec()))]);
    b.into_batch()
}

#[test]
fn new_database_has_no_task() {
    let mut db = InnerRuba::new(Vec::new());
    assert_eq!(db.tables.len(), 0);
    assert!(!db.task_available);
    assert_eq!(db.await_task(), None);
    assert!(!db.task_available);
    assert_eq!(db.stats().tables.len(), 0);
}

#[test]
fn ingest_creates_the_table_and_records_the_creation() {
    let mut db = InnerRuba::new(Vec::new());
    db.ingest_at("events", vec![(s("n"), RawVal::Int(1))], 1234);
    let names: Vec<&str> = db.tables.iter().map(|t| t.name()).collect();
    assert_eq!(names, vec!["events", "_meta_tables"]);
    assert_eq!(buffered(table(&db, "events"), "n"), vec![RawVal::Int(1)]);
    let meta = table(&db, "_meta_tables");
    assert_eq!(
        buffered(meta, "timestamp"),
        vec![RawVal::Int(1234), RawVal::Int(1234)]
    );
    assert_eq!(
        buffered(meta, "name"),
        vec![RawVal::Str(s("_meta_tables")), RawVal::Str(s("events"))]
    );
    db.ingest_at("events", vec![(s("n"), RawVal::Int(2))], 99);
    db.ingest_at("other", vec![], 5000);
    assert_eq!(db.tables.len(), 3);
    assert_eq!(
        buffered(table(&db, "events"), "n"),
        vec![RawVal::Int(1), RawVal::Int(2)]
    );
    let meta = table(&db, "_meta_tables");
    assert_eq!(
        buffered(meta, "name"),
        vec![
            RawVal::Str(s("_meta_tables")),
            RawVal::Str(s("events")),
            RawVal::Str(s("other"))
        ]
    );
    assert_eq!(buffered(meta, "timestamp")[2], RawVal::Int(5000));
    assert_eq!(table(&db, "other").buffer.len(), 1);
}

#[test]
fn ingest_into_the_record_table_itself() {
    let mut db = InnerRuba::new(Vec::new());
    db.ingest_at("_meta_tables", vec![(s("name"), RawVal::Str(s("mine")))], 7);
    assert_eq!(db.tables.len(), 1);
    let meta = table(&db, "_meta_tables");
    assert_eq!(
        buffered(meta, "name"),
        vec![RawVal::Str(s("_meta_tables")), RawVal::Str(s("mine"))]
    );
    assert_eq!(buffered(meta, "timestamp"), vec![RawVal::Int(7), RawVal::Null]);
}

#[test]
fn ingest_reads_the_clock_for_the_record() {
    let mut db = InnerRuba::new(Vec::new());
    db.ingest("t", vec![(s("n"), RawVal::Int(1))]);
    db.ingest_homogeneous("u", vec![(s("n"), InputColumn::Int(vec![1, 2]))]);
    db.ingest_heterogeneous("w", vec![(s("n"), vec![RawVal::Null, RawVal::Int(2)])]);
    db.load_batches("x", vec![small_batch(&[1])]);
    assert_eq!(db.tables.len(), 5);
    let stamps = buffered(table(&db, "_meta_tables"), "timestamp");
    assert_eq!(stamps.len(), 5);
    for v in stamps {
        match v {
            RawVal::Int(sec) => assert!(sec > 1_000_000_000),
            _ => panic!("no time"),
        }
    }
    assert_eq!(table(&db, "u").buffer.len(), 2);
    assert_eq!(
        buffered(table(&db, "w"), "n"),
        vec![RawVal::Null, RawVal::Int(2)]
    );
    assert_eq!(table(&db, "x").batches.len(), 1);
}

#[test]
fn columns_are_ingested_into_their_table() {
    let mut db = InnerRuba::new(vec![Table::new(100, "t")]);
    db.ingest_homogeneous_at(
        "t",
        vec![
            (s("a"), InputColumn::Int(vec![1, 2])),
            (s("b"), InputColumn::Str(vec![s("x")])),
        ],
        1,
    );
    db.ingest_heterogeneous_at("t", vec![(s("a"), vec![RawVal::Str(s("z"))])], 1);
    assert_eq!(db.tables.len(), 1);
    let t = table(&db, "t");
    assert_eq!(
        buffered(t, "a"),
        vec![RawVal::Int(1), RawVal::Int(2), RawVal::Str(s("z"))]
    );
    assert_eq!(
        buffered(t, "b"),
        vec![RawVal::Str(s("x")), RawVal::Null, RawVal::Null]
    );
}

#[test]
fn a_full_buffer_is_sealed_into_a_batch() {
    let mut t = Table::new(2, "t");
    t.ingest(vec![(s("n"), RawVal::Int(1))]);
    assert_eq!(t.batches.len(), 0);
    assert_eq!(t.buffer.len(), 1);
    t.ingest(vec![(s("n"), RawVal::Int(2))]);
    assert_eq!(t.batches.len(), 1);
    assert_eq!(t.buffer.len(), 0);
    assert_eq!(t.buffer.buffer.len(), 0);
    match t.batches[0].cols[0].data().collect_decoded() {
        TypedVec::Integer(v) => assert_eq!(v.as_vec(), &vec![1, 2]),
        _ => panic!("not integers"),
    }
    t.ingest_homogeneous(vec![(s("m"), InputColumn::Int(vec![7, 8, 9]))]);
    assert_eq!(t.batches.len(), 2);
    assert_eq!(t.batches[1].len(), 3);
    assert_eq!(t.batches[1].cols[0].name(), "m");
    t.ingest_heterogeneous(vec![(s("m"), vec![RawVal::Int(1)])]);
    assert_eq!(t.batches.len(), 2);
    assert_eq!(t.buffer.len(), 1);
    let stats = t.stats();
    assert_eq!(stats.name, "t");
    assert_eq!(stats.rows, 6);
    assert_eq!(stats.batches, 2);
    assert_eq!(stats.buffer_length, 1);
}

#[test]
fn batches_are_loaded_in_their_order() {
    let mut db = InnerRuba::new(Vec::new());
    db.load_batches_at(
        "t",
        vec![small_batch(&[1]), small_batch(&[2, 3]), small_batch(&[4, 5, 6])],
        10,
    );
    let t = table(&db, "t");
    let sizes: Vec<usize> = t.batches.iter().map(|b| b.len()).collect();
    assert_eq!(sizes, vec![1, 2, 3]);
    db.load_batches_at("t", vec![], 10);
    db.load_batches_at("t", vec![small_batch(&[9, 9, 9, 9])], 10);
    let t = table(&db, "t");
    let sizes: Vec<usize> = t.batches.iter().map(|b| b.len()).collect();
    assert_eq!(sizes, vec![1, 2, 3, 4]);
    let stats = db.stats();
    assert_eq!(stats.tables.len(), 2);
    assert_eq!(stats.tables[0].name, "t");
    assert_eq!(stats.tables[0].rows, 10);
    assert_eq!(stats.tables[0].batches, 4);
    assert_eq!(stats.tables[0].buffer_length, 0);
    assert_eq!(stats.tables[1].name, "_meta_tables");
    assert_eq!(stats.tables[1].rows, 2);
    assert_eq!(stats.tables[1].buffer_length, 2);
}

#[test]
fn tasks_are_handed_out_in_their_order() {
    let mut db = InnerRuba::new(Vec::new());
    db.schedule(task(1, false, false));
    assert!(db.task_available);
    db.schedule(task(2, true, false));
    db.schedule(task(3, false, false));
    assert_eq!(db.await_task(), Some(task(1, false, false)));
    assert!(db.task_available);
    assert_eq!(db.await_task(), Some(task(3, false, false)));
    assert!(!db.task_available);
    assert_eq!(db.task_queue.len(), 0);
    assert_eq!(db.await_task(), None);
}

#[test]
fn a_task_for_several_workers_stays_at_the_front() {
    let mut db = InnerRuba::new(Vec::new());
    db.schedule(task(1, true, true));
    db.schedule(task(2, false, true));
    db.schedule(task(3, false, false));
    assert_eq!(db.await_task(), Some(task(2, false, true)));
    assert_eq!(db.await_task(), Some(task(2, false, true)));
    assert!(db.task_available);
    assert_eq!(db.task_queue.len(), 2);
}

#[test]
fn a_queue_of_completed_tasks_hands_out_nothing() {
    let mut db = InnerRuba::new(Vec::new());
    db.schedule(task(1, true, false));
    db.schedule(task(2, true, true));
    assert_eq!(db.await_task(), None);
    assert_eq!(db.task_queue.len(), 0);
    assert!(db.task_available);
}
