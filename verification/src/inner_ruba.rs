//! The tables of a database and the queue of its tasks, as one state that
//! a single owner changes.

use crate::batch::Batch;
use crate::buffer::{row_inputs, typed_inputs, untyped_inputs, Columns, InputColumn};
use crate::raw_val::{RawVal, Val};
use crate::table::{Table, TableModel, TableStats};
use crate::text::same_text;
use std::collections::VecDeque;
use vstd::prelude::*;

verus! {

/// What the scheduler knows of a task.
#[derive(Clone, Copy, Debug, PartialEq, Eq, Structural)]
pub struct Task {
    pub id: u64,
    /// The task has nothing left to hand out.
    pub completed: bool,
    /// Several workers may run the task at once.
    pub multithreaded: bool,
}

/// What the tables of a database hold.
#[derive(Debug)]
pub struct Stats {
    pub tables: Vec<TableStats>,
}

/// The number of rows after which a table that the database creates seals
/// its buffer.
pub const NEW_TABLE_BATCH_SIZE: usize = 10_000;

/// The models of the tables of a database.
pub type Tables = Seq<TableModel>;

/// The name of the table that records the creation of tables.
pub open spec fn meta_table() -> Seq<char> {
    "_meta_tables"@
}

/// The row that records the creation of the table `name` at the time `now`.
pub open spec fn meta_row(name: Seq<char>, now: int) -> Columns {
    seq![("timestamp"@, seq![Val::Int(now)]), ("name"@, seq![Val::Str(name)])]
}

/// The position of the table called `name`.
pub open spec fn table_position(tables: Tables, name: Seq<char>) -> Option<int> {
    if exists|i: int| 0 <= i < tables.len() && (#[trigger] tables[i]).name == name {
        Some(choose|i: int| 0 <= i < tables.len() && (#[trigger] tables[i]).name == name)
    } else {
        None
    }
}

/// Whether no two tables share a name.
pub open spec fn distinct_tables(tables: Tables) -> bool {
    forall|i: int, j: int|
        0 <= i < j < tables.len() ==> (#[trigger] tables[i]).name != (#[trigger] tables[j]).name
}

/// The tables after a row was ingested into the table called `name`.
pub open spec fn with_row(tables: Tables, name: Seq<char>, row: Columns) -> Tables {
    let i = table_position(tables, name)->Some_0;
    tables.update(i, tables[i].with_row(row))
}

/// The tables after columns were ingested into the table called `name`.
pub open spec fn with_columns(tables: Tables, name: Seq<char>, columns: Columns) -> Tables {
    let i = table_position(tables, name)->Some_0;
    tables.update(i, tables[i].with_columns(columns))
}

/// The tables after a batch was added to the table called `name`.
pub open spec fn with_batch(tables: Tables, name: Seq<char>, batch: Columns) -> Tables {
    let i = table_position(tables, name)->Some_0;
    tables.update(i, tables[i].with_batch(batch))
}

/// The tables with the table that records creations: where there was
/// none, it is created and records its own creation.
pub open spec fn with_meta(tables: Tables, now: int) -> Tables {
    if table_position(tables, meta_table()) is Some {
        tables
    } else {
        with_row(
            tables.push(TableModel::empty(meta_table(), NEW_TABLE_BATCH_SIZE as nat)),
            meta_table(),
            meta_row(meta_table(), now),
        )
    }
}

/// The tables with a table called `name`: where there was none, it is
/// created as the last table, and its creation is recorded.
pub open spec fn with_table(tables: Tables, name: Seq<char>, now: int) -> Tables {
    if table_position(tables, name) is Some {
        tables
    } else if name == meta_table() {
        with_meta(tables, now)
    } else {
        with_row(
            with_meta(tables.push(TableModel::empty(name, NEW_TABLE_BATCH_SIZE as nat)), now),
            meta_table(),
            meta_row(name, now),
        )
    }
}

/// The columns of the batches of a list.
pub open spec fn batch_columns(batches: Seq<Batch>) -> Seq<Columns> {
    Seq::new(batches.len(), |i: int| batches[i].columns())
}

/// The tables after the batches were added, in their order, to the table
/// called `name`.
pub open spec fn with_batches(tables: Tables, name: Seq<char>, batches: Seq<Columns>) -> Tables
    decreases batches.len(),
{
    if batches.len() == 0 {
        tables
    } else {
        with_batch(with_batches(tables, name, batches.drop_last()), name, batches.last())
    }
}

/// The position of the first task of the queue that is not completed, or
/// the length of the queue where every task is.
pub open spec fn first_open(queue: Seq<Task>) -> int
    decreases queue.len(),
{
    if queue.len() == 0 {
        0
    } else if !queue[0].completed {
        0
    } else {
        1 + first_open(queue.drop_first())
    }
}

/// The queue after the first task that is not completed was handed out:
/// the completed tasks before it are dropped, and it stays at the front
/// where several workers may run it.
pub open spec fn after_handout(queue: Seq<Task>) -> Seq<Task> {
    let k = first_open(queue);
    if k >= queue.len() {
        Seq::empty()
    } else if queue[k].multithreaded {
        queue.skip(k)
    } else {
        queue.skip(k + 1)
    }
}

/// The state of a database: its tables and the queue of its tasks.
pub struct InnerRuba {
    pub tables: Vec<Table>,
    pub task_queue: VecDeque<Task>,
    pub task_available: bool,
}

/// `time::now` and `Tm::to_timespec`: the seconds of the clock since the
/// start of 1970. Nothing is claimed of the value.
#[verifier::external_body]
fn unix_seconds() -> (now: i64) {
    time::now().to_timespec().sec
}

impl InnerRuba {
    /// The models of the tables.
    pub open spec fn models(&self) -> Tables {
        Seq::new(self.tables@.len(), |i: int| self.tables@[i]@)
    }

    /// Every table is well-formed and no two tables share a name.
    pub open spec fn wf(&self) -> bool {
        &&& distinct_tables(self.models())
        &&& forall|i: int| 0 <= i < self.tables@.len() ==> (#[trigger] self.tables@[i]).wf()
    }

    /// A database of the given tables, with no task.
    pub fn new(existing_tables: Vec<Table>) -> (r: InnerRuba)
        ensures
            r.tables == existing_tables,
            r.task_queue@ == Seq::<Task>::empty(),
            !r.task_available,
    {
        InnerRuba { tables: existing_tables, task_queue: VecDeque::new(), task_available: false }
    }

    /// Puts a task at the end of the queue.
    pub fn schedule(&mut self, task: Task)
        ensures
            final(self).tables == old(self).tables,
            final(self).task_queue@ == old(self).task_queue@.push(task),
            final(self).task_available,
    {
        self.task_queue.push_back(task);
        self.task_available = true;
    }

    /// Hands out the first task that is not completed. Where there is one,
    /// the queue says afterwards whether a task is left.
    pub fn await_task(&mut self) -> (r: Option<Task>)
        ensures
            final(self).tables == old(self).tables,
            final(self).task_queue@ == after_handout(old(self).task_queue@),
            r == if first_open(old(self).task_queue@) < old(self).task_queue@.len() {
                Some(old(self).task_queue@[first_open(old(self).task_queue@)])
            } else {
                None
            },
            final(self).task_available == if r is Some {
                final(self).task_queue@.len() > 0
            } else {
                old(self).task_available
            },
    {
        let ghost queue = self.task_queue@;
        let ghost mut dropped: int = 0;
        loop
            invariant
                self.tables == old(self).tables,
                self.task_available == old(self).task_available,
                queue == old(self).task_queue@,
                0 <= dropped <= queue.len(),
                self.task_queue@ == queue.skip(dropped),
                first_open(queue) == dropped + first_open(queue.skip(dropped)),
            decreases self.task_queue@.len(),
        {
            let ghost rest = self.task_queue@;
            match self.task_queue.pop_front() {
                Some(task) => {
                    assert(rest[0] == task);
                    assert(rest.drop_first() =~= queue.skip(dropped + 1));
                    if task.completed {
                        proof {
                            dropped = dropped + 1;
                        }
                        continue ;
                    }
                    if task.multithreaded {
                        self.task_queue.push_front(task);
                        assert(self.task_queue@ =~= queue.skip(dropped));
                    }
                    self.task_available = self.task_queue.len() > 0;
                    assert(queue[dropped] == task);
                    return Some(task);
                },
                None => {
                    assert(self.task_queue@ =~= Seq::<Task>::empty());
                    return None;
                },
            }
        }
    }

    /// The position of the table called `name`.
    fn find(&self, name: &str) -> (r: Option<usize>)
        requires
            self.wf(),
        ensures
            match r {
                Some(i) => table_position(self.models(), name@) == Some(i as int) && i
                    < self.tables@.len(),
                None => table_position(self.models(), name@) is None,
            },
    {
        let mut i: usize = 0;
        while i < self.tables.len()
            invariant
                i <= self.tables.len(),
                self.wf(),
                forall|j: int| 0 <= j < i ==> (#[trigger] self.models()[j]).name != name@,
            decreases self.tables.len() - i,
        {
            if same_text(self.tables[i].name(), name) {
                proof {
                    assert(self.models()[i as int].name == name@);
                    let k = table_position(self.models(), name@)->Some_0;
                    if k < i {
                        assert(self.models()[k].name != name@);
                    } else if k > i {
                        assert(self.models()[i as int].name != self.models()[k].name);
                    }
                }
                return Some(i);
            }
            i += 1;
        }
        None
    }

    /// Ingests a row into the table at `idx`.
    fn ingest_into(&mut self, idx: usize, row: Vec<(String, RawVal)>)
        requires
            old(self).wf(),
            idx < old(self).tables@.len(),
        ensures
            final(self).wf(),
            final(self).task_queue == old(self).task_queue,
            final(self).task_available == old(self).task_available,
            final(self).models() == old(self).models().update(
                idx as int,
                old(self).models()[idx as int].with_row(row_inputs(row@)),
            ),
    {
        self.tables[idx].ingest(row);
        proof {
            let after = self.models();
            let before = old(self).models();
            assert forall|k: int| 0 <= k < after.len() implies (#[trigger] after[k]).name
                == before[k].name by {
                if k != idx {
                    assert(self.tables@[k] == old(self).tables@[k]);
                }
            }
            assert forall|a: int, b: int| 0 <= a < b < after.len() implies (#[trigger] after[a]).name
                != (#[trigger] after[b]).name by {
                assert(before[a].name != before[b].name);
            }
            assert(after =~= before.update(idx as int, before[idx as int].with_row(row_inputs(row@))));
        }
    }

    /// Adds an empty table called `name`, which the database does not hold
    /// yet, as the last table.
    fn add_table(&mut self, name: &str) -> (idx: usize)
        requires
            old(self).wf(),
            table_position(old(self).models(), name@) is None,
        ensures
            final(self).wf(),
            final(self).task_queue == old(self).task_queue,
            final(self).task_available == old(self).task_available,
            final(self).models() == old(self).models().push(
                TableModel::empty(name@, NEW_TABLE_BATCH_SIZE as nat),
            ),
            idx == old(self).tables@.len(),
            table_position(final(self).models(), name@) == Some(idx as int),
    {
        let idx = self.tables.len();
        self.tables.push(Table::new(NEW_TABLE_BATCH_SIZE, name));
        proof {
            let before = old(self).models();
            let after = self.models();
            assert(after =~= before.push(TableModel::empty(name@, NEW_TABLE_BATCH_SIZE as nat)));
            assert forall|a: int, b: int| 0 <= a < b < after.len() implies (#[trigger] after[a]).name
                != (#[trigger] after[b]).name by {
                if b < before.len() {
                    assert(before[a].name != before[b].name);
                } else {
                    assert(before[a].name != name@);
                }
            }
            assert(after[idx as int].name == name@);
            let k = table_position(after, name@)->Some_0;
            if k < idx {
                assert(after[k].name != after[idx as int].name);
            }
        }
        idx
    }

    /// The row that records the creation of the table `name`.
    fn creation_record(name: &str, now: i64) -> (row: Vec<(String, RawVal)>)
        ensures
            row_inputs(row@) == meta_row(name@, now as int),
    {
        let mut row: Vec<(String, RawVal)> = Vec::with_capacity(2);
        row.push(("timestamp".to_owned(), RawVal::Int(now)));
        row.push(("name".to_owned(), RawVal::Str(name.to_owned())));
        assert(row_inputs(row@) =~= meta_row(name@, now as int));
        row
    }

    /// Makes sure that the table that records creations exists.
    fn create_meta(&mut self, now: i64) -> (idx: usize)
        requires
            old(self).wf(),
        ensures
            final(self).wf(),
            final(self).task_queue == old(self).task_queue,
            final(self).task_available == old(self).task_available,
            final(self).models() == with_meta(old(self).models(), now as int),
            table_position(final(self).models(), meta_table()) == Some(idx as int),
            idx < final(self).tables@.len(),
            final(self).tables@.len() >= old(self).tables@.len(),
            forall|k: int|
                0 <= k < old(self).tables@.len() ==> (#[trigger] final(self).models()[k]).name == old(
                    self,
                ).models()[k].name,
    {
        match self.find("_meta_tables") {
            Some(i) => i,
            None => {
                let idx = self.add_table("_meta_tables");
                self.ingest_into(idx, Self::creation_record("_meta_tables", now));
                proof {
                    let after = self.models();
                    assert(after[idx as int].name == meta_table());
                    let k = table_position(after, meta_table())->Some_0;
                    if k != idx {
                        if k < idx {
                            assert(after[k].name != after[idx as int].name);
                        } else {
                            assert(after[idx as int].name != after[k].name);
                        }
                    }
                }
                idx
            },
        }
    }

    /// Makes sure that a table called `table` exists: where the database
    /// holds none, it is created and the creation is recorded.
    fn create_if_empty(&mut self, table: &str, now: i64) -> (idx: usize)
        requires
            old(self).wf(),
        ensures
            final(self).wf(),
            final(self).task_queue == old(self).task_queue,
            final(self).task_available == old(self).task_available,
            final(self).models() == with_table(old(self).models(), table@, now as int),
            table_position(final(self).models(), table@) == Some(idx as int),
            idx < final(self).tables@.len(),
    {
        match self.find(table) {
            Some(i) => i,
            None => {
                if same_text(table, "_meta_tables") {
                    self.create_meta(now)
                } else {
                    let idx = self.add_table(table);
                        let meta = self.create_meta(now);
                    let ghost with = self.models();
                    assert(with[idx as int].name == table@);
                    self.ingest_into(meta, Self::creation_record(table, now));
                    proof {
                        let after = self.models();
                        assert(after[idx as int].name == table@);
                        let k = table_position(after, table@)->Some_0;
                        if k != idx {
                            if k < idx {
                                assert(after[k].name != after[idx as int].name);
                            } else {
                                assert(after[idx as int].name != after[k].name);
                            }
                        }
                    }
                    idx
                }
            },
        }
    }

    /// Ingests a row into a table at a given time of the clock. A table
    /// that the database does not hold is created first.
    pub fn ingest_at(&mut self, table: &str, row: Vec<(String, RawVal)>, now: i64)
        requires
            old(self).wf(),
        ensures
            final(self).wf(),
            final(self).task_queue == old(self).task_queue,
            final(self).task_available == old(self).task_available,
            final(self).models() == with_row(
                with_table(old(self).models(), table@, now as int),
                table@,
                row_inputs(row@),
            ),
    {
        let idx = self.create_if_empty(table, now);
        self.ingest_into(idx, row);
    }

    /// Ingests a row into a table; the clock is read for the record of a
    /// table that is created.
    pub fn ingest(&mut self, table: &str, row: Vec<(String, RawVal)>)
        requires
            old(self).wf(),
        ensures
            final(self).wf(),
            final(self).task_queue == old(self).task_queue,
            exists|now: i64|
                final(self).models() == #[trigger] with_row(
                    with_table(old(self).models(), table@, now as int),
                    table@,
                    row_inputs(row@),
                ),
    {
        let now = unix_seconds();
        self.ingest_at(table, row, now);
    }

    /// Ingests typed columns into a table at a given time of the clock.
    pub fn ingest_homogeneous_at(&mut self, table: &str, columns: Vec<(String, InputColumn)>, now: i64)
        requires
            old(self).wf(),
        ensures
            final(self).wf(),
            final(self).task_queue == old(self).task_queue,
            final(self).models() == with_columns(
                with_table(old(self).models(), table@, now as int),
                table@,
                typed_inputs(columns@),
            ),
    {
        let idx = self.create_if_empty(table, now);
        let ghost before = self.models();
        self.tables[idx].ingest_homogeneous(columns);
        proof {
            self.lemma_table_changed(
                before,
                idx as int,
                before[idx as int].with_columns(typed_inputs(columns@)),
            );
        }
    }

    /// Ingests typed columns into a table.
    pub fn ingest_homogeneous(&mut self, table: &str, columns: Vec<(String, InputColumn)>)
        requires
            old(self).wf(),
        ensures
            final(self).wf(),
            final(self).task_queue == old(self).task_queue,
            exists|now: i64|
                final(self).models() == #[trigger] with_columns(
                    with_table(old(self).models(), table@, now as int),
                    table@,
                    typed_inputs(columns@),
                ),
    {
        let now = unix_seconds();
        self.ingest_homogeneous_at(table, columns, now);
    }

    /// Ingests untyped columns into a table at a given time of the clock.
    pub fn ingest_heterogeneous_at(
        &mut self,
        table: &str,
        columns: Vec<(String, Vec<RawVal>)>,
        now: i64,
    )
        requires
            old(self).wf(),
        ensures
            final(self).wf(),
            final(self).task_queue == old(self).task_queue,
            final(self).models() == with_columns(
                with_table(old(self).models(), table@, now as int),
                table@,
                untyped_inputs(columns@),
            ),
    {
        let idx = self.create_if_empty(table, now);
        let ghost before = self.models();
        self.tables[idx].ingest_heterogeneous(columns);
        proof {
            self.lemma_table_changed(
                before,
                idx as int,
                before[idx as int].with_columns(untyped_inputs(columns@)),
            );
        }
    }

    /// Ingests untyped columns into a table.
    pub fn ingest_heterogeneous(&mut self, table: &str, columns: Vec<(String, Vec<RawVal>)>)
        requires
            old(self).wf(),
        ensures
            final(self).wf(),
            final(self).task_queue == old(self).task_queue,
            exists|now: i64|
                final(self).models() == #[trigger] with_columns(
                    with_table(old(self).models(), table@, now as int),
                    table@,
                    untyped_inputs(columns@),
                ),
    {
        let now = unix_seconds();
        self.ingest_heterogeneous_at(table, columns, now);
    }

    /// Adds sealed batches to a table at a given time of the clock. A table
    /// that the database does not hold is created first.
    pub fn load_batches_at(&mut self, table: &str, batches: Vec<Batch>, now: i64)
        requires
            old(self).wf(),
            forall|i: int| 0 <= i < batches@.len() ==> (#[trigger] batches@[i]).wf(),
        ensures
            final(self).wf(),
            final(self).task_queue == old(self).task_queue,
            final(self).models() == with_batches(
                with_table(old(self).models(), table@, now as int),
                table@,
                batch_columns(batches@),
            ),
    {
        let idx = self.create_if_empty(table, now);
        let ghost start = self.models();
        let ghost all = batch_columns(batches@);
        let ghost n = batches@.len() as int;
        let mut pending = batches;
        let mut reversed: Vec<Batch> = Vec::with_capacity(pending.len());
        while pending.len() > 0
            invariant
                pending@.len() + reversed@.len() == n,
                n == batches@.len(),
                forall|j: int| 0 <= j < pending@.len() ==> #[trigger] pending@[j] == batches@[j],
                forall|j: int| 0 <= j < reversed@.len() ==> #[trigger] reversed@[j] == batches@[n - 1 - j],
            decreases pending.len(),
        {
            match pending.pop() {
                Some(b) => {
                    reversed.push(b);
                },
                None => {},
            }
        }
        let ghost mut k: int = 0;
        assert(all.take(0) =~= Seq::<Columns>::empty());
        while reversed.len() > 0
            invariant
                0 <= k <= n,
                n == batches@.len(),
                all == batch_columns(batches@),
                reversed@.len() == n - k,
                forall|j: int| 0 <= j < reversed@.len() ==> #[trigger] reversed@[j] == batches@[n - 1 - j],
                forall|i: int| 0 <= i < batches@.len() ==> (#[trigger] batches@[i]).wf(),
                self.wf(),
                self.task_queue == old(self).task_queue,
                idx < self.tables@.len(),
                table_position(self.models(), table@) == Some(idx as int),
                self.models() == with_batches(start, table@, all.take(k)),
            decreases reversed.len(),
        {
            let ghost before = self.models();
            match reversed.pop() {
                Some(b) => {
                    assert(b == batches@[k]);
                    self.tables[idx].load_batch(b);
                    proof {
                        assert(all.take(k + 1).drop_last() =~= all.take(k));
                        assert(all.take(k + 1).last() == b.columns());
                        self.lemma_table_changed(
                            before,
                            idx as int,
                            before[idx as int].with_batch(b.columns()),
                        );
                        let after = self.models();
                        assert(after[idx as int].name == table@);
                        let p = table_position(after, table@)->Some_0;
                        if p < idx {
                            assert(after[p].name != after[idx as int].name);
                        } else if p > idx {
                            assert(after[idx as int].name != after[p].name);
                        }
                        k = k + 1;
                    }
                },
                None => {},
            }
        }
        assert(all.take(n) =~= all);
    }

    /// Adds sealed batches to a table.
    pub fn load_batches(&mut self, table: &str, batches: Vec<Batch>)
        requires
            old(self).wf(),
            forall|i: int| 0 <= i < batches@.len() ==> (#[trigger] batches@[i]).wf(),
        ensures
            final(self).wf(),
            final(self).task_queue == old(self).task_queue,
            exists|now: i64|
                final(self).models() == #[trigger] with_batches(
                    with_table(old(self).models(), table@, now as int),
                    table@,
                    batch_columns(batches@),
                ),
    {
        let now = unix_seconds();
        self.load_batches_at(table, batches, now);
    }

    /// A change of the table at `idx` that keeps its name keeps the tables
    /// distinct.
    proof fn lemma_table_changed(&self, before: Tables, idx: int, changed: TableModel)
        requires
            distinct_tables(before),
            0 <= idx < before.len(),
            self.models().len() == before.len(),
            self.models()[idx] == changed,
            changed.name == before[idx].name,
            forall|k: int| 0 <= k < before.len() && k != idx ==> #[trigger] self.models()[k] == before[k],
        ensures
            self.models() == before.update(idx, changed),
            distinct_tables(self.models()),
    {
        let after = self.models();
        assert(after =~= before.update(idx, changed));
        assert forall|a: int, b: int| 0 <= a < b < after.len() implies (#[trigger] after[a]).name
            != (#[trigger] after[b]).name by {
            assert(before[a].name != before[b].name);
        }
    }

    /// What the tables hold.
    pub fn stats(&self) -> (r: Stats)
        ensures
            r.tables@.len() == self.tables@.len(),
            forall|i: int|
                0 <= i < self.tables@.len() ==> {
                    let s = #[trigger] r.tables@[i];
                    let m = self.models()[i];
                    &&& s.name@ == m.name
                    &&& s.batches == m.batches.len()
                    &&& s.buffer_length == m.buffered
                    &&& s.rows == if m.rows() <= usize::MAX {
                        m.rows()
                    } else {
                        usize::MAX as nat
                    }
                },
    {
        let mut tables: Vec<TableStats> = Vec::with_capacity(self.tables.len());
        let mut i: usize = 0;
        while i < self.tables.len()
            invariant
                i <= self.tables.len(),
                tables@.len() == i,
                forall|j: int|
                    0 <= j < i ==> {
                        let s = #[trigger] tables@[j];
                        let m = self.models()[j];
                        &&& s.name@ == m.name
                        &&& s.batches == m.batches.len()
                        &&& s.buffer_length == m.buffered
                        &&& s.rows == if m.rows() <= usize::MAX {
                            m.rows()
                        } else {
                            usize::MAX as nat
                        }
                    },
            decreases self.tables.len() - i,
        {
            tables.push(self.tables[i].stats());
            i += 1;
        }
        Stats { tables }
    }
}

} // verus!
