//! Tables: the sealed batches of a table and the buffer of the batch that
//! is being built.

use crate::batch::Batch;
use crate::buffer::{
    after_row, appended, appended_len, frozen_columns, row_inputs, typed_inputs, untyped_inputs,
    Buffer, Columns, InputColumn,
};
use crate::raw_val::RawVal;
use vstd::prelude::*;

verus! {

/// The largest number of rows that a batch is sealed with: a dictionary
/// indexes at most 2^32 strings.
pub open spec fn sealable() -> nat {
    0x1_0000_0000
}

/// The mathematical model of a table.
pub struct TableModel {
    pub name: Seq<char>,
    pub batch_size: nat,
    /// The sealed batches, oldest first, each by its columns.
    pub batches: Seq<Columns>,
    /// The columns of the buffer.
    pub buffer: Columns,
    /// The number of rows of the buffer.
    pub buffered: nat,
}

/// The number of rows of the columns of a batch.
pub open spec fn batch_rows(cols: Columns) -> nat {
    if cols.len() == 0 {
        0
    } else {
        cols[0].1.len()
    }
}

/// The number of rows of a list of batches.
pub open spec fn sealed_rows(batches: Seq<Columns>) -> nat
    decreases batches.len(),
{
    if batches.len() == 0 {
        0
    } else {
        sealed_rows(batches.drop_last()) + batch_rows(batches.last())
    }
}

impl TableModel {
    /// An empty table.
    pub open spec fn empty(name: Seq<char>, batch_size: nat) -> TableModel {
        TableModel { name, batch_size, batches: Seq::empty(), buffer: Seq::empty(), buffered: 0 }
    }

    /// Whether the buffer is sealed: it has reached the batch size, and a
    /// batch can hold its rows.
    pub open spec fn full(self) -> bool {
        self.batch_size <= self.buffered <= sealable()
    }

    /// The table after a full buffer was sealed into a batch.
    pub open spec fn absorbed(self) -> TableModel {
        if self.full() {
            TableModel {
                batches: self.batches.push(frozen_columns(self.buffer)),
                buffer: Seq::empty(),
                buffered: 0,
                ..self
            }
        } else {
            self
        }
    }

    /// The table after the inputs were appended to its buffer, which then
    /// has at least `least` rows.
    pub open spec fn with_inputs(self, inputs: Columns, least: nat) -> TableModel {
        (TableModel {
            buffer: appended(self.buffer, self.buffered, inputs, least),
            buffered: appended_len(self.buffer, self.buffered, inputs, least),
            ..self
        }).absorbed()
    }

    /// The table after one row was ingested.
    pub open spec fn with_row(self, inputs: Columns) -> TableModel {
        self.with_inputs(inputs, after_row(self.buffered))
    }

    /// The table after columns were ingested.
    pub open spec fn with_columns(self, inputs: Columns) -> TableModel {
        self.with_inputs(inputs, self.buffered)
    }

    /// The table after a sealed batch was added.
    pub open spec fn with_batch(self, cols: Columns) -> TableModel {
        TableModel { batches: self.batches.push(cols), ..self }
    }

    /// The number of rows of the table, sealed or buffered.
    pub open spec fn rows(self) -> nat {
        sealed_rows(self.batches) + self.buffered
    }
}

/// A table: its sealed batches and the buffer that rows are ingested into.
pub struct Table {
    pub name: String,
    pub batch_size: usize,
    pub batches: Vec<Batch>,
    pub buffer: Buffer,
}

/// What a table holds.
#[derive(Debug)]
pub struct TableStats {
    pub name: String,
    /// The number of rows, sealed or buffered; `usize::MAX` where there
    /// are more.
    pub rows: usize,
    pub batches: usize,
    pub buffer_length: usize,
}

impl View for Table {
    type V = TableModel;

    open spec fn view(&self) -> TableModel {
        TableModel {
            name: self.name@,
            batch_size: self.batch_size as nat,
            batches: Seq::new(self.batches@.len(), |i: int| self.batches@[i].columns()),
            buffer: self.buffer@,
            buffered: self.buffer.length as nat,
        }
    }
}

impl Table {
    /// The buffer and every batch are well-formed.
    pub open spec fn wf(&self) -> bool {
        &&& self.buffer.wf()
        &&& forall|i: int| 0 <= i < self.batches@.len() ==> (#[trigger] self.batches@[i]).wf()
    }

    /// An empty table.
    pub fn new(batch_size: usize, name: &str) -> (t: Table)
        ensures
            t.wf(),
            t@ == TableModel::empty(name@, batch_size as nat),
    {
        let t = Table {
            name: name.to_owned(),
            batch_size,
            batches: Vec::new(),
            buffer: Buffer::default(),
        };
        assert(t@.batches =~= Seq::<Columns>::empty());
        t
    }

    pub fn name(&self) -> (r: &str)
        ensures
            r@ == self@.name,
    {
        self.name.as_str()
    }

    /// Seals the buffer into a batch where it is full.
    fn batch_if_needed(&mut self)
        requires
            old(self).wf(),
        ensures
            final(self).wf(),
            final(self)@ == old(self)@.absorbed(),
    {
        let len = self.buffer.len();
        if len < self.batch_size {
            return ;
        }
        if len as u128 > 0x1_0000_0000u128 {
            return ;
        }
        proof {
            self.buffer.lemma_freezable();
        }
        let ghost before = self@;
        let batch = self.buffer.into_batch();
        self.batches.push(batch);
        self.buffer = Buffer::default();
        assert(self@.batches =~= before.batches.push(frozen_columns(before.buffer)));
    }

    /// Ingests one row and seals the buffer where that fills it.
    pub fn ingest(&mut self, row: Vec<(String, RawVal)>)
        requires
            old(self).wf(),
        ensures
            final(self).wf(),
            final(self)@ == old(self)@.with_row(row_inputs(row@)),
    {
        self.buffer.push_row(row);
        assert(self@.batches =~= old(self)@.batches);
        self.batch_if_needed();
    }

    /// Ingests typed columns and seals the buffer where that fills it.
    pub fn ingest_homogeneous(&mut self, columns: Vec<(String, InputColumn)>)
        requires
            old(self).wf(),
        ensures
            final(self).wf(),
            final(self)@ == old(self)@.with_columns(typed_inputs(columns@)),
    {
        self.buffer.push_typed_cols(columns);
        assert(self@.batches =~= old(self)@.batches);
        self.batch_if_needed();
    }

    /// Ingests untyped columns and seals the buffer where that fills it.
    pub fn ingest_heterogeneous(&mut self, columns: Vec<(String, Vec<RawVal>)>)
        requires
            old(self).wf(),
        ensures
            final(self).wf(),
            final(self)@ == old(self)@.with_columns(untyped_inputs(columns@)),
    {
        self.buffer.push_untyped_cols(columns);
        assert(self@.batches =~= old(self)@.batches);
        self.batch_if_needed();
    }

    /// Adds a sealed batch.
    pub fn load_batch(&mut self, batch: Batch)
        requires
            old(self).wf(),
            batch.wf(),
        ensures
            final(self).wf(),
            final(self)@ == old(self)@.with_batch(batch.columns()),
    {
        self.batches.push(batch);
        assert(self@.batches =~= old(self)@.batches.push(batch.columns()));
    }

    /// What the table holds.
    pub fn stats(&self) -> (r: TableStats)
        ensures
            r.name@ == self@.name,
            r.batches == self@.batches.len(),
            r.buffer_length == self@.buffered,
            r.rows == if self@.rows() <= usize::MAX {
                self@.rows()
            } else {
                usize::MAX as nat
            },
    {
        let ghost sealed = self@.batches;
        let mut rows: usize = 0;
        let mut i: usize = 0;
        assert(sealed.take(0) =~= Seq::<Columns>::empty());
        while i < self.batches.len()
            invariant
                i <= self.batches.len(),
                sealed == self@.batches,
                rows == if sealed_rows(sealed.take(i as int)) <= usize::MAX {
                    sealed_rows(sealed.take(i as int))
                } else {
                    usize::MAX as nat
                },
            decreases self.batches.len() - i,
        {
            assert(sealed.take(i + 1).drop_last() =~= sealed.take(i as int));
            let n = self.batches[i].len();
            assert(n == batch_rows(sealed[i as int]));
            rows = if rows > usize::MAX - n {
                usize::MAX
            } else {
                rows + n
            };
            i += 1;
        }
        assert(sealed.take(sealed.len() as int) =~= sealed);
        let n = self.buffer.len();
        rows = if rows > usize::MAX - n {
            usize::MAX
        } else {
            rows + n
        };
        TableStats {
            name: self.name.clone(),
            rows,
            batches: self.batches.len(),
            buffer_length: self.buffer.len(),
        }
    }
}

} // verus!
