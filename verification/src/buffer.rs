//! The ingestion buffer: the growing columns of the batch that is being
//! built, kept at one length.

use crate::batch::Batch;
use crate::column::{int_values, nulls, Column};
use crate::dictionary::first_seen;
use crate::int_like::values_of;
use crate::raw_col::{
    count_nulls, frozen, holds_str, is_frozen, stored_texts, vals_of, RawCol,
};
use crate::raw_val::{RawVal, Val};
use crate::text::same_text;
use vstd::prelude::*;

verus! {

/// Typed input for one column.
pub enum InputColumn {
    Int(Vec<i64>),
    Str(Vec<String>),
    Null(usize),
}

impl View for InputColumn {
    type V = Seq<Val>;

    open spec fn view(&self) -> Seq<Val> {
        match self {
            InputColumn::Int(v) => int_values(values_of(v@)),
            InputColumn::Str(v) => Seq::new(v@.len(), |i: int| Val::Str(v@[i]@)),
            InputColumn::Null(n) => nulls(*n as nat),
        }
    }
}

/// The model of the columns of a buffer: each a name and its values.
pub type Columns = Seq<(Seq<char>, Seq<Val>)>;

/// Whether no two columns share a name.
pub open spec fn distinct_names(cols: Columns) -> bool {
    forall|i: int, j: int|
        0 <= i < j < cols.len() ==> (#[trigger] cols[i]).0 != (#[trigger] cols[j]).0
}

/// The position of the column called `name`.
pub open spec fn column_position(cols: Columns, name: Seq<char>) -> Option<int> {
    if exists|i: int| 0 <= i < cols.len() && (#[trigger] cols[i]).0 == name {
        Some(choose|i: int| 0 <= i < cols.len() && (#[trigger] cols[i]).0 == name)
    } else {
        None
    }
}

/// The columns with a column called `name`: where there was none, a new
/// last column of `base` nulls.
pub open spec fn with_column(cols: Columns, base: nat, name: Seq<char>) -> Columns {
    if column_position(cols, name) is Some {
        cols
    } else {
        cols.push((name, nulls(base)))
    }
}

/// The columns after `added` was appended to the column called `name`,
/// which starts as `base` nulls where it is new.
pub open spec fn pushed(cols: Columns, base: nat, name: Seq<char>, added: Seq<Val>) -> Columns {
    let with = with_column(cols, base, name);
    let i = column_position(with, name)->Some_0;
    with.update(i, (name, with[i].1 + added))
}

/// The columns after each input, a name and values, was appended in turn.
pub open spec fn pushed_all(cols: Columns, base: nat, inputs: Columns) -> Columns
    decreases inputs.len(),
{
    if inputs.len() == 0 {
        cols
    } else {
        pushed(pushed_all(cols, base, inputs.drop_last()), base, inputs.last().0, inputs.last().1)
    }
}

/// The length of the longest column, or `least` where that is larger.
pub open spec fn longest(cols: Columns, least: nat) -> nat
    decreases cols.len(),
{
    if cols.len() == 0 {
        least
    } else if cols.last().1.len() > longest(cols.drop_last(), least) {
        cols.last().1.len()
    } else {
        longest(cols.drop_last(), least)
    }
}

/// The columns with nulls appended to each that is shorter than `len`.
pub open spec fn padded(cols: Columns, len: nat) -> Columns {
    Seq::new(
        cols.len(),
        |i: int|
            (
                cols[i].0,
                if cols[i].1.len() < len {
                    cols[i].1 + nulls((len - cols[i].1.len()) as nat)
                } else {
                    cols[i].1
                },
            ),
    )
}

/// The length of the columns after the inputs were appended and the
/// columns were aligned: that of the longest, and at least `least`.
pub open spec fn appended_len(cols: Columns, len: nat, inputs: Columns, least: nat) -> nat {
    longest(pushed_all(cols, len, inputs), least)
}

/// The columns after the inputs were appended to columns of length `len`
/// and every column was padded with nulls to the longest.
pub open spec fn appended(cols: Columns, len: nat, inputs: Columns, least: nat) -> Columns {
    padded(pushed_all(cols, len, inputs), appended_len(cols, len, inputs, least))
}

/// The columns as they are frozen.
pub open spec fn frozen_columns(cols: Columns) -> Columns {
    Seq::new(cols.len(), |i: int| (cols[i].0, frozen(cols[i].1)))
}

/// The least length of the columns after a row was appended to columns of
/// length `len`: one more, as far as a length can count.
pub open spec fn after_row(len: nat) -> nat {
    if len < usize::MAX {
        len + 1
    } else {
        len
    }
}

/// What a row appends: one value to each column that it names.
pub open spec fn row_inputs(row: Seq<(String, RawVal)>) -> Columns {
    Seq::new(row.len(), |i: int| (row[i].0@, seq![row[i].1@]))
}

/// What typed columns append.
pub open spec fn typed_inputs(columns: Seq<(String, InputColumn)>) -> Columns {
    Seq::new(columns.len(), |i: int| (columns[i].0@, columns[i].1@))
}

/// What untyped columns append.
pub open spec fn untyped_inputs(columns: Seq<(String, Vec<RawVal>)>) -> Columns {
    Seq::new(columns.len(), |i: int| (columns[i].0@, vals_of(columns[i].1@)))
}

/// No column is longer than the longest, which is at least `least`.
pub proof fn lemma_longest(cols: Columns, least: nat)
    ensures
        longest(cols, least) >= least,
        forall|i: int| 0 <= i < cols.len() ==> (#[trigger] cols[i]).1.len() <= longest(cols, least),
    decreases cols.len(),
{
    if cols.len() > 0 {
        lemma_longest(cols.drop_last(), least);
        assert forall|i: int| 0 <= i < cols.len() implies (#[trigger] cols[i]).1.len() <= longest(
            cols,
            least,
        ) by {
            if i < cols.len() - 1 {
                assert(cols.drop_last()[i] == cols[i]);
            }
        }
    }
}

/// The columns of the batch under construction.
pub struct Buffer {
    pub buffer: Vec<(String, RawCol)>,
    pub length: usize,
}

impl View for Buffer {
    type V = Columns;

    open spec fn view(&self) -> Columns {
        Seq::new(self.buffer@.len(), |i: int| (self.buffer@[i].0@, self.buffer@[i].1@))
    }
}

impl Default for Buffer {
    fn default() -> (b: Buffer)
        ensures
            b.wf(),
            b@ == Seq::<(Seq<char>, Seq<Val>)>::empty(),
            b.length == 0,
    {
        let b = Buffer { buffer: Vec::new(), length: 0 };
        assert(b@ =~= Seq::<(Seq<char>, Seq<Val>)>::empty());
        b
    }
}

impl Buffer {
    /// No two columns share a name, and each column knows what it holds.
    pub open spec fn well_named(&self) -> bool {
        &&& distinct_names(self@)
        &&& forall|i: int| 0 <= i < self.buffer@.len() ==> (#[trigger] self.buffer@[i]).1.wf()
    }

    /// The buffer is well-named and every column has the buffer's length.
    pub open spec fn wf(&self) -> bool {
        &&& self.well_named()
        &&& forall|i: int| 0 <= i < self@.len() ==> (#[trigger] self@[i]).1.len() == self.length
    }

    /// The number of rows.
    pub fn len(&self) -> (n: usize)
        ensures
            n == self.length,
    {
        self.length
    }

    /// The position of the column called `name`, which is added as a column
    /// of `base` nulls where the buffer holds none of that name.
    fn column_index(&mut self, name: &String, base: usize) -> (idx: usize)
        requires
            old(self).well_named(),
        ensures
            final(self).well_named(),
            final(self).length == old(self).length,
            final(self)@ == with_column(old(self)@, base as nat, name@),
            column_position(final(self)@, name@) == Some(idx as int),
            idx < final(self)@.len(),
    {
        let mut i: usize = 0;
        while i < self.buffer.len()
            invariant
                i <= self.buffer.len(),
                *self == *old(self),
                self.well_named(),
                forall|j: int| 0 <= j < i ==> (#[trigger] self@[j]).0 != name@,
            decreases self.buffer.len() - i,
        {
            if same_text(self.buffer[i].0.as_str(), name.as_str()) {
                proof {
                    assert(self@[i as int].0 == name@);
                    let k = column_position(self@, name@)->Some_0;
                    if k < i {
                        assert(self@[k].0 != name@);
                    } else if k > i {
                        assert(self@[i as int].0 != self@[k].0);
                    }
                }
                return i;
            }
            i += 1;
        }
        let ghost before = self@;
        self.buffer.push((name.clone(), RawCol::with_nulls(base)));
        proof {
            let after = self@;
            assert(after =~= before.push((name@, nulls(base as nat))));
            assert(after[i as int].0 == name@);
            assert forall|a: int, b: int| 0 <= a < b < after.len() implies (#[trigger] after[a]).0
                != (#[trigger] after[b]).0 by {
                if b < before.len() {
                    assert(before[a].0 != before[b].0);
                } else {
                    assert(before[a].0 != name@);
                }
            }
            let k = column_position(after, name@)->Some_0;
            if k < i {
                assert(after[k].0 != after[i as int].0);
            }
        }
        i
    }

    /// Pads every column that is shorter than the buffer's length with
    /// nulls.
    fn extend_to_largest(&mut self)
        requires
            old(self).well_named(),
            forall|i: int| 0 <= i < old(self)@.len() ==> (#[trigger] old(self)@[i]).1.len() <= old(
                self,
            ).length,
        ensures
            final(self).wf(),
            final(self).length == old(self).length,
            final(self)@ == padded(old(self)@, old(self).length as nat),
    {
        let target_length = self.length;
        let mut i: usize = 0;
        while i < self.buffer.len()
            invariant
                i <= self.buffer.len(),
                self.length == target_length,
                self.buffer@.len() == old(self).buffer@.len(),
                forall|j: int|
                    0 <= j < old(self)@.len() ==> (#[trigger] old(self)@[j]).1.len() <= target_length,
                forall|j: int| 0 <= j < self.buffer@.len() ==> (#[trigger] self.buffer@[j]).1.wf(),
                forall|j: int|
                    0 <= j < i ==> #[trigger] self@[j] == padded(
                        old(self)@,
                        target_length as nat,
                    )[j],
                forall|j: int| i <= j < self@.len() ==> #[trigger] self@[j] == old(self)@[j],
            decreases self.buffer.len() - i,
        {
            let col_length = self.buffer[i].1.len();
            assert(self@[i as int] == old(self)@[i as int]);
            assert(old(self)@[i as int].1.len() <= target_length);
            let ghost before = self@;
            if col_length < target_length {
                self.buffer[i].1.push_nulls(target_length - col_length);
            }
            proof {
                assert forall|j: int| 0 <= j < i implies #[trigger] self@[j] == padded(
                    old(self)@,
                    target_length as nat,
                )[j] by {
                    assert(self@[j] == before[j]);
                }
                assert forall|j: int| i + 1 <= j < self@.len() implies #[trigger] self@[j] == old(
                    self,
                )@[j] by {
                    assert(self@[j] == before[j]);
                }
            }
            i += 1;
        }
        proof {
            assert(self@ =~= padded(old(self)@, target_length as nat));
            assert forall|a: int, b: int| 0 <= a < b < self@.len() implies (#[trigger] self@[a]).0
                != (#[trigger] self@[b]).0 by {
                assert(old(self)@[a].0 != old(self)@[b].0);
            }
        }
    }

    /// The length of the longest column, and at least `least`.
    fn longest_column(&self, least: usize) -> (n: usize)
        ensures
            n == longest(self@, least as nat),
    {
        let mut n = least;
        let mut i: usize = 0;
        assert(self@.take(0) =~= Seq::<(Seq<char>, Seq<Val>)>::empty());
        while i < self.buffer.len()
            invariant
                i <= self.buffer.len(),
                n == longest(self@.take(i as int), least as nat),
            decreases self.buffer.len() - i,
        {
            assert(self@.take(i + 1).drop_last() =~= self@.take(i as int));
            let l = self.buffer[i].1.len();
            if l > n {
                n = l;
            }
            i += 1;
        }
        assert(self@.take(self@.len() as int) =~= self@);
        n
    }

    /// Sets the length to that of the longest column, and at least `least`,
    /// and pads the other columns to it.
    fn align(&mut self, least: usize)
        requires
            old(self).well_named(),
        ensures
            final(self).wf(),
            final(self).length == longest(old(self)@, least as nat),
            final(self)@ == padded(old(self)@, final(self).length as nat),
    {
        proof {
            lemma_longest(self@, least as nat);
        }
        self.length = self.longest_column(least);
        assert(self@ == old(self)@);
        self.extend_to_largest();
    }

    /// Appends one row: each value goes to the column of its name, and a
    /// column that the row does not name gets a null. A name that the
    /// buffer has not seen starts a column of nulls.
    pub fn push_row(&mut self, row: Vec<(String, RawVal)>)
        requires
            old(self).wf(),
        ensures
            final(self).wf(),
            final(self).length == appended_len(
                old(self)@,
                old(self).length as nat,
                row_inputs(row@),
                after_row(old(self).length as nat),
            ),
            final(self)@ == appended(
                old(self)@,
                old(self).length as nat,
                row_inputs(row@),
                after_row(old(self).length as nat),
            ),
    {
        let len = self.len();
        let ghost inputs = row_inputs(row@);
        let mut i: usize = 0;
        assert(inputs.take(0) =~= Seq::<(Seq<char>, Seq<Val>)>::empty());
        while i < row.len()
            invariant
                i <= row.len(),
                len == old(self).length,
                inputs == row_inputs(row@),
                self.well_named(),
                self@ == pushed_all(old(self)@, len as nat, inputs.take(i as int)),
            decreases row.len() - i,
        {
            assert(inputs.take(i + 1).drop_last() =~= inputs.take(i as int));
            let ghost start = self@;
            let idx = self.column_index(&row[i].0, len);
            let ghost with = self@;
            self.buffer[idx].1.push(row[i].1.clone());
            proof {
                assert(self@[idx as int].1 =~= with[idx as int].1 + inputs[i as int].1);
                lemma_pushed(
                    start,
                    with,
                    self@,
                    len as nat,
                    inputs[i as int].0,
                    inputs[i as int].1,
                    idx as int,
                );
            }
            i += 1;
        }
        assert(inputs.take(row@.len() as int) =~= inputs);
        let least = if len < usize::MAX {
            len + 1
        } else {
            len
        };
        self.align(least);
    }

    /// Appends typed columns: each goes to the column of its name, and
    /// the shorter columns are padded with nulls to the longest.
    pub fn push_typed_cols(&mut self, columns: Vec<(String, InputColumn)>)
        requires
            old(self).wf(),
        ensures
            final(self).wf(),
            final(self).length == appended_len(
                old(self)@,
                old(self).length as nat,
                typed_inputs(columns@),
                old(self).length as nat,
            ),
            final(self)@ == appended(
                old(self)@,
                old(self).length as nat,
                typed_inputs(columns@),
                old(self).length as nat,
            ),
    {
        let len = self.len();
        let ghost inputs = typed_inputs(columns@);
        let mut i: usize = 0;
        assert(inputs.take(0) =~= Seq::<(Seq<char>, Seq<Val>)>::empty());
        while i < columns.len()
            invariant
                i <= columns.len(),
                len == old(self).length,
                inputs == typed_inputs(columns@),
                self.well_named(),
                self@ == pushed_all(old(self)@, len as nat, inputs.take(i as int)),
            decreases columns.len() - i,
        {
            assert(inputs.take(i + 1).drop_last() =~= inputs.take(i as int));
            let ghost start = self@;
            let idx = self.column_index(&columns[i].0, len);
            let ghost with = self@;
            match &columns[i].1 {
                InputColumn::Int(vec) => self.buffer[idx].1.push_ints(vec),
                InputColumn::Str(vec) => self.buffer[idx].1.push_strings(vec),
                InputColumn::Null(c) => self.buffer[idx].1.push_nulls(*c),
            }
            proof {
                lemma_pushed(
                    start,
                    with,
                    self@,
                    len as nat,
                    inputs[i as int].0,
                    inputs[i as int].1,
                    idx as int,
                );
            }
            i += 1;
        }
        assert(inputs.take(columns@.len() as int) =~= inputs);
        self.align(len);
    }

    /// Appends untyped columns: each goes to the column of its name, and
    /// the shorter columns are padded with nulls to the longest.
    pub fn push_untyped_cols(&mut self, columns: Vec<(String, Vec<RawVal>)>)
        requires
            old(self).wf(),
        ensures
            final(self).wf(),
            final(self).length == appended_len(
                old(self)@,
                old(self).length as nat,
                untyped_inputs(columns@),
                old(self).length as nat,
            ),
            final(self)@ == appended(
                old(self)@,
                old(self).length as nat,
                untyped_inputs(columns@),
                old(self).length as nat,
            ),
    {
        let len = self.len();
        let ghost inputs = untyped_inputs(columns@);
        let mut i: usize = 0;
        assert(inputs.take(0) =~= Seq::<(Seq<char>, Seq<Val>)>::empty());
        while i < columns.len()
            invariant
                i <= columns.len(),
                len == old(self).length,
                inputs == untyped_inputs(columns@),
                self.well_named(),
                self@ == pushed_all(old(self)@, len as nat, inputs.take(i as int)),
            decreases columns.len() - i,
        {
            assert(inputs.take(i + 1).drop_last() =~= inputs.take(i as int));
            let ghost start = self@;
            let idx = self.column_index(&columns[i].0, len);
            let ghost with = self@;
            let input_vals = &columns[i].1;
            let ghost added = vals_of(input_vals@);
            let mut j: usize = 0;
            while j < input_vals.len()
                invariant
                    j <= input_vals.len(),
                    idx < self.buffer@.len(),
                    added == vals_of(input_vals@),
                    self.buffer@.len() == with.len(),
                    forall|k: int| 0 <= k < self.buffer@.len() ==> (#[trigger] self.buffer@[k]).1.wf(),
                    forall|k: int| 0 <= k < with.len() && k != idx ==> #[trigger] self@[k] == with[k],
                    self@[idx as int].0 == with[idx as int].0,
                    self@[idx as int].1 == with[idx as int].1 + added.take(j as int),
                decreases input_vals.len() - j,
            {
                let ghost prev = self@;
                self.buffer[idx].1.push(input_vals[j].clone());
                proof {
                    assert(self@[idx as int].1 =~= with[idx as int].1 + added.take(j + 1));
                    assert forall|k: int| 0 <= k < with.len() && k != idx implies #[trigger] self@[k]
                        == with[k] by {
                        assert(self@[k] == prev[k]);
                    }
                }
                j += 1;
            }
            proof {
                assert(added.take(input_vals@.len() as int) =~= added);
                lemma_pushed(
                    start,
                    with,
                    self@,
                    len as nat,
                    inputs[i as int].0,
                    inputs[i as int].1,
                    idx as int,
                );
            }
            i += 1;
        }
        assert(inputs.take(columns@.len() as int) =~= inputs);
        self.align(len);
    }

    /// A buffer of at most 2^32 rows can be frozen: no column holds more
    /// distinct strings than rows.
    pub proof fn lemma_freezable(&self)
        requires
            self.wf(),
            self.length <= u32::MAX as int + 1,
        ensures
            self.freezable(),
    {
        assert forall|i: int| 0 <= i < self@.len() && holds_str((#[trigger] self@[i]).1) implies first_seen(
            stored_texts(self@[i].1),
        ).len() <= u32::MAX as int + 1 by {
            crate::dictionary::lemma_first_seen(stored_texts(self@[i].1));
        }
    }

    /// Whether every column that holds strings has a dictionary that fits:
    /// at most 2^32 distinct strings.
    pub open spec fn freezable(&self) -> bool {
        forall|i: int|
            0 <= i < self@.len() && holds_str((#[trigger] self@[i]).1) ==> first_seen(
                stored_texts(self@[i].1),
            ).len() <= u32::MAX as int + 1
    }

    /// Freezes the columns into a batch.
    pub fn into_batch(&self) -> (batch: Batch)
        requires
            self.wf(),
            self.freezable(),
        ensures
            batch.wf(),
            batch.columns() == frozen_columns(self@),
            batch.cols@.len() == self@.len(),
            forall|i: int|
                0 <= i < self@.len() ==> is_frozen((#[trigger] batch.cols@[i]).data, self@[i].1)
                    && batch.cols@[i].nulls == count_nulls(self@[i].1),
            self@.len() > 0 ==> batch.rows() == self.length,
    {
        let mut cols: Vec<Column> = Vec::with_capacity(self.buffer.len());
        let mut i: usize = 0;
        while i < self.buffer.len()
            invariant
                i <= self.buffer.len(),
                self.wf(),
                self.freezable(),
                cols@.len() == i,
                forall|j: int|
                    0 <= j < i ==> (#[trigger] cols@[j]).name@ == self@[j].0 && is_frozen(
                        cols@[j].data,
                        self@[j].1,
                    ) && cols@[j].nulls == count_nulls(self@[j].1) && cols@[j].wf(),
            decreases self.buffer.len() - i,
        {
            assert(self@[i as int].1 == self.buffer@[i as int].1@);
            let data = self.buffer[i].1.finalize();
            let nulls = self.buffer[i].1.null_count();
            proof {
                crate::raw_col::lemma_count_nulls(self@[i as int].1);
                assert(frozen(self@[i as int].1).len() == self@[i as int].1.len());
            }
            cols.push(Column::new(self.buffer[i].0.clone(), data, nulls));
            i += 1;
        }
        let batch = Batch::new(cols);
        proof {
            assert forall|j: int|
                0 <= j < batch.cols@.len() implies (#[trigger] batch.cols@[j]).values().len()
                == self.length by {
                assert(self@[j].1.len() == self.length);
                assert(frozen(self@[j].1).len() == self@[j].1.len());
            }
            assert forall|a: int, b: int|
                0 <= a < b < batch.cols@.len() implies (#[trigger] batch.cols@[a]).name@
                != (#[trigger] batch.cols@[b]).name@ by {
                assert(self@[a].0 != self@[b].0);
            }
            assert(batch.columns() =~= frozen_columns(self@));
        }
        batch
    }
}

/// Appending to the column at `idx`, which is the column called `name`, is
/// what `pushed` describes.
pub proof fn lemma_pushed(
    start: Columns,
    with: Columns,
    after: Columns,
    base: nat,
    name: Seq<char>,
    added: Seq<Val>,
    idx: int,
)
    requires
        with == with_column(start, base, name),
        column_position(with, name) == Some(idx),
        0 <= idx < with.len(),
        after.len() == with.len(),
        after[idx].0 == with[idx].0,
        after[idx].1 == with[idx].1 + added,
        forall|k: int| 0 <= k < with.len() && k != idx ==> #[trigger] after[k] == with[k],
        distinct_names(with),
    ensures
        after == pushed(start, base, name, added),
        distinct_names(after),
{
    assert(with[idx].0 == name);
    assert(after =~= with.update(idx, (name, with[idx].1 + added)));
    assert forall|a: int, b: int| 0 <= a < b < after.len() implies (#[trigger] after[a]).0
        != (#[trigger] after[b]).0 by {
        assert(with[a].0 != with[b].0);
    }
}

} // verus!
