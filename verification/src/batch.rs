//! Batches: the columns of one horizontal partition of a table.

use crate::column::Column;
use crate::raw_val::Val;
use vstd::prelude::*;

verus! {

/// The columns of a batch, row-aligned.
pub struct Batch {
    pub cols: Vec<Column>,
}

impl Batch {
    /// The number of rows of the batch.
    pub open spec fn rows(&self) -> nat {
        if self.cols@.len() == 0 {
            0
        } else {
            self.cols@[0].values().len()
        }
    }

    /// Every column is well-formed and has the batch's row count, and no
    /// two columns share a name.
    pub open spec fn wf(&self) -> bool {
        &&& forall|i: int| 0 <= i < self.cols@.len() ==> (#[trigger] self.cols@[i]).wf()
        &&& forall|i: int|
            0 <= i < self.cols@.len() ==> (#[trigger] self.cols@[i]).values().len() == self.rows()
        &&& forall|i: int, j: int|
            0 <= i < j < self.cols@.len() ==> (#[trigger] self.cols@[i]).name@
                != (#[trigger] self.cols@[j]).name@
    }

    /// The names of the columns and their values.
    pub open spec fn columns(&self) -> Seq<(Seq<char>, Seq<Val>)> {
        Seq::new(self.cols@.len(), |i: int| (self.cols@[i].name@, self.cols@[i].values()))
    }

    /// The position of the column called `name`.
    pub open spec fn position(&self, name: Seq<char>) -> Option<int> {
        if exists|i: int| 0 <= i < self.cols@.len() && (#[trigger] self.cols@[i]).name@ == name {
            Some(choose|i: int| 0 <= i < self.cols@.len() && (#[trigger] self.cols@[i]).name@ == name)
        } else {
            None
        }
    }

    /// The column called `name`.
    pub open spec fn column(&self, name: Seq<char>) -> Option<Column> {
        match self.position(name) {
            Some(i) => Some(self.cols@[i]),
            None => None,
        }
    }

    /// A batch of the given columns.
    pub fn new(cols: Vec<Column>) -> (b: Batch)
        ensures
            b.cols == cols,
    {
        Batch { cols }
    }

    /// The number of rows.
    pub fn len(&self) -> (n: usize)
        ensures
            n == self.rows(),
    {
        if self.cols.len() == 0 {
            0
        } else {
            self.cols[0].len()
        }
    }

    /// The column called `name`, or `None` where the batch holds none of
    /// that name.
    pub fn get<'a>(&'a self, name: &str) -> (r: Option<&'a Column>)
        requires
            self.wf(),
        ensures
            match r {
                Some(c) => self.column(name@) == Some(*c),
                None => self.column(name@) is None,
            },
    {
        let mut i: usize = 0;
        while i < self.cols.len()
            invariant
                i <= self.cols.len(),
                self.wf(),
                forall|j: int| 0 <= j < i ==> (#[trigger] self.cols@[j]).name@ != name@,
            decreases self.cols.len() - i,
        {
            if crate::text::same_text(self.cols[i].name(), name) {
                proof {
                    let k = self.position(name@)->Some_0;
                    assert(self.cols@[i as int].name@ == name@);
                    if k < i {
                        assert(self.cols@[k].name@ != self.cols@[i as int].name@);
                    } else if k > i {
                        assert(self.cols@[i as int].name@ != self.cols@[k].name@);
                    }
                }
                return Some(&self.cols[i]);
            }
            i += 1;
        }
        None
    }
}

} // verus!
