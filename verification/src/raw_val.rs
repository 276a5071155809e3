//! The universal value of the ingestion path and its mathematical model.

use vstd::prelude::*;
use vstd::std_specs::cmp::PartialEqSpecImpl;

verus! {

/// The mathematical value that a cell of a table denotes.
pub enum Val {
    Null,
    Int(int),
    Str(Seq<char>),
}

/// A single untyped input value.
#[derive(Debug)]
pub enum RawVal {
    Null,
    Int(i64),
    Str(String),
}

/// The basic type of a value or of a column.
#[derive(Clone, Copy, Debug, PartialEq, Eq, Structural)]
pub enum BasicType {
    Integer,
    String,
    Boolean,
    Null,
}

impl View for RawVal {
    type V = Val;

    open spec fn view(&self) -> Val {
        match self {
            RawVal::Null => Val::Null,
            RawVal::Int(i) => Val::Int(*i as int),
            RawVal::Str(s) => Val::Str(s@),
        }
    }
}

impl Val {
    /// The basic type of the value.
    pub open spec fn basic_type(self) -> BasicType {
        match self {
            Val::Null => BasicType::Null,
            Val::Int(_) => BasicType::Integer,
            Val::Str(_) => BasicType::String,
        }
    }
}

impl Clone for RawVal {
    fn clone(&self) -> (r: Self)
        ensures
            r == *self,
    {
        match self {
            RawVal::Null => RawVal::Null,
            RawVal::Int(i) => RawVal::Int(*i),
            RawVal::Str(s) => RawVal::Str(s.clone()),
        }
    }
}

impl PartialEq for RawVal {
    fn eq(&self, other: &Self) -> (r: bool) {
        match (self, other) {
            (RawVal::Null, RawVal::Null) => true,
            (RawVal::Int(a), RawVal::Int(b)) => *a == *b,
            (RawVal::Str(a), RawVal::Str(b)) => *a == *b,
            _ => false,
        }
    }
}

impl PartialEqSpecImpl for RawVal {
    open spec fn obeys_eq_spec() -> bool {
        true
    }

    open spec fn eq_spec(&self, other: &Self) -> bool {
        self@ == other@
    }
}

impl RawVal {
    /// The basic type of the value.
    pub fn get_type(&self) -> (t: BasicType)
        ensures
            t == self@.basic_type(),
    {
        match self {
            RawVal::Null => BasicType::Null,
            RawVal::Int(_) => BasicType::Integer,
            RawVal::Str(_) => BasicType::String,
        }
    }
}

} // verus!
