//! The expressions of a parsed query.

use crate::raw_val::RawVal;
use vstd::prelude::*;

verus! {

/// The functions of the query language.
#[derive(Clone, Copy, Debug, PartialEq, Eq, Structural)]
pub enum FuncType {
    Equals,
    LT,
    And,
    Or,
}

/// An expression over the columns of a table.
#[derive(Debug)]
pub enum Expr {
    ColName(String),
    Const(RawVal),
    Func(FuncType, Box<Expr>, Box<Expr>),
}

impl Clone for Expr {
    fn clone(&self) -> (r: Self)
        ensures
            r == *self,
        decreases self,
    {
        match self {
            Expr::ColName(name) => Expr::ColName(name.clone()),
            Expr::Const(v) => Expr::Const(v.clone()),
            Expr::Func(func, lhs, rhs) => {
                let l = (**lhs).clone();
                let r = (**rhs).clone();
                Expr::Func(*func, Box::new(l), Box::new(r))
            },
        }
    }
}

/// The strings that a vector of names holds.
pub open spec fn names_of(v: Seq<String>) -> Seq<Seq<char>> {
    Seq::new(v.len(), |i: int| v[i]@)
}

impl Expr {
    /// The names of the columns that the expression refers to.
    pub open spec fn referenced(&self) -> Set<Seq<char>>
        decreases self,
    {
        match self {
            Expr::ColName(name) => set![name@],
            Expr::Const(_) => Set::empty(),
            Expr::Func(_, lhs, rhs) => lhs.referenced().union(rhs.referenced()),
        }
    }

    /// The list `acc` with the column names of the expression added, each
    /// new name at the end, in the order in which the expression mentions
    /// them.
    pub open spec fn names_after(&self, acc: Seq<Seq<char>>) -> Seq<Seq<char>>
        decreases self,
    {
        match self {
            Expr::ColName(name) => if acc.contains(name@) {
                acc
            } else {
                acc.push(name@)
            },
            Expr::Const(_) => acc,
            Expr::Func(_, lhs, rhs) => rhs.names_after(lhs.names_after(acc)),
        }
    }

    /// Adding the names of an expression keeps a list free of duplicates and
    /// adds exactly the referenced names to it.
    pub proof fn lemma_names_after(&self, acc: Seq<Seq<char>>)
        requires
            acc.no_duplicates(),
        ensures
            self.names_after(acc).no_duplicates(),
            self.names_after(acc).to_set() == acc.to_set().union(self.referenced()),
        decreases self,
    {
        match self {
            Expr::ColName(name) => {
                if !acc.contains(name@) {
                    assert forall|s: Seq<char>| acc.push(name@).contains(s) <==> (acc.contains(s) || s
                        == name@) by {
                        if acc.contains(s) {
                            let i = choose|i: int| 0 <= i < acc.len() && acc[i] == s;
                            assert(acc.push(name@)[i] == s);
                        }
                        if s == name@ {
                            assert(acc.push(name@)[acc.len() as int] == s);
                        }
                    }
                }
                assert(self.names_after(acc).to_set() =~= acc.to_set().union(self.referenced()));
            },
            Expr::Const(_) => {
                assert(acc.to_set() =~= acc.to_set().union(self.referenced()));
            },
            Expr::Func(_, lhs, rhs) => {
                lhs.lemma_names_after(acc);
                rhs.lemma_names_after(lhs.names_after(acc));
                assert(self.names_after(acc).to_set() =~= acc.to_set().union(self.referenced()));
            },
        }
    }

    /// Adds the names of the columns that the expression refers to, each
    /// once.
    pub fn add_colnames(&self, result: &mut Vec<String>)
        ensures
            names_of(final(result)@) == self.names_after(names_of(old(result)@)),
        decreases self,
    {
        match self {
            Expr::ColName(name) => {
                let mut found = false;
                let mut i: usize = 0;
                while i < result.len()
                    invariant
                        i <= result.len(),
                        *result == *old(result),
                        found == exists|j: int| 0 <= j < i && names_of(result@)[j] == name@,
                    decreases result.len() - i,
                {
                    if result[i] == *name {
                        found = true;
                        assert(names_of(result@)[i as int] == name@);
                    }
                    i += 1;
                }
                if !found {
                    result.push(name.clone());
                    assert(names_of(result@) =~= names_of(old(result)@).push(name@));
                }
            },
            Expr::Const(_) => {},
            Expr::Func(_, lhs, rhs) => {
                lhs.add_colnames(result);
                rhs.add_colnames(result);
            },
        }
    }
}

} // verus!
