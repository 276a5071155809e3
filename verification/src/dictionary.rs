//! String dictionaries: distinct strings in first-seen order, with the
//! reverse lookup from a string to its code.

use vstd::hash_map::StringHashMap;
use vstd::prelude::*;

verus! {

/// The distinct elements of `texts`, each at the place of its first
/// occurrence.
pub open spec fn first_seen(texts: Seq<Seq<char>>) -> Seq<Seq<char>>
    decreases texts.len(),
{
    if texts.len() == 0 {
        Seq::empty()
    } else if first_seen(texts.drop_last()).contains(texts.last()) {
        first_seen(texts.drop_last())
    } else {
        first_seen(texts.drop_last()).push(texts.last())
    }
}

/// The first-seen list holds no string twice, holds exactly the strings of
/// the input, and is no longer than the input.
pub proof fn lemma_first_seen(texts: Seq<Seq<char>>)
    ensures
        first_seen(texts).no_duplicates(),
        first_seen(texts).len() <= texts.len(),
        forall|s: Seq<char>| first_seen(texts).contains(s) <==> texts.contains(s),
    decreases texts.len(),
{
    if texts.len() > 0 {
        let rest = texts.drop_last();
        lemma_first_seen(rest);
        let fs = first_seen(texts);
        assert forall|s: Seq<char>| fs.contains(s) <==> texts.contains(s) by {
            if texts.contains(s) {
                let i = choose|i: int| 0 <= i < texts.len() && texts[i] == s;
                if i < rest.len() {
                    assert(rest[i] == s);
                    assert(rest.contains(s));
                    assert(first_seen(rest).contains(s));
                    let k = choose|k: int| 0 <= k < first_seen(rest).len() && first_seen(rest)[k] == s;
                    assert(fs[k] == s);
                } else {
                    if first_seen(rest).contains(s) {
                    } else {
                        assert(fs[fs.len() - 1] == s);
                    }
                }
            }
            if fs.contains(s) {
                let k = choose|k: int| 0 <= k < fs.len() && fs[k] == s;
                if k < first_seen(rest).len() {
                    assert(first_seen(rest)[k] == s);
                    assert(first_seen(rest).contains(s));
                    assert(rest.contains(s));
                    let i = choose|i: int| 0 <= i < rest.len() && rest[i] == s;
                    assert(texts[i] == s);
                } else {
                    assert(texts[texts.len() - 1] == s);
                }
            }
        }
    }
}

/// The first-seen list of a prefix is a prefix of the first-seen list.
pub proof fn lemma_first_seen_prefix(texts: Seq<Seq<char>>, n: int)
    requires
        0 <= n <= texts.len(),
    ensures
        first_seen(texts.take(n)).len() <= first_seen(texts).len(),
        first_seen(texts.take(n)) == first_seen(texts).take(first_seen(texts.take(n)).len() as int),
    decreases texts.len() - n,
{
    if n == texts.len() {
        assert(texts.take(n) =~= texts);
        assert(first_seen(texts) =~= first_seen(texts).take(first_seen(texts).len() as int));
    } else {
        lemma_first_seen_prefix(texts, n + 1);
        assert(texts.take(n + 1).drop_last() =~= texts.take(n));
        let small = first_seen(texts.take(n));
        let next = first_seen(texts.take(n + 1));
        assert(small =~= next.take(small.len() as int));
        assert(small =~= first_seen(texts).take(small.len() as int));
    }
}

/// A codebook with its reverse lookup.
pub struct Dictionary {
    pub codebook: Vec<String>,
    pub lookup: StringHashMap<usize>,
}

impl Dictionary {
    /// The strings of the codebook, by code.
    pub open spec fn book(&self) -> Seq<Seq<char>> {
        Seq::new(self.codebook.len() as nat, |i: int| self.codebook[i]@)
    }

    /// No string occurs twice, the codes fit in 32 bits, and the lookup is
    /// the inverse of the codebook.
    pub open spec fn wf(&self) -> bool {
        &&& self.codebook.len() <= u32::MAX as int + 1
        &&& self.book().no_duplicates()
        &&& forall|i: int|
            0 <= i < self.codebook.len() ==> self.lookup@.contains_key(#[trigger] self.book()[i])
                && self.lookup@[self.book()[i]] == i
        &&& forall|s: Seq<char>| #[trigger]
            self.lookup@.contains_key(s) ==> self.lookup@[s] < self.codebook.len()
                && self.book()[self.lookup@[s] as int] == s
    }

    /// The empty dictionary.
    pub fn new() -> (d: Dictionary)
        ensures
            d.wf(),
            d.book() == Seq::<Seq<char>>::empty(),
    {
        let d = Dictionary { codebook: Vec::new(), lookup: StringHashMap::new() };
        assert(d.book() =~= Seq::<Seq<char>>::empty());
        d
    }

    /// The number of distinct strings.
    pub fn len(&self) -> (n: usize)
        ensures
            n == self.book().len(),
    {
        self.codebook.len()
    }

    /// The code of `s`, or `None` where the codebook does not hold it.
    pub fn code_of(&self, s: &str) -> (r: Option<usize>)
        requires
            self.wf(),
        ensures
            match r {
                Some(c) => c < self.book().len() && self.book()[c as int] == s@,
                None => !self.book().contains(s@),
            },
    {
        match self.lookup.get(s) {
            Some(c) => Some(*c),
            None => {
                assert(!self.book().contains(s@)) by {
                    if self.book().contains(s@) {
                        let i = choose|i: int| 0 <= i < self.book().len() && self.book()[i] == s@;
                        assert(self.lookup@.contains_key(self.book()[i]));
                    }
                }
                None
            },
        }
    }

    /// The string of a code.
    pub fn get(&self, code: usize) -> (s: &String)
        requires
            code < self.book().len(),
        ensures
            s@ == self.book()[code as int],
    {
        &self.codebook[code]
    }

    /// The code of `s`, which joins the codebook at its end where it is new.
    pub fn intern(&mut self, s: String) -> (code: usize)
        requires
            old(self).wf(),
            !old(self).book().contains(s@) ==> old(self).book().len() <= u32::MAX,
        ensures
            final(self).wf(),
            final(self).book() == if old(self).book().contains(s@) {
                old(self).book()
            } else {
                old(self).book().push(s@)
            },
            code < final(self).book().len(),
            final(self).book()[code as int] == s@,
    {
        match self.code_of(s.as_str()) {
            Some(c) => {
                assert(self.book().contains(s@));
                c
            },
            None => {
                let code = self.codebook.len();
                let ghost before = self.book();
                let ghost lookup_before = self.lookup@;
                self.lookup.insert(s.clone(), code);
                self.codebook.push(s);
                proof {
                    assert(self.book() =~= before.push(s@));
                    assert forall|i: int, j: int|
                        0 <= i < self.book().len() && 0 <= j < self.book().len() && i
                            != j implies self.book()[i] != self.book()[j] by {
                        if i < before.len() {
                            assert(before.contains(before[i]));
                        }
                        if j < before.len() {
                            assert(before.contains(before[j]));
                        }
                    }
                    assert forall|i: int| 0 <= i < self.codebook.len() implies self.lookup@.contains_key(
                        #[trigger] self.book()[i],
                    ) && self.lookup@[self.book()[i]] == i by {
                        if i < before.len() {
                            assert(before.contains(before[i]));
                            assert(lookup_before.contains_key(before[i]));
                        }
                    }
                    assert forall|t: Seq<char>| #[trigger]
                        self.lookup@.contains_key(t) implies self.lookup@[t] < self.codebook.len()
                        && self.book()[self.lookup@[t] as int] == t by {
                        if t != s@ {
                            assert(lookup_before.contains_key(t));
                        }
                    }
                }
                code
            },
        }
    }
}

} // verus!
