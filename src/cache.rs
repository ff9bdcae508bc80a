//! A parse-once cache from query text to compiled query.
use vstd::prelude::*;

use crate::text::{copy_text, text_eq};

verus! {

/// Compiled queries by their text. Entries are only ever appended.
pub struct QueryCache<Q> {
    pub entries: Vec<(Vec<char>, Q)>,
}

impl<Q> QueryCache<Q> {
    /// The query texts held, in the order they were first asked for.
    pub open spec fn keys(&self) -> Seq<Seq<char>> {
        self.entries@.map_values(|e: (Vec<char>, Q)| e.0@)
    }

    /// Each query text is held once.
    pub open spec fn wf(&self) -> bool {
        self.keys().no_duplicates()
    }

    pub fn new() -> (r: QueryCache<Q>)
        ensures
            r.entries@.len() == 0,
            r.wf(),
    {
        QueryCache { entries: Vec::new() }
    }

    /// The index of the compiled form of `query_str`. On a miss, `compile`
    /// is called once and its result appended; on a hit nothing changes.
    pub fn query<F: Fn(&Vec<char>) -> Q>(&mut self, query_str: &Vec<char>, compile: F) -> (r: usize)
        requires
            old(self).wf(),
            compile.requires((query_str,)),
        ensures
            final(self).wf(),
            r < final(self).entries@.len(),
            final(self).entries@[r as int].0@ == query_str@,
            old(self).keys().contains(query_str@) ==> final(self).entries@ == old(self).entries@,
            !old(self).keys().contains(query_str@) ==> {
                &&& final(self).entries@.len() == old(self).entries@.len() + 1
                &&& final(self).entries@.subrange(0, r as int) == old(self).entries@
                &&& r == old(self).entries@.len()
                &&& call_ensures(compile, (query_str,), final(self).entries@[r as int].1)
            },
            final(self).keys() == (if old(self).keys().contains(query_str@) {
                old(self).keys()
            } else {
                old(self).keys().push(query_str@)
            }),
    {
        let mut i: usize = 0;
        while i < self.entries.len()
            invariant
                i <= self.entries@.len(),
                self.entries@ == old(self).entries@,
                old(self).wf(),
                forall|j: int| 0 <= j < i ==> (#[trigger] self.entries@[j]).0@ != query_str@,
            decreases self.entries@.len() - i,
        {
            if text_eq(&self.entries[i].0, query_str) {
                assert(self.keys()[i as int] == query_str@);
                assert(self.keys() =~= old(self).keys());
                return i;
            }
            i = i + 1;
        }
        assert(!old(self).keys().contains(query_str@)) by {
            if old(self).keys().contains(query_str@) {
                let k = choose|k: int| 0 <= k < old(self).keys().len() && old(self).keys()[k] == query_str@;
                assert(self.entries@[k].0@ == query_str@);
            }
        }
        let compiled = compile(query_str);
        let ghost before = self.entries@;
        self.entries.push((copy_text(query_str), compiled));
        assert(self.entries@.subrange(0, i as int) =~= before);
        assert(self.keys() =~= old(self).keys().push(query_str@));
        assert forall|a: int, b: int|
            0 <= a < self.keys().len() && 0 <= b < self.keys().len() && a != b implies self.keys()[a]
            != self.keys()[b] by {
            if a < i && b < i {
                assert(self.keys()[a] == old(self).keys()[a] && self.keys()[b] == old(self).keys()[b]);
            } else if a < i {
                assert(self.keys()[a] == old(self).keys()[a]);
            } else if b < i {
                assert(self.keys()[b] == old(self).keys()[b]);
            }
        }
        i
    }

    /// The compiled query at index `i`.
    pub fn get(&self, i: usize) -> (r: &Q)
        requires
            i < self.entries@.len(),
        ensures
            *r == self.entries@[i as int].1,
    {
        &self.entries[i].1
    }
}

} // verus!
