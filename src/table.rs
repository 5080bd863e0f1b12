use vstd::prelude::*;

use crate::value::{Value, ValueModel};

verus! {

/// The variable table: names (case-sensitive) bound to values, at most one
/// binding per name, the last assignment winning.
pub struct Variables {
    entries: Vec<(String, Value)>,
}

impl Variables {
    /// No two entries share a name.
    pub closed spec fn wf(&self) -> bool {
        forall|i: int, j: int|
            0 <= i < j < self.entries@.len() ==> #[trigger] self.entries@[i].0@
                != #[trigger] self.entries@[j].0@
    }

    /// The entry holding `k` is at index `i`.
    pub closed spec fn holds_at(&self, k: Seq<char>, i: int) -> bool {
        0 <= i < self.entries@.len() && self.entries@[i].0@ == k
    }

    pub closed spec fn spec_len(&self) -> nat {
        self.entries@.len()
    }

    proof fn lemma_lookup(&self, k: Seq<char>, i: int)
        requires
            self.wf(),
            self.holds_at(k, i),
        ensures
            self@.contains_key(k),
            self@[k] == self.entries@[i].1@,
    {
        let j = choose|j: int| self.holds_at(k, j);
        assert(self.holds_at(k, j));
        if j < i {
            assert(self.entries@[j].0@ != self.entries@[i].0@);
        } else if i < j {
            assert(self.entries@[i].0@ != self.entries@[j].0@);
        }
    }
}

impl View for Variables {
    type V = Map<Seq<char>, ValueModel>;

    closed spec fn view(&self) -> Map<Seq<char>, ValueModel> {
        Map::new(
            |k: Seq<char>| exists|i: int| self.holds_at(k, i),
            |k: Seq<char>| self.entries@[choose|i: int| self.holds_at(k, i)].1@,
        )
    }
}

impl Variables {
    /// An empty table.
    pub fn new() -> (r: Variables)
        ensures
            r.wf(),
            r@ == Map::<Seq<char>, ValueModel>::empty(),
    {
        let r = Variables { entries: Vec::new() };
        assert(r@ =~= Map::<Seq<char>, ValueModel>::empty());
        r
    }

    /// The index of the entry for `name`, if there is one.
    fn find(&self, name: &String) -> (r: Option<usize>)
        requires
            self.wf(),
        ensures
            match r {
                Some(i) => self.holds_at(name@, i as int),
                None => !self@.contains_key(name@),
            },
    {
        let mut i: usize = 0;
        while i < self.entries.len()
            invariant
                i <= self.entries@.len(),
                forall|j: int| 0 <= j < i ==> self.entries@[j].0@ != name@,
            decreases self.entries@.len() - i,
        {
            if self.entries[i].0 == *name {
                return Some(i);
            }
            i = i + 1;
        }
        None
    }

    /// The value bound to `name`, if any.
    pub fn get(&self, name: &String) -> (r: Option<&Value>)
        requires
            self.wf(),
        ensures
            match r {
                Some(v) => self@.contains_key(name@) && self@[name@] == v@,
                None => !self@.contains_key(name@),
            },
    {
        match self.find(name) {
            Some(i) => {
                proof {
                    self.lemma_lookup(name@, i as int);
                }
                Some(&self.entries[i].1)
            },
            None => None,
        }
    }

    /// Binds `name` to `value`, replacing an earlier binding of the same name.
    pub fn insert(&mut self, name: String, value: Value)
        requires
            old(self).wf(),
        ensures
            final(self).wf(),
            final(self)@ == old(self)@.insert(name@, value@),
    {
        let ghost k = name@;
        let ghost vm = value@;
        match self.find(&name) {
            Some(i) => {
                self.entries.set(i, (name, value));
                proof {
                    assert forall|a: int, b: int|
                        0 <= a < b < self.entries@.len() implies #[trigger] self.entries@[a].0@
                        != #[trigger] self.entries@[b].0@ by {
                        assert(old(self).entries@[a].0@ != old(self).entries@[b].0@);
                    }
                    assert forall|q: Seq<char>| #[trigger] self@.contains_key(q)
                        == old(self)@.insert(k, vm).contains_key(q) by {
                        if exists|x: int| old(self).holds_at(q, x) {
                            let x = choose|x: int| old(self).holds_at(q, x);
                            assert(self.holds_at(q, x) || q == k);
                        }
                        if exists|x: int| self.holds_at(q, x) {
                            let x = choose|x: int| self.holds_at(q, x);
                            assert(old(self).holds_at(q, x) || q == k);
                        }
                    }
                    assert forall|q: Seq<char>| #[trigger] self@.contains_key(q) implies self@[q]
                        == old(self)@.insert(k, vm)[q] by {
                        let x = choose|x: int| self.holds_at(q, x);
                        assert(self.holds_at(q, x));
                        if q == k {
                            assert(self.holds_at(q, i as int));
                            assert(x == i) by {
                                if x < i {
                                    assert(self.entries@[x].0@ != self.entries@[i as int].0@);
                                } else if i < x {
                                    assert(self.entries@[i as int].0@ != self.entries@[x].0@);
                                }
                            }
                        } else {
                            assert(old(self).holds_at(q, x));
                            let y = choose|y: int| old(self).holds_at(q, y);
                            assert(old(self).holds_at(q, y));
                            assert(x == y) by {
                                if x < y {
                                    assert(old(self).entries@[x].0@ != old(self).entries@[y].0@);
                                } else if y < x {
                                    assert(old(self).entries@[y].0@ != old(self).entries@[x].0@);
                                }
                            }
                        }
                    }
                    assert(self@ =~= old(self)@.insert(k, vm));
                }
            },
            None => {
                self.entries.push((name, value));
                proof {
                    let n = old(self).entries@.len() as int;
                    assert forall|a: int, b: int|
                        0 <= a < b < self.entries@.len() implies #[trigger] self.entries@[a].0@
                        != #[trigger] self.entries@[b].0@ by {
                        if b == n {
                            assert(!old(self).holds_at(k, a));
                        } else {
                            assert(old(self).entries@[a].0@ != old(self).entries@[b].0@);
                        }
                    }
                    assert forall|q: Seq<char>| #[trigger] self@.contains_key(q)
                        == old(self)@.insert(k, vm).contains_key(q) by {
                        if exists|x: int| old(self).holds_at(q, x) {
                            let x = choose|x: int| old(self).holds_at(q, x);
                            assert(self.holds_at(q, x));
                        }
                        if q == k {
                            assert(self.holds_at(q, n));
                        }
                        if exists|x: int| self.holds_at(q, x) {
                            let x = choose|x: int| self.holds_at(q, x);
                            assert(old(self).holds_at(q, x) || q == k);
                        }
                    }
                    assert forall|q: Seq<char>| #[trigger] self@.contains_key(q) implies self@[q]
                        == old(self)@.insert(k, vm)[q] by {
                        let x = choose|x: int| self.holds_at(q, x);
                        assert(self.holds_at(q, x));
                        if q == k {
                            assert(x == n) by {
                                if x < n {
                                    assert(old(self).holds_at(k, x));
                                }
                            }
                        } else {
                            assert(old(self).holds_at(q, x));
                            let y = choose|y: int| old(self).holds_at(q, y);
                            assert(old(self).holds_at(q, y));
                            assert(x == y) by {
                                if x < y {
                                    assert(old(self).entries@[x].0@ != old(self).entries@[y].0@);
                                } else if y < x {
                                    assert(old(self).entries@[y].0@ != old(self).entries@[x].0@);
                                }
                            }
                        }
                    }
                    assert(self@ =~= old(self)@.insert(k, vm));
                }
            },
        }
    }

    /// The number of bindings.
    pub fn len(&self) -> (r: usize)
        ensures
            r == self.spec_len(),
    {
        self.entries.len()
    }

    /// The binding stored at position `i`, in order of first assignment.
    pub fn entry(&self, i: usize) -> (r: (&String, &Value))
        requires
            self.wf(),
            i < self.spec_len(),
        ensures
            self.holds_at(r.0@, i as int),
            self@.contains_key(r.0@),
            self@[r.0@] == r.1@,
    {
        proof {
            self.lemma_lookup(self.entries@[i as int].0@, i as int);
        }
        (&self.entries[i].0, &self.entries[i].1)
    }
}

} // verus!
