//! The table of execute requests still in flight: request identifier to
//! the index of the cell that issued it.

use vstd::prelude::*;

verus! {

/// Outstanding execute requests, keyed by request identifier.
pub struct PendingTable {
    entries: Vec<(String, usize)>,
    table: Ghost<Map<Seq<char>, usize>>,
}

impl View for PendingTable {
    type V = Map<Seq<char>, usize>;

    closed spec fn view(&self) -> Map<Seq<char>, usize> {
        self.table@
    }
}

impl PendingTable {
    /// The entries hold distinct identifiers and are exactly the map.
    pub closed spec fn wf(&self) -> bool {
        let e = self.entries@;
        let m = self.table@;
        &&& m.dom().finite()
        &&& m.dom().len() == e.len()
        &&& forall|i: int, j: int| 0 <= i < j < e.len() ==> e[i].0@ != e[j].0@
        &&& forall|i: int|
            0 <= i < e.len() ==> #[trigger] m.contains_key(e[i].0@) && m[e[i].0@] == e[i].1
        &&& forall|k: Seq<char>| #[trigger] m.contains_key(k) ==> exists|i: int|
            0 <= i < e.len() && e[i].0@ == k
    }

    /// An empty table.
    pub fn new() -> (r: PendingTable)
        ensures
            r.wf(),
            r@ == Map::<Seq<char>, usize>::empty(),
    {
        PendingTable { entries: Vec::new(), table: Ghost(Map::empty()) }
    }

    /// Number of outstanding requests.
    pub fn len(&self) -> (r: usize)
        requires
            self.wf(),
        ensures
            r == self@.len(),
    {
        self.entries.len()
    }

    fn position(&self, id: &String) -> (r: Option<usize>)
        requires
            self.wf(),
        ensures
            r matches Some(i) ==> i < self.entries@.len() && self.entries@[i as int].0@ == id@,
            r is None ==> !self@.contains_key(id@),
    {
        let mut i: usize = 0;
        while i < self.entries.len()
            invariant
                self.wf(),
                i <= self.entries@.len(),
                forall|j: int| 0 <= j < i ==> self.entries@[j].0@ != id@,
            decreases self.entries@.len() - i,
        {
            if self.entries[i].0 == *id {
                return Some(i);
            }
            i = i + 1;
        }
        None
    }

    /// The cell that issued request `id`, if it is outstanding.
    pub fn get(&self, id: &String) -> (r: Option<usize>)
        requires
            self.wf(),
        ensures
            r == (if self@.contains_key(id@) { Some(self@[id@]) } else { None::<usize> }),
    {
        match self.position(id) {
            Some(i) => Some(self.entries[i].1),
            None => None,
        }
    }

    /// Records that request `id` was issued by cell `cell`.
    pub fn insert(&mut self, id: String, cell: usize)
        requires
            old(self).wf(),
        ensures
            final(self).wf(),
            final(self)@ == old(self)@.insert(id@, cell),
    {
        let ghost m0 = self.table@;
        match self.position(&id) {
            Some(i) => {
                let ghost e0 = self.entries@;
                self.entries.set(i, (id, cell));
                self.table = Ghost(m0.insert(e0[i as int].0@, cell));
                proof {
                    assert(m0.dom().insert(e0[i as int].0@) =~= m0.dom());
                    let e = self.entries@;
                    let m = self.table@;
                    assert forall|k: Seq<char>| #[trigger] m.contains_key(k) implies exists|j: int|
                        0 <= j < e.len() && e[j].0@ == k by {
                        let j = choose|j: int| 0 <= j < e0.len() && e0[j].0@ == k;
                        assert(e[j].0@ == k);
                    }
                }
            },
            None => {
                let ghost e0 = self.entries@;
                let ghost k = id@;
                self.entries.push((id, cell));
                self.table = Ghost(m0.insert(k, cell));
                proof {
                    let e = self.entries@;
                    let m = self.table@;
                    assert(e[e0.len() as int].0@ == k);
                    assert forall|k2: Seq<char>| #[trigger] m.contains_key(k2) implies exists|j: int|
                        0 <= j < e.len() && e[j].0@ == k2 by {
                        if k2 != k {
                            let j = choose|j: int| 0 <= j < e0.len() && e0[j].0@ == k2;
                            assert(e[j].0@ == k2);
                        } else {
                            assert(e[e0.len() as int].0@ == k2);
                        }
                    }
                    assert forall|i: int| 0 <= i < e.len() implies #[trigger] m.contains_key(e[i].0@)
                        && m[e[i].0@] == e[i].1 by {
                        if i < e0.len() {
                            assert(e[i] == e0[i]);
                        }
                    }
                }
            },
        }
    }

    /// Removes request `id`, returning the cell that issued it if it was
    /// outstanding.
    pub fn remove(&mut self, id: &String) -> (r: Option<usize>)
        requires
            old(self).wf(),
        ensures
            final(self).wf(),
            final(self)@ == old(self)@.remove(id@),
            r == (if old(self)@.contains_key(id@) { Some(old(self)@[id@]) } else { None::<usize> }),
    {
        let ghost m0 = self.table@;
        let ghost e0 = self.entries@;
        match self.position(id) {
            Some(i) => {
                let pair = self.entries.remove(i);
                self.table = Ghost(m0.remove(id@));
                proof {
                    let e = self.entries@;
                    let m = self.table@;
                    assert forall|a: int, b: int| 0 <= a < b < e.len() implies e[a].0@ != e[b].0@ by {
                        let a0 = if a < i { a } else { a + 1 };
                        let b0 = if b < i { b } else { b + 1 };
                        assert(e[a] == e0[a0] && e[b] == e0[b0]);
                    }
                    assert forall|j: int| 0 <= j < e.len() implies #[trigger] m.contains_key(e[j].0@)
                        && m[e[j].0@] == e[j].1 by {
                        let j0 = if j < i { j } else { j + 1 };
                        assert(e[j] == e0[j0]);
                        if j0 < i {
                            assert(e0[j0].0@ != e0[i as int].0@);
                        } else {
                            assert(e0[i as int].0@ != e0[j0].0@);
                        }
                        assert(m0.contains_key(e0[j0].0@));
                    }
                    assert forall|k: Seq<char>| #[trigger] m.contains_key(k) implies exists|j: int|
                        0 <= j < e.len() && e[j].0@ == k by {
                        let j0 = choose|j: int| 0 <= j < e0.len() && e0[j].0@ == k;
                        assert(j0 != i);
                        let j = if j0 < i { j0 } else { j0 - 1 };
                        assert(e[j] == e0[j0]);
                    }
                }
                Some(pair.1)
            },
            None => {
                proof {
                    assert(m0.remove(id@) =~= m0);
                }
                None
            },
        }
    }

    /// Forgets every outstanding request.
    pub fn clear(&mut self)
        ensures
            final(self).wf(),
            final(self)@ == Map::<Seq<char>, usize>::empty(),
    {
        self.entries.clear();
        self.table = Ghost(Map::empty());
    }
}

} // verus!
