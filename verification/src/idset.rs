//! Ordered sets of 64-bit ids (the role `BTreeSet<i64>` plays).
use vstd::prelude::*;

verus! {

pub open spec fn increasing(v: Seq<i64>) -> bool {
    forall|i: int, j: int| 0 <= i < j < v.len() ==> v[i] < v[j]
}

/// A duplicate-free, increasing collection of ids.
pub struct IdSet {
    pub items: Vec<i64>,
}

impl IdSet {
    pub open spec fn wf(&self) -> bool {
        increasing(self.items@)
    }

    pub open spec fn set(&self) -> Set<i64> {
        self.items@.to_set()
    }

    pub open spec fn size(&self) -> nat {
        self.items@.len()
    }

    pub fn new() -> (r: IdSet)
        ensures
            r.wf(),
            r.set() == Set::<i64>::empty(),
            r.size() == 0,
    {
        let r = IdSet { items: Vec::new() };
        assert(r.set() =~= Set::<i64>::empty());
        r
    }

    fn position(&self, id: i64) -> (r: usize)
        requires
            self.wf(),
        ensures
            r <= self.items@.len(),
            forall|k: int| 0 <= k < r ==> self.items@[k] < id,
            forall|k: int| r <= k < self.items@.len() ==> self.items@[k] >= id,
    {
        let mut i: usize = 0;
        while i < self.items.len() && self.items[i] < id
            invariant
                self.wf(),
                i <= self.items.len(),
                forall|k: int| 0 <= k < i ==> self.items@[k] < id,
            decreases self.items.len() - i,
        {
            i = i + 1;
        }
        proof {
            assert forall|k: int| i <= k < self.items@.len() implies self.items@[k] >= id by {
                if k > i {
                    assert(self.items@[i as int] < self.items@[k]);
                }
            }
        }
        i
    }

    pub fn contains(&self, id: i64) -> (r: bool)
        requires
            self.wf(),
        ensures
            r == self.set().contains(id),
    {
        let i = self.position(id);
        let r = i < self.items.len() && self.items[i] == id;
        proof {
            if !r && self.set().contains(id) {
                let k = choose|k: int| 0 <= k < self.items@.len() && self.items@[k] == id;
                if k > i {
                    assert(self.items@[i as int] < self.items@[k]);
                }
            }
        }
        r
    }

    pub fn insert(&mut self, id: i64)
        requires
            old(self).wf(),
        ensures
            final(self).wf(),
            final(self).set() == old(self).set().insert(id),
    {
        crate::transfer::paths::insert_id(&mut self.items, id);
    }

    pub fn remove(&mut self, id: i64)
        requires
            old(self).wf(),
        ensures
            final(self).wf(),
            final(self).set() == old(self).set().remove(id),
            old(self).set().contains(id) ==> final(self).size() < old(self).size(),
            final(self).size() <= old(self).size(),
    {
        let i = self.position(id);
        if i < self.items.len() && self.items[i] == id {
            let ghost before = self.items@;
            self.items.remove(i);
            proof {
                assert(self.items@ =~= before.remove(i as int));
                assert forall|a: int, b: int| 0 <= a < b < self.items@.len() implies self.items@[a]
                    < self.items@[b] by {
                    if a >= i {
                        assert(self.items@[a] == before[a + 1]);
                        assert(self.items@[b] == before[b + 1]);
                    } else if b >= i {
                        assert(self.items@[b] == before[b + 1]);
                    }
                }
                assert forall|x: i64| #[trigger] self.set().contains(x) <==> before.to_set().remove(
                    id,
                ).contains(x) by {
                    if self.set().contains(x) {
                        let k = choose|k: int| 0 <= k < self.items@.len() && self.items@[k] == x;
                        if k < i {
                            assert(before[k] == x);
                            assert(x < id);
                        } else {
                            assert(before[k + 1] == x);
                            assert(before[i as int] < before[k + 1]);
                        }
                    }
                    if before.to_set().remove(id).contains(x) {
                        let k = choose|k: int| 0 <= k < before.len() && before[k] == x;
                        if k < i {
                            assert(self.items@[k] == x);
                        } else if k > i {
                            assert(self.items@[k - 1] == x);
                        }
                    }
                }
                assert(self.set() =~= before.to_set().remove(id));
            }
        } else {
            proof {
                if self.set().contains(id) {
                    let k = choose|k: int| 0 <= k < self.items@.len() && self.items@[k] == id;
                    if k > i {
                        assert(self.items@[i as int] < self.items@[k]);
                    }
                }
                assert(self.set().remove(id) =~= self.set());
            }
        }
    }

    /// The ids in increasing order.
    pub fn to_vec(&self) -> (v: Vec<i64>)
        ensures
            v@ == self.items@,
    {
        self.items.clone()
    }
}

} // verus!
