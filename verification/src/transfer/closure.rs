//! Pruning a selection of tree nodes down to the part whose parent links stay inside it.
use vstd::prelude::*;

use crate::idset::IdSet;

verus! {

/// A node's id and its parent's id.
#[derive(Debug, Clone, Copy)]
pub struct ParentLink {
    pub id: i64,
    pub parent_id: Option<i64>,
}

/// Within `s`, a node is supported when it is a root or its parent is in `s`.
pub open spec fn supported(link: ParentLink, s: Set<i64>) -> bool {
    match link.parent_id {
        None => true,
        Some(p) => s.contains(p),
    }
}

/// Every node selected by `s` is supported by `s`.
pub open spec fn closed(links: Seq<ParentLink>, s: Set<i64>) -> bool {
    forall|i: int| 0 <= i < links.len() && s.contains(#[trigger] links[i].id) ==> supported(links[i], s)
}

/// `r` is the largest subset of `initial` that is closed: it is closed, inside `initial`, and
/// holds every closed subset of `initial`.
pub open spec fn greatest_closed_subset(links: Seq<ParentLink>, initial: Set<i64>, r: Set<i64>) -> bool {
    &&& r.subset_of(initial)
    &&& closed(links, r)
    &&& forall|s: Set<i64>| #[trigger] closed(links, s) && s.subset_of(initial) ==> s.subset_of(r)
}

/// `x` is selected by `s` and names a node whose parent `s` does not select.
pub open spec fn is_dangling(links: Seq<ParentLink>, s: Set<i64>, x: i64) -> bool {
    exists|i: int| 0 <= i < links.len() && #[trigger] links[i].id == x && s.contains(x) && !supported(links[i], s)
}

/// Ids of the selected nodes whose parent is outside the selection.
fn dangling(links: &[ParentLink], current: &IdSet) -> (d: Vec<i64>)
    requires
        current.wf(),
    ensures
        forall|k: int| 0 <= k < d@.len() ==> is_dangling(links@, current.set(), #[trigger] d@[k]),
        d@.len() == 0 ==> closed(links@, current.set()),
{
    let mut d: Vec<i64> = Vec::new();
    let mut i: usize = 0;
    while i < links.len()
        invariant
            current.wf(),
            i <= links.len(),
            forall|k: int| 0 <= k < d@.len() ==> is_dangling(links@, current.set(), #[trigger] d@[k]),
            d@.len() == 0 ==> forall|j: int|
                0 <= j < i && current.set().contains(#[trigger] links@[j].id) ==> supported(
                    links@[j],
                    current.set(),
                ),
        decreases links.len() - i,
    {
        let l = links[i];
        if current.contains(l.id) {
            match l.parent_id {
                Some(p) => {
                    if !current.contains(p) {
                        assert(links@[i as int].id == l.id);
                        assert(is_dangling(links@, current.set(), l.id));
                        d.push(l.id);
                    }
                },
                None => {},
            }
        }
        i = i + 1;
    }
    d
}

/// Shrinks `initial` to its largest subset in which every selected node's parent is selected
/// too, by removing unsupported nodes until none is left.
pub fn prune_to_closure(links: &[ParentLink], initial: IdSet) -> (r: IdSet)
    requires
        initial.wf(),
    ensures
        r.wf(),
        greatest_closed_subset(links@, initial.set(), r.set()),
{
    let mut current = initial;
    loop
        invariant
            current.wf(),
            current.set().subset_of(initial.set()),
            forall|s: Set<i64>|
                #[trigger] closed(links@, s) && s.subset_of(initial.set()) ==> s.subset_of(
                    current.set(),
                ),
        decreases current.size(),
    {
        let d = dangling(links, &current);
        if d.len() == 0 {
            return current;
        }
        let ghost start = current.set();
        let ghost start_size = current.size();
        proof {
            assert(is_dangling(links@, start, d@[0]));
            assert(start.contains(d@[0]));
        }
        let mut k: usize = 0;
        while k < d.len()
            invariant
                current.wf(),
                k <= d.len(),
                current.set() == start.difference(d@.take(k as int).to_set()),
                k > 0 ==> current.size() < start_size,
                current.size() <= start_size,
                start.contains(d@[0]),
            decreases d.len() - k,
        {
            let ghost before = current.set();
            current.remove(d[k]);
            proof {
                assert(d@.take(k + 1 as int) =~= d@.take(k as int).push(d@[k as int]));
                d@.take(k as int).lemma_push_to_set_commute(d@[k as int]);
                assert(current.set() =~= start.difference(d@.take(k + 1 as int).to_set()));
                if k == 0 {
                    assert(before == start);
                }
            }
            k = k + 1;
        }
        proof {
            assert(d@.take(d@.len() as int) =~= d@);
            assert forall|s: Set<i64>|
                #[trigger] closed(links@, s) && s.subset_of(initial.set()) implies s.subset_of(
                current.set(),
            ) by {
                assert forall|x: i64| s.contains(x) implies current.set().contains(x) by {
                    assert(start.contains(x));
                    if d@.to_set().contains(x) {
                        let kk = choose|kk: int| 0 <= kk < d@.len() && d@[kk] == x;
                        assert(is_dangling(links@, start, d@[kk]));
                        let i = choose|i: int|
                            0 <= i < links@.len() && #[trigger] links@[i].id == x && start.contains(x)
                                && !supported(links@[i], start);
                        assert(supported(links@[i], s));
                    }
                }
            }
        }
    }
}

} // verus!
