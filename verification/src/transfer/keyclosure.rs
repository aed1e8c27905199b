//! Pruning a selection of string-keyed nodes down to the part whose parent links stay inside it.
use vstd::prelude::*;

use crate::strset::StrSet;

verus! {

/// A node's key, its parent's key, and whether the parent may not hold children at all.
pub struct KeyLink {
    pub key: String,
    pub parent: Option<String>,
    pub parent_blocked: bool,
}

/// Within `s`, a node is supported when it is a root, or its parent is in `s` and may hold
/// children.
pub open spec fn key_supported(link: KeyLink, s: Set<Seq<char>>) -> bool {
    match link.parent {
        None => true,
        Some(p) => s.contains(p@) && !link.parent_blocked,
    }
}

/// Every node selected by `s` is supported by `s`.
pub open spec fn keys_closed(links: Seq<KeyLink>, s: Set<Seq<char>>) -> bool {
    forall|i: int| 0 <= i < links.len() && s.contains(#[trigger] links[i].key@) ==> key_supported(links[i], s)
}

/// `r` is the largest closed subset of `initial`.
pub open spec fn greatest_closed_key_subset(links: Seq<KeyLink>, initial: Set<Seq<char>>, r: Set<Seq<char>>) -> bool {
    &&& r.subset_of(initial)
    &&& keys_closed(links, r)
    &&& forall|s: Set<Seq<char>>| #[trigger] keys_closed(links, s) && s.subset_of(initial) ==> s.subset_of(r)
}

pub open spec fn key_dangling(links: Seq<KeyLink>, s: Set<Seq<char>>, x: Seq<char>) -> bool {
    exists|i: int| 0 <= i < links.len() && #[trigger] links[i].key@ == x && s.contains(x) && !key_supported(links[i], s)
}

fn dangling_keys(links: &[KeyLink], current: &StrSet) -> (d: Vec<String>)
    requires
        current.wf(),
    ensures
        forall|k: int| 0 <= k < d@.len() ==> key_dangling(links@, current.set(), #[trigger] d@[k]@),
        d@.len() == 0 ==> keys_closed(links@, current.set()),
{
    let mut d: Vec<String> = Vec::new();
    let mut i: usize = 0;
    while i < links.len()
        invariant
            current.wf(),
            i <= links.len(),
            forall|k: int| 0 <= k < d@.len() ==> key_dangling(links@, current.set(), #[trigger] d@[k]@),
            d@.len() == 0 ==> forall|j: int|
                0 <= j < i && current.set().contains(#[trigger] links@[j].key@) ==> key_supported(
                    links@[j],
                    current.set(),
                ),
        decreases links.len() - i,
    {
        let l = &links[i];
        if current.contains(l.key.as_str()) {
            let ok = match &l.parent {
                Some(p) => current.contains(p.as_str()) && !l.parent_blocked,
                None => true,
            };
            if !ok {
                assert(links@[i as int].key@ == l.key@);
                assert(key_dangling(links@, current.set(), l.key@));
                d.push(l.key.clone());
            }
        }
        i = i + 1;
    }
    d
}

/// Shrinks `initial` to its largest subset in which every selected node is supported.
pub fn prune_keys_to_closure(links: &[KeyLink], initial: StrSet) -> (r: StrSet)
    requires
        initial.wf(),
    ensures
        r.wf(),
        greatest_closed_key_subset(links@, initial.set(), r.set()),
{
    let mut current = initial;
    loop
        invariant
            current.wf(),
            current.set().subset_of(initial.set()),
            forall|s: Set<Seq<char>>|
                #[trigger] keys_closed(links@, s) && s.subset_of(initial.set()) ==> s.subset_of(
                    current.set(),
                ),
        decreases current.seq().len(),
    {
        let d = dangling_keys(links, &current);
        if d.len() == 0 {
            return current;
        }
        let ghost start = current.set();
        let ghost start_size = current.seq().len();
        let ghost dv = d@.map_values(|s: String| s@);
        proof {
            assert(key_dangling(links@, start, d@[0]@));
            assert(start.contains(d@[0]@));
            assert(dv[0] == d@[0]@);
        }
        let mut k: usize = 0;
        while k < d.len()
            invariant
                current.wf(),
                k <= d.len(),
                dv == d@.map_values(|s: String| s@),
                current.set() == start.difference(dv.take(k as int).to_set()),
                k > 0 ==> current.seq().len() < start_size,
                current.seq().len() <= start_size,
                start.contains(dv[0]),
                dv.len() == d@.len(),
            decreases d.len() - k,
        {
            let ghost before = current.set();
            current.remove(d[k].as_str());
            proof {
                assert(dv[k as int] == d@[k as int]@);
                assert(dv.take(k + 1 as int) =~= dv.take(k as int).push(dv[k as int]));
                dv.take(k as int).lemma_push_to_set_commute(dv[k as int]);
                assert(current.set() =~= start.difference(dv.take(k + 1 as int).to_set()));
                if k == 0 {
                    assert(before == start);
                }
            }
            k = k + 1;
        }
        proof {
            assert(dv.take(dv.len() as int) =~= dv);
            assert forall|s: Set<Seq<char>>|
                #[trigger] keys_closed(links@, s) && s.subset_of(initial.set()) implies s.subset_of(
                current.set(),
            ) by {
                assert forall|x: Seq<char>| s.contains(x) implies current.set().contains(x) by {
                    assert(start.contains(x));
                    if dv.to_set().contains(x) {
                        let kk = choose|kk: int| 0 <= kk < dv.len() && dv[kk] == x;
                        assert(dv[kk] == d@[kk]@);
                        assert(key_dangling(links@, start, d@[kk]@));
                        let i = choose|i: int|
                            0 <= i < links@.len() && #[trigger] links@[i].key@ == x && start.contains(x)
                                && !key_supported(links@[i], start);
                        assert(key_supported(links@[i], s));
                    }
                }
            }
        }
    }
}

/// Two largest closed subsets of the same selection coincide.
pub proof fn lemma_greatest_closed_key_subset_unique(
    links: Seq<KeyLink>,
    initial: Set<Seq<char>>,
    a: Set<Seq<char>>,
    b: Set<Seq<char>>,
)
    requires
        greatest_closed_key_subset(links, initial, a),
        greatest_closed_key_subset(links, initial, b),
    ensures
        a == b,
{
    assert(keys_closed(links, a) && a.subset_of(initial));
    assert(keys_closed(links, b) && b.subset_of(initial));
    assert(a =~= b);
}

/// The largest closed subset of `initial` (it always exists: see `prune_keys_to_closure`).
pub open spec fn closure_of_keys(links: Seq<KeyLink>, initial: Set<Seq<char>>) -> Set<Seq<char>> {
    choose|r: Set<Seq<char>>| greatest_closed_key_subset(links, initial, r)
}

pub proof fn lemma_closure_of_keys(links: Seq<KeyLink>, initial: Set<Seq<char>>, r: Set<Seq<char>>)
    requires
        greatest_closed_key_subset(links, initial, r),
    ensures
        closure_of_keys(links, initial) == r,
{
    let c = closure_of_keys(links, initial);
    assert(greatest_closed_key_subset(links, initial, c));
    lemma_greatest_closed_key_subset_unique(links, initial, c, r);
}


/// The union of all closed subsets of `initial` is itself closed: the largest closed subset
/// always exists, and `closure_of_keys` is it.
pub proof fn lemma_closure_exists(links: Seq<KeyLink>, initial: Set<Seq<char>>)
    ensures
        greatest_closed_key_subset(links, initial, closure_of_keys(links, initial)),
{
    let u = Set::new(|x: Seq<char>| exists|s: Set<Seq<char>>| #[trigger] keys_closed(links, s) && s.subset_of(initial) && s.contains(x));
    assert(u.subset_of(initial)) by {
        assert forall|x: Seq<char>| u.contains(x) implies initial.contains(x) by {
            let s = choose|s: Set<Seq<char>>| #[trigger] keys_closed(links, s) && s.subset_of(initial) && s.contains(x);
        }
    }
    assert(keys_closed(links, u)) by {
        assert forall|i: int| 0 <= i < links.len() && u.contains(#[trigger] links[i].key@) implies key_supported(links[i], u) by {
            let x = links[i].key@;
            let s = choose|s: Set<Seq<char>>| #[trigger] keys_closed(links, s) && s.subset_of(initial) && s.contains(x);
            assert(key_supported(links[i], s));
            match links[i].parent {
                Some(p) => {
                    assert(s.contains(p@));
                    assert(u.contains(p@));
                },
                None => {},
            }
        }
    }
    assert forall|s: Set<Seq<char>>| #[trigger] keys_closed(links, s) && s.subset_of(initial) implies s.subset_of(u) by {
        assert forall|x: Seq<char>| s.contains(x) implies u.contains(x) by {
            assert(keys_closed(links, s) && s.subset_of(initial) && s.contains(x));
        }
    }
    assert(greatest_closed_key_subset(links, initial, u));
    lemma_closure_of_keys(links, initial, u);
}

} // verus!
