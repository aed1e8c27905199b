//! Ordered sets of strings, ordered as `String`'s `Ord` orders them.
use vstd::prelude::*;

use crate::text::{chars_of, seq_lt};

verus! {

pub proof fn lemma_lt_irreflexive(a: Seq<char>)
    ensures
        !seq_lt(a, a),
    decreases a.len(),
{
    if a.len() > 0 {
        lemma_lt_irreflexive(a.drop_first());
    }
}

pub proof fn lemma_lt_asymmetric(a: Seq<char>, b: Seq<char>)
    ensures
        !(seq_lt(a, b) && seq_lt(b, a)),
    decreases a.len(),
{
    if a.len() > 0 && b.len() > 0 && a[0] == b[0] {
        lemma_lt_asymmetric(a.drop_first(), b.drop_first());
    }
}

pub proof fn lemma_lt_total(a: Seq<char>, b: Seq<char>)
    ensures
        a != b ==> seq_lt(a, b) || seq_lt(b, a),
    decreases a.len(),
{
    if a.len() > 0 && b.len() > 0 {
        if a[0] == b[0] {
            lemma_lt_total(a.drop_first(), b.drop_first());
            if a.drop_first() == b.drop_first() {
                assert(a =~= seq![a[0]] + a.drop_first());
                assert(b =~= seq![b[0]] + b.drop_first());
            }
        } else {
            assert((a[0] as int) != (b[0] as int));
        }
    } else if a.len() == 0 && b.len() == 0 {
        assert(a =~= b);
    }
}

pub proof fn lemma_lt_transitive(a: Seq<char>, b: Seq<char>, c: Seq<char>)
    requires
        seq_lt(a, b),
        seq_lt(b, c),
    ensures
        seq_lt(a, c),
    decreases a.len(),
{
    if a.len() > 0 && b.len() > 0 && c.len() > 0 {
        if a[0] == b[0] && b[0] == c[0] {
            lemma_lt_transitive(a.drop_first(), b.drop_first(), c.drop_first());
        }
    }
}

proof fn lemma_lt_step(a: Seq<char>, b: Seq<char>, i: int)
    requires
        0 <= i < a.len(),
        i < b.len(),
        a[i] == b[i],
    ensures
        seq_lt(a.skip(i), b.skip(i)) == seq_lt(a.skip(i + 1), b.skip(i + 1)),
{
    assert(a.skip(i).drop_first() =~= a.skip(i + 1));
    assert(b.skip(i).drop_first() =~= b.skip(i + 1));
}

/// Strict order of two character slices.
pub fn chars_lt(a: &[char], b: &[char]) -> (r: bool)
    ensures
        r == seq_lt(a@, b@),
{
    let mut i: usize = 0;
    assert(a@.skip(0) =~= a@);
    assert(b@.skip(0) =~= b@);
    while i < a.len() && i < b.len() && a[i] == b[i]
        invariant
            i <= a.len(),
            i <= b.len(),
            seq_lt(a@, b@) == seq_lt(a@.skip(i as int), b@.skip(i as int)),
        decreases a.len() - i,
    {
        proof {
            lemma_lt_step(a@, b@, i as int);
        }
        i = i + 1;
    }
    if i == a.len() {
        assert(a@.skip(i as int).len() == 0);
        i < b.len()
    } else if i == b.len() {
        false
    } else {
        assert(a@.skip(i as int)[0] == a@[i as int]);
        assert(b@.skip(i as int)[0] == b@[i as int]);
        a[i] < b[i]
    }
}

/// Strict order of two strings.
pub fn str_lt(a: &str, b: &str) -> (r: bool)
    ensures
        r == seq_lt(a@, b@),
{
    let va = chars_of(a);
    let vb = chars_of(b);
    chars_lt(va.as_slice(), vb.as_slice())
}

pub open spec fn views(v: Seq<String>) -> Seq<Seq<char>> {
    v.map_values(|s: String| s@)
}

/// Strictly increasing, hence free of duplicates.
pub open spec fn sorted_strict(v: Seq<Seq<char>>) -> bool {
    forall|i: int, j: int| 0 <= i < j < v.len() ==> seq_lt(#[trigger] v[i], #[trigger] v[j])
}

pub proof fn lemma_sorted_no_dup(v: Seq<Seq<char>>)
    requires
        sorted_strict(v),
    ensures
        v.no_duplicates(),
{
    assert forall|i: int, j: int| 0 <= i < v.len() && 0 <= j < v.len() && i != j implies v[i]
        != v[j] by {
        if i < j {
            lemma_lt_irreflexive(v[i]);
        } else {
            lemma_lt_irreflexive(v[j]);
        }
    }
}

/// Two strictly sorted sequences with the same elements are equal.
pub proof fn lemma_sorted_unique(a: Seq<Seq<char>>, b: Seq<Seq<char>>)
    requires
        sorted_strict(a),
        sorted_strict(b),
        a.to_set() == b.to_set(),
    ensures
        a == b,
    decreases a.len(),
{
    lemma_sorted_no_dup(a);
    lemma_sorted_no_dup(b);
    a.unique_seq_to_set();
    b.unique_seq_to_set();
    if a.len() > 0 {
        // The first elements are the minima of the same set.
        assert(b.to_set().contains(a[0]));
        assert(a.to_set().contains(b[0]));
        let ib = choose|k: int| 0 <= k < b.len() && b[k] == a[0];
        let ia = choose|k: int| 0 <= k < a.len() && a[k] == b[0];
        if ia > 0 {
            assert(seq_lt(a[0], a[ia]));
            if ib > 0 {
                assert(seq_lt(b[0], b[ib]));
                lemma_lt_asymmetric(a[0], b[0]);
            } else {
                lemma_lt_irreflexive(a[0]);
            }
        }
        assert(a[0] == b[0]);
        let ra = a.drop_first();
        let rb = b.drop_first();
        assert(sorted_strict(ra));
        assert(sorted_strict(rb));
        assert forall|x: Seq<char>| ra.to_set().contains(x) implies rb.to_set().contains(x) by {
            let k = choose|k: int| 0 <= k < ra.len() && ra[k] == x;
            assert(a[k + 1] == x);
            assert(b.to_set().contains(x));
            let m = choose|m: int| 0 <= m < b.len() && b[m] == x;
            if m == 0 {
                assert(a[0] == a[k + 1]);
            }
            assert(rb[m - 1] == x);
        }
        assert forall|x: Seq<char>| rb.to_set().contains(x) implies ra.to_set().contains(x) by {
            let k = choose|k: int| 0 <= k < rb.len() && rb[k] == x;
            assert(b[k + 1] == x);
            assert(a.to_set().contains(x));
            let m = choose|m: int| 0 <= m < a.len() && a[m] == x;
            if m == 0 {
                assert(b[0] == b[k + 1]);
            }
            assert(ra[m - 1] == x);
        }
        assert(ra.to_set() =~= rb.to_set());
        lemma_sorted_unique(ra, rb);
        assert(a =~= seq![a[0]] + ra);
        assert(b =~= seq![b[0]] + rb);
    } else {
        if b.len() > 0 {
            assert(b.to_set().contains(b[0]));
        }
        assert(a =~= b);
    }
}

/// A duplicate-free, ordered collection of strings (the role `BTreeSet<String>` plays).
pub struct StrSet {
    pub items: Vec<String>,
}

impl StrSet {
    pub open spec fn wf(&self) -> bool {
        sorted_strict(views(self.items@))
    }

    /// The elements, in increasing order.
    pub open spec fn seq(&self) -> Seq<Seq<char>> {
        views(self.items@)
    }

    pub open spec fn set(&self) -> Set<Seq<char>> {
        self.seq().to_set()
    }

    pub fn new() -> (r: StrSet)
        ensures
            r.wf(),
            r.seq() == Seq::<Seq<char>>::empty(),
    {
        let r = StrSet { items: Vec::new() };
        assert(r.seq() =~= Seq::<Seq<char>>::empty());
        r
    }

    pub fn len(&self) -> (n: usize)
        ensures
            n == self.seq().len(),
    {
        self.items.len()
    }

    /// Index where `x` sits or would be inserted.
    fn position(&self, x: &str) -> (r: (usize, bool))
        requires
            self.wf(),
        ensures
            r.0 <= self.seq().len(),
            forall|k: int| 0 <= k < r.0 ==> seq_lt(#[trigger] self.seq()[k], x@),
            r.1 ==> r.0 < self.seq().len() && self.seq()[r.0 as int] == x@,
            !r.1 ==> forall|k: int| r.0 <= k < self.seq().len() ==> seq_lt(
                x@,
                #[trigger] self.seq()[k],
            ),
    {
        let mut i: usize = 0;
        while i < self.items.len()
            invariant
                self.wf(),
                i <= self.items.len(),
                forall|k: int| 0 <= k < i ==> seq_lt(#[trigger] self.seq()[k], x@),
            decreases self.items.len() - i,
        {
            let cur = self.items[i].as_str();
            assert(self.seq()[i as int] == self.items@[i as int]@);
            if str_lt(cur, x) {
                i = i + 1;
            } else {
                let eq = crate::text::str_eq(cur, x);
                proof {
                    if !eq {
                        lemma_lt_total(cur@, x@);
                        assert forall|k: int| i <= k < self.seq().len() implies seq_lt(
                            x@,
                            #[trigger] self.seq()[k],
                        ) by {
                            if k > i {
                                lemma_lt_transitive(x@, self.seq()[i as int], self.seq()[k]);
                            }
                        }
                    }
                }
                return (i, eq);
            }
        }
        (i, false)
    }

    pub fn contains(&self, x: &str) -> (r: bool)
        requires
            self.wf(),
        ensures
            r == self.set().contains(x@),
    {
        let (i, found) = self.position(x);
        proof {
            if !found && self.set().contains(x@) {
                let k = choose|k: int| 0 <= k < self.seq().len() && self.seq()[k] == x@;
                lemma_lt_irreflexive(x@);
            }
        }
        found
    }

    /// Inserts `x`; returns whether it was absent before.
    pub fn insert(&mut self, x: String) -> (inserted: bool)
        requires
            old(self).wf(),
        ensures
            final(self).wf(),
            final(self).set() == old(self).set().insert(x@),
            inserted == !old(self).set().contains(x@),
            final(self).seq().len() == old(self).seq().len() + if inserted {
                1int
            } else {
                0int
            },
    {
        let (i, found) = self.position(x.as_str());
        proof {
            if !found && self.set().contains(x@) {
                let k = choose|k: int| 0 <= k < self.seq().len() && self.seq()[k] == x@;
                lemma_lt_irreflexive(x@);
            }
        }
        if found {
            assert(self.set().insert(x@) =~= self.set());
            return false;
        }
        let ghost before = self.seq();
        self.items.insert(i, x);
        proof {
            assert(self.seq() =~= before.insert(i as int, x@));
            assert forall|a: int, b: int| 0 <= a < b < self.seq().len() implies seq_lt(
                #[trigger] self.seq()[a],
                #[trigger] self.seq()[b],
            ) by {
                if b < i {
                } else if a < i && b == i {
                } else if a < i {
                    assert(self.seq()[b] == before[b - 1]);
                } else if a == i {
                    assert(self.seq()[b] == before[b - 1]);
                } else {
                    assert(self.seq()[a] == before[a - 1]);
                    assert(self.seq()[b] == before[b - 1]);
                }
            }
            assert forall|y: Seq<char>| #[trigger] self.set().contains(y) <==> before.to_set().insert(
                x@,
            ).contains(y) by {
                if self.set().contains(y) {
                    let k = choose|k: int| 0 <= k < self.seq().len() && self.seq()[k] == y;
                    if k < i {
                        assert(before[k] == y);
                    } else if k > i {
                        assert(before[k - 1] == y);
                    }
                }
                if before.to_set().contains(y) {
                    let k = choose|k: int| 0 <= k < before.len() && before[k] == y;
                    if k < i {
                        assert(self.seq()[k] == y);
                    } else {
                        assert(self.seq()[k + 1] == y);
                    }
                }
                if y == x@ {
                    assert(self.seq()[i as int] == y);
                }
            }
            assert(self.set() =~= before.to_set().insert(x@));
        }
        true
    }

    /// Removes `x`.
    pub fn remove(&mut self, x: &str)
        requires
            old(self).wf(),
        ensures
            final(self).wf(),
            final(self).set() == old(self).set().remove(x@),
            old(self).set().contains(x@) ==> final(self).seq().len() < old(self).seq().len(),
            final(self).seq().len() <= old(self).seq().len(),
    {
        let (i, found) = self.position(x);
        proof {
            if !found && self.set().contains(x@) {
                let k = choose|k: int| 0 <= k < self.seq().len() && self.seq()[k] == x@;
                lemma_lt_irreflexive(x@);
            }
        }
        if !found {
            assert(self.set().remove(x@) =~= self.set());
            return;
        }
        let ghost before = self.seq();
        self.items.remove(i);
        proof {
            assert(self.seq() =~= before.remove(i as int));
            assert forall|a: int, b: int| 0 <= a < b < self.seq().len() implies seq_lt(
                #[trigger] self.seq()[a],
                #[trigger] self.seq()[b],
            ) by {
                if a >= i {
                    assert(self.seq()[a] == before[a + 1]);
                    assert(self.seq()[b] == before[b + 1]);
                } else if b >= i {
                    assert(self.seq()[b] == before[b + 1]);
                }
            }
            lemma_sorted_no_dup(before);
            assert forall|y: Seq<char>| #[trigger] self.set().contains(y) <==> before.to_set().remove(
                x@,
            ).contains(y) by {
                if self.set().contains(y) {
                    let k = choose|k: int| 0 <= k < self.seq().len() && self.seq()[k] == y;
                    if k < i {
                        assert(before[k] == y);
                    } else {
                        assert(before[k + 1] == y);
                    }
                }
                if before.to_set().remove(x@).contains(y) {
                    let k = choose|k: int| 0 <= k < before.len() && before[k] == y;
                    if k < i {
                        assert(self.seq()[k] == y);
                    } else if k > i {
                        assert(self.seq()[k - 1] == y);
                    }
                }
            }
            assert(self.set() =~= before.to_set().remove(x@));
        }
    }

    /// Builds the set of the given strings.
    pub fn from_strings(v: Vec<String>) -> (r: StrSet)
        ensures
            r.wf(),
            r.set() == views(v@).to_set(),
    {
        let mut r = StrSet::new();
        let mut i: usize = 0;
        let ghost vv = views(v@);
        while i < v.len()
            invariant
                r.wf(),
                i <= v.len(),
                vv == views(v@),
                r.set() == vv.take(i as int).to_set(),
            decreases v.len() - i,
        {
            let s = v[i].clone();
            r.insert(s);
            proof {
                assert(vv.take(i + 1 as int) =~= vv.take(i as int).push(vv[i as int]));
                vv.take(i as int).lemma_push_to_set_commute(vv[i as int]);
            }
            i = i + 1;
        }
        assert(vv.take(v.len() as int) =~= vv);
        r
    }

    /// The elements, in increasing order.
    pub fn into_vec(self) -> (v: Vec<String>)
        ensures
            views(v@) == self.seq(),
    {
        self.items
    }
}

pub open spec fn entry_keys<V>(entries: Seq<(String, V)>) -> Seq<Seq<char>> {
    entries.map_values(|e: (String, V)| e.0@)
}

/// The value of the last entry with key `k`.
pub open spec fn entry_get<V>(entries: Seq<(String, V)>, k: Seq<char>) -> Option<V>
    decreases entries.len(),
{
    if entries.len() == 0 {
        None
    } else if entries.last().0@ == k {
        Some(entries.last().1)
    } else {
        entry_get(entries.drop_last(), k)
    }
}

proof fn lemma_entry_get_none<V>(entries: Seq<(String, V)>, k: Seq<char>)
    requires
        forall|j: int| 0 <= j < entries.len() ==> entries[j].0@ != k,
    ensures
        entry_get(entries, k) is None,
    decreases entries.len(),
{
    if entries.len() > 0 {
        let d = entries.drop_last();
        assert forall|j: int| 0 <= j < d.len() implies d[j].0@ != k by {
            assert(d[j] == entries[j]);
        }
        lemma_entry_get_none(d, k);
    }
}

proof fn lemma_entry_get_at<V>(entries: Seq<(String, V)>, k: Seq<char>, i: int)
    requires
        0 <= i < entries.len(),
        entries[i].0@ == k,
        forall|j: int| i < j < entries.len() ==> entries[j].0@ != k,
    ensures
        entry_get(entries, k) == Some(entries[i].1),
    decreases entries.len(),
{
    if i < entries.len() - 1 {
        let d = entries.drop_last();
        assert(d[i] == entries[i]);
        assert forall|j: int| i < j < d.len() implies d[j].0@ != k by {
            assert(d[j] == entries[j]);
        }
        lemma_entry_get_at(d, k, i);
    }
}

proof fn lemma_entry_get<V>(entries: Seq<(String, V)>, k: Seq<char>)
    requires
        entry_keys(entries).no_duplicates(),
    ensures
        entry_get(entries, k) is Some <==> entry_keys(entries).contains(k),
        forall|i: int| 0 <= i < entries.len() && #[trigger] entries[i].0@ == k ==> entry_get(entries, k) == Some(
            entries[i].1,
        ),
{
    let ks = entry_keys(entries);
    if ks.contains(k) {
        let i = choose|i: int| 0 <= i < ks.len() && ks[i] == k;
        assert forall|j: int| i < j < entries.len() implies entries[j].0@ != k by {
            assert(ks[j] == entries[j].0@);
        }
        lemma_entry_get_at(entries, k, i);
        assert forall|m: int| 0 <= m < entries.len() && #[trigger] entries[m].0@ == k implies entry_get(
            entries,
            k,
        ) == Some(entries[m].1) by {
            assert(ks[m] == k);
        }
    } else {
        assert forall|j: int| 0 <= j < entries.len() implies entries[j].0@ != k by {
            assert(ks[j] == entries[j].0@);
        }
        lemma_entry_get_none(entries, k);
    }
}

/// A map from strings to values with keys in increasing order (the role `BTreeMap<String, V>`
/// plays).
pub struct StrMap<V> {
    pub entries: Vec<(String, V)>,
}

impl<V> StrMap<V> {
    pub open spec fn wf(&self) -> bool {
        sorted_strict(entry_keys(self.entries@))
    }

    pub open spec fn get_spec(&self, k: Seq<char>) -> Option<V> {
        entry_get(self.entries@, k)
    }

    pub open spec fn keys(&self) -> Seq<Seq<char>> {
        entry_keys(self.entries@)
    }

    pub fn new() -> (r: StrMap<V>)
        ensures
            r.wf(),
            r.entries@.len() == 0,
            forall|k: Seq<char>| r.get_spec(k) is None,
    {
        let r = StrMap { entries: Vec::new() };
        assert(entry_keys(r.entries@) =~= Seq::<Seq<char>>::empty());
        r
    }

    pub fn len(&self) -> (n: usize)
        ensures
            n == self.entries@.len(),
    {
        self.entries.len()
    }

    fn position(&self, x: &str) -> (r: (usize, bool))
        requires
            self.wf(),
        ensures
            r.0 <= self.keys().len(),
            forall|k: int| 0 <= k < r.0 ==> seq_lt(#[trigger] self.keys()[k], x@),
            r.1 ==> r.0 < self.keys().len() && self.keys()[r.0 as int] == x@,
            !r.1 ==> forall|k: int| r.0 <= k < self.keys().len() ==> seq_lt(
                x@,
                #[trigger] self.keys()[k],
            ),
    {
        let mut i: usize = 0;
        while i < self.entries.len()
            invariant
                self.wf(),
                i <= self.entries.len(),
                forall|k: int| 0 <= k < i ==> seq_lt(#[trigger] self.keys()[k], x@),
            decreases self.entries.len() - i,
        {
            let cur = self.entries[i].0.as_str();
            assert(self.keys()[i as int] == self.entries@[i as int].0@);
            if str_lt(cur, x) {
                i = i + 1;
            } else {
                let eq = crate::text::str_eq(cur, x);
                proof {
                    if !eq {
                        lemma_lt_total(cur@, x@);
                        assert forall|k: int| i <= k < self.keys().len() implies seq_lt(
                            x@,
                            #[trigger] self.keys()[k],
                        ) by {
                            if k > i {
                                lemma_lt_transitive(x@, self.keys()[i as int], self.keys()[k]);
                            }
                        }
                    }
                }
                return (i, eq);
            }
        }
        (i, false)
    }

    /// Looks `x` up.
    pub fn get(&self, x: &str) -> (r: Option<&V>)
        requires
            self.wf(),
        ensures
            match r {
                None => self.get_spec(x@) is None,
                Some(v) => self.get_spec(x@) == Some(*v),
            },
    {
        let (i, found) = self.position(x);
        proof {
            lemma_sorted_no_dup(self.keys());
            lemma_entry_get(self.entries@, x@);
            if !found && self.keys().contains(x@) {
                let k = choose|k: int| 0 <= k < self.keys().len() && self.keys()[k] == x@;
                lemma_lt_irreflexive(x@);
            }
            if found {
                assert forall|j: int| i < j < self.entries@.len() implies self.entries@[j].0@
                    != x@ by {
                    assert(self.keys()[j] == self.entries@[j].0@);
                    assert(self.keys()[i as int] != self.keys()[j]);
                }
                assert(self.entries@[i as int].0@ == x@);
            }
        }
        if found {
            Some(&self.entries[i].1)
        } else {
            None
        }
    }

    /// Inserts `k` with `v` when `k` is new; returns `false`, leaving the map unchanged, when
    /// `k` is already present.
    pub fn insert_new(&mut self, k: String, v: V) -> (inserted: bool)
        requires
            old(self).wf(),
        ensures
            final(self).wf(),
            inserted == (old(self).get_spec(k@) is None),
            inserted ==> final(self).get_spec(k@) == Some(v),
            inserted ==> forall|y: Seq<char>| y != k@ ==> final(self).get_spec(y) == old(
                self,
            ).get_spec(y),
            !inserted ==> final(self).entries@ == old(self).entries@,
            final(self).entries@.len() == old(self).entries@.len() + if inserted {
                1int
            } else {
                0int
            },
    {
        let (i, found) = self.position(k.as_str());
        proof {
            lemma_sorted_no_dup(self.keys());
            lemma_entry_get(self.entries@, k@);
            if !found && self.keys().contains(k@) {
                let j = choose|j: int| 0 <= j < self.keys().len() && self.keys()[j] == k@;
                lemma_lt_irreflexive(k@);
            }
        }
        if found {
            return false;
        }
        let ghost before = self.entries@;
        let ghost bkeys = self.keys();
        let ghost kv = k@;
        let ghost vv = v;
        self.entries.insert(i, (k, v));
        proof {
            assert(self.entries@ =~= before.insert(i as int, (k, v)));
            assert(self.keys() =~= bkeys.insert(i as int, k@));
            assert forall|a: int, b: int| 0 <= a < b < self.keys().len() implies seq_lt(
                #[trigger] self.keys()[a],
                #[trigger] self.keys()[b],
            ) by {
                if b < i {
                } else if a < i && b == i {
                } else if a < i {
                    assert(self.keys()[b] == bkeys[b - 1]);
                } else if a == i {
                    assert(self.keys()[b] == bkeys[b - 1]);
                } else {
                    assert(self.keys()[a] == bkeys[a - 1]);
                    assert(self.keys()[b] == bkeys[b - 1]);
                }
            }
            lemma_sorted_no_dup(self.keys());
            lemma_entry_get(self.entries@, k@);
            assert forall|j: int| i < j < self.entries@.len() implies self.entries@[j].0@ != k@ by {
                assert(self.keys()[j] == self.entries@[j].0@);
                assert(self.keys()[i as int] != self.keys()[j]);
            }
            assert(self.entries@[i as int] == (k, v));
            assert(self.entries@[i as int].0@ == kv);
            lemma_entry_get_at(self.entries@, kv, i as int);
            assert(self.get_spec(kv) == Some(vv));
            lemma_sorted_no_dup(bkeys);
            assert forall|y: Seq<char>| y != k@ implies self.get_spec(y) == entry_get(before, y) by {
                lemma_entry_get(self.entries@, y);
                lemma_entry_get(before, y);
                if entry_keys(before).contains(y) {
                    let m = choose|m: int| 0 <= m < bkeys.len() && bkeys[m] == y;
                    assert forall|j: int| m < j < before.len() implies before[j].0@ != y by {
                        assert(bkeys[j] == before[j].0@);
                        assert(bkeys[m] != bkeys[j]);
                    }
                    let m2 = if m < i { m } else { m + 1 };
                    assert(self.entries@[m2] == before[m]);
                    assert forall|j: int| m2 < j < self.entries@.len() implies self.entries@[j].0@
                        != y by {
                        assert(self.keys()[j] == self.entries@[j].0@);
                        assert(self.keys()[m2] == y);
                        assert(self.keys()[m2] != self.keys()[j]);
                    }
                } else {
                    if entry_keys(self.entries@).contains(y) {
                        let m = choose|m: int| 0 <= m < self.keys().len() && self.keys()[m] == y;
                        if m < i {
                            assert(bkeys[m] == y);
                        } else if m > i {
                            assert(bkeys[m - 1] == y);
                        }
                    }
                }
            }
        }
        true
    }
}

impl<V> StrMap<V> {
    /// Sets the value of `k`, inserting `k` when it is new.
    pub fn upsert(&mut self, k: String, v: V)
        requires
            old(self).wf(),
        ensures
            final(self).wf(),
            final(self).get_spec(k@) == Some(v),
            forall|y: Seq<char>| y != k@ ==> final(self).get_spec(y) == old(self).get_spec(y),
    {
        let (i, found) = self.position(k.as_str());
        if !found {
            let ins = self.insert_new(k, v);
            proof {
                if !ins {
                    lemma_sorted_no_dup(self.keys());
                    lemma_entry_get(self.entries@, k@);
                    if self.keys().contains(k@) {
                        let j = choose|j: int| 0 <= j < self.keys().len() && self.keys()[j] == k@;
                        lemma_lt_irreflexive(k@);
                    }
                }
            }
            return;
        }
        let ghost before = self.entries@;
        let ghost bkeys = self.keys();
        let ghost kv = k@;
        let ghost vv = v;
        self.entries.set(i, (k, v));
        proof {
            assert(self.keys() =~= bkeys);
            lemma_sorted_no_dup(bkeys);
            assert forall|j: int| i < j < self.entries@.len() implies self.entries@[j].0@ != kv by {
                assert(self.keys()[j] == self.entries@[j].0@);
                assert(self.keys()[i as int] != self.keys()[j]);
            }
            lemma_entry_get_at(self.entries@, kv, i as int);
            assert forall|y: Seq<char>| y != kv implies self.get_spec(y) == entry_get(before, y) by {
                lemma_entry_get(self.entries@, y);
                lemma_entry_get(before, y);
                if bkeys.contains(y) {
                    let m = choose|m: int| 0 <= m < bkeys.len() && bkeys[m] == y;
                    assert(self.keys()[m] == y);
                    assert(self.entries@[m] == before[m]);
                }
            }
        }
    }

    /// Removes `k` when present.
    pub fn remove_key(&mut self, k: &str)
        requires
            old(self).wf(),
        ensures
            final(self).wf(),
            final(self).get_spec(k@) is None,
            forall|y: Seq<char>| y != k@ ==> final(self).get_spec(y) == old(self).get_spec(y),
    {
        let (i, found) = self.position(k);
        proof {
            lemma_sorted_no_dup(self.keys());
            lemma_entry_get(self.entries@, k@);
            if !found && self.keys().contains(k@) {
                let j = choose|j: int| 0 <= j < self.keys().len() && self.keys()[j] == k@;
                lemma_lt_irreflexive(k@);
            }
        }
        if !found {
            return;
        }
        let ghost before = self.entries@;
        let ghost bkeys = self.keys();
        let ghost kv = k@;
        self.entries.remove(i);
        proof {
            assert(self.entries@ =~= before.remove(i as int));
            assert(self.keys() =~= bkeys.remove(i as int));
            assert forall|a: int, b: int| 0 <= a < b < self.keys().len() implies seq_lt(
                #[trigger] self.keys()[a],
                #[trigger] self.keys()[b],
            ) by {
                let a2 = if a < i { a } else { a + 1 };
                let b2 = if b < i { b } else { b + 1 };
                assert(self.keys()[a] == bkeys[a2]);
                assert(self.keys()[b] == bkeys[b2]);
            }
            lemma_sorted_no_dup(bkeys);
            lemma_sorted_no_dup(self.keys());
            assert forall|j: int| 0 <= j < self.keys().len() implies self.keys()[j] != kv by {
                let j2 = if j < i { j } else { j + 1 };
                assert(self.keys()[j] == bkeys[j2]);
                assert(bkeys[i as int] == kv);
            }
            lemma_entry_get(self.entries@, kv);
            assert forall|y: Seq<char>| y != kv implies self.get_spec(y) == entry_get(before, y) by {
                lemma_entry_get(self.entries@, y);
                lemma_entry_get(before, y);
                if bkeys.contains(y) {
                    let m = choose|m: int| 0 <= m < bkeys.len() && bkeys[m] == y;
                    assert(m != i);
                    let m2 = if m < i { m } else { m - 1 };
                    assert(self.entries@[m2] == before[m]);
                    assert(self.keys()[m2] == y);
                } else if self.keys().contains(y) {
                    let m = choose|m: int| 0 <= m < self.keys().len() && self.keys()[m] == y;
                    let m2 = if m < i { m } else { m + 1 };
                    assert(bkeys[m2] == y);
                }
            }
        }
    }
}

/// In a well-formed map, each entry is what its key looks up.
pub proof fn lemma_map_entry<V>(m: StrMap<V>, i: int)
    requires
        m.wf(),
        0 <= i < m.entries@.len(),
    ensures
        m.get_spec(m.entries@[i].0@) == Some(m.entries@[i].1),
{
    lemma_sorted_no_dup(m.keys());
    lemma_entry_get(m.entries@, m.entries@[i].0@);
}

/// In a well-formed map, a key that looks something up has an entry holding that value.
pub proof fn lemma_map_key<V>(m: StrMap<V>, k: Seq<char>)
    requires
        m.wf(),
        m.get_spec(k) is Some,
    ensures
        exists|j: int| 0 <= j < m.entries@.len() && m.entries@[j].0@ == k && m.entries@[j].1 == m.get_spec(k).unwrap(),
{
    lemma_sorted_no_dup(m.keys());
    lemma_entry_get(m.entries@, k);
    let j = choose|j: int| 0 <= j < m.keys().len() && m.keys()[j] == k;
    assert(m.entries@[j].0@ == k);
}

/// Keeping some elements of a strictly increasing sequence keeps it strictly increasing.
pub proof fn lemma_filter_sorted(s: Seq<Seq<char>>, f: spec_fn(Seq<char>) -> bool)
    requires
        sorted_strict(s),
    ensures
        sorted_strict(s.filter(f)),
    decreases s.len(),
{
    reveal(Seq::filter);
    if s.len() > 0 {
        let d = s.drop_last();
        assert(sorted_strict(d)) by {
            assert forall|i: int, j: int| 0 <= i < j < d.len() implies seq_lt(#[trigger] d[i], #[trigger] d[j]) by {
                assert(d[i] == s[i] && d[j] == s[j]);
            }
        }
        lemma_filter_sorted(d, f);
        if f(s.last()) {
            let fd = d.filter(f);
            let r = fd.push(s.last());
            assert forall|i: int, j: int| 0 <= i < j < r.len() implies seq_lt(#[trigger] r[i], #[trigger] r[j]) by {
                if j == r.len() - 1 {
                    assert(fd.contains(r[i]));
                    d.lemma_filter_contains_rev(f, r[i]);
                    let k = choose|k: int| 0 <= k < d.len() && d[k] == r[i];
                    assert(s[k] == r[i]);
                    assert(seq_lt(s[k], s[s.len() - 1]));
                } else {
                    assert(r[i] == fd[i] && r[j] == fd[j]);
                }
            }
        }
    }
}

/// The elements of `a` that are not in `b`, in increasing order (what iterating
/// `BTreeSet::difference` yields).
pub fn difference_sorted(a: &StrSet, b: &StrSet) -> (r: Vec<String>)
    requires
        a.wf(),
        b.wf(),
    ensures
        views(r@) == a.seq().filter(|x: Seq<char>| !b.set().contains(x)),
        sorted_strict(views(r@)),
        forall|x: Seq<char>| views(r@).contains(x) <==> a.set().contains(x) && !b.set().contains(x),
{
    let ghost f = |x: Seq<char>| !b.set().contains(x);
    let ghost sq = a.seq();
    let mut r: Vec<String> = Vec::new();
    let mut i: usize = 0;
    assert(sq.take(0).filter(f) =~= Seq::<Seq<char>>::empty()) by {
        reveal(Seq::filter);
    }
    assert(views(r@) =~= Seq::<Seq<char>>::empty());
    while i < a.items.len()
        invariant
            i <= a.items.len(),
            sq == a.seq(),
            sq.len() == a.items@.len(),
            b.wf(),
            f == (|x: Seq<char>| !b.set().contains(x)),
            views(r@) == sq.take(i as int).filter(f),
        decreases a.items.len() - i,
    {
        proof {
            lemma_filter_step_seq(sq, i as int, f);
        }
        if !b.contains(a.items[i].as_str()) {
            let x = owned_copy(&a.items[i]);
            r.push(x);
            proof {
                assert(views(r@) =~= views(r@).drop_last().push(x@));
                assert(views(r@).drop_last() =~= sq.take(i as int).filter(f));
            }
        }
        i = i + 1;
    }
    proof {
        assert(sq.take(sq.len() as int) =~= sq);
        lemma_filter_sorted(sq, f);
        assert forall|x: Seq<char>| views(r@).contains(x) <==> a.set().contains(x) && !b.set().contains(x) by {
            if views(r@).contains(x) {
                sq.lemma_filter_contains_rev(f, x);
                let k = choose|k: int| 0 <= k < views(r@).len() && views(r@)[k] == x;
                sq.filter_lemma(f);
                assert(f(views(r@)[k]));
            }
            if a.set().contains(x) && !b.set().contains(x) {
                let k = choose|k: int| 0 <= k < sq.len() && sq[k] == x;
                sq.filter_lemma(f);
                assert(sq.filter(f).contains(sq[k]));
            }
        }
    }
    r
}

proof fn lemma_filter_step_seq(s: Seq<Seq<char>>, i: int, pred: spec_fn(Seq<char>) -> bool)
    requires
        0 <= i < s.len(),
    ensures
        s.take(i + 1).filter(pred) == if pred(s[i]) {
            s.take(i).filter(pred).push(s[i])
        } else {
            s.take(i).filter(pred)
        },
{
    reveal(Seq::filter);
    assert(s.take(i + 1).drop_last() =~= s.take(i));
}

fn owned_copy(s: &String) -> (r: String)
    ensures
        r@ == s@,
{
    let r = s.clone();
    r
}

/// Sorts strings and drops repeats (what `sort` followed by `dedup` does).
pub fn sort_dedup(v: Vec<String>) -> (r: Vec<String>)
    ensures
        sorted_strict(views(r@)),
        views(r@).to_set() == views(v@).to_set(),
{
    let s = StrSet::from_strings(v);
    s.into_vec()
}

} // verus!
