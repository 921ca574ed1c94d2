//! Byte strings in lexicographic order, and maps that are kept in that order.
use vstd::prelude::*;

verus! {

/// `a` comes before `b`: at the first byte that differs it has the smaller one, or it ends
/// first.
pub open spec fn before(a: Seq<u8>, b: Seq<u8>) -> bool
    decreases b.len(),
{
    if b.len() == 0 {
        false
    } else if a.len() == 0 {
        true
    } else if a[0] != b[0] {
        a[0] < b[0]
    } else {
        before(a.drop_first(), b.drop_first())
    }
}

/// How two byte strings compare.
#[derive(Clone, Copy, Debug, PartialEq, Eq, Structural)]
pub enum KeyOrder {
    Less,
    Equal,
    Greater,
}

/// How `a` compares to `b`.
pub open spec fn key_order_of(a: Seq<u8>, b: Seq<u8>) -> KeyOrder {
    if a == b {
        KeyOrder::Equal
    } else if before(a, b) {
        KeyOrder::Less
    } else {
        KeyOrder::Greater
    }
}

/// Nothing comes before itself.
pub proof fn before_irreflexive(a: Seq<u8>)
    ensures
        !before(a, a),
    decreases a.len(),
{
    if a.len() > 0 {
        before_irreflexive(a.drop_first());
    }
}

pub proof fn before_transitive(a: Seq<u8>, b: Seq<u8>, c: Seq<u8>)
    requires
        before(a, b),
        before(b, c),
    ensures
        before(a, c),
    decreases c.len(),
{
    if a.len() > 0 && a[0] == b[0] && b[0] == c[0] {
        before_transitive(a.drop_first(), b.drop_first(), c.drop_first());
    }
}

/// Of two different byte strings one comes before the other.
pub proof fn before_total(a: Seq<u8>, b: Seq<u8>)
    requires
        a != b,
    ensures
        before(a, b) || before(b, a),
    decreases a.len(),
{
    if a.len() == 0 {
        if b.len() == 0 {
            assert(a =~= b);
        }
    } else if b.len() > 0 && a[0] == b[0] {
        if a.drop_first() == b.drop_first() {
            assert(a =~= seq![a[0]] + a.drop_first());
            assert(b =~= seq![b[0]] + b.drop_first());
        }
        before_total(a.drop_first(), b.drop_first());
    }
}

/// Compares two byte strings.
pub fn compare(a: &[u8], b: &[u8]) -> (r: KeyOrder)
    ensures
        r == key_order_of(a@, b@),
{
    let mut i: usize = 0;
    assert(a@.skip(0) =~= a@);
    assert(b@.skip(0) =~= b@);
    while i < a.len() && i < b.len()
        invariant
            i <= a@.len(),
            i <= b@.len(),
            before(a@, b@) <==> before(a@.skip(i as int), b@.skip(i as int)),
            a@ == b@ <==> a@.skip(i as int) == b@.skip(i as int),
        decreases a@.len() - i,
    {
        let ghost (x, y) = (a@.skip(i as int), b@.skip(i as int));
        assert(x[0] == a@[i as int] && y[0] == b@[i as int]);
        assert(x.drop_first() =~= a@.skip(i + 1));
        assert(y.drop_first() =~= b@.skip(i + 1));
        if a[i] < b[i] {
            return KeyOrder::Less;
        }
        if a[i] > b[i] {
            return KeyOrder::Greater;
        }
        proof {
            assert(x =~= seq![x[0]] + x.drop_first());
            assert(y =~= seq![y[0]] + y.drop_first());
        }
        i = i + 1;
    }
    proof {
        let (x, y) = (a@.skip(i as int), b@.skip(i as int));
        if x.len() == 0 && y.len() == 0 {
            assert(x =~= y);
        }
    }
    if i < b.len() {
        KeyOrder::Less
    } else if i < a.len() {
        KeyOrder::Greater
    } else {
        KeyOrder::Equal
    }
}

/// A map from byte strings, kept in the order of its keys.
#[derive(Clone, Debug)]
pub struct OrderedMap<V> {
    entries: Vec<(Vec<u8>, V)>,
}

/// The keys come in strictly ascending order.
pub open spec fn ascending<V>(entries: Seq<(Seq<u8>, V)>) -> bool {
    forall|i: int, j: int|
        #![trigger entries[i], entries[j]]
        0 <= i < j < entries.len() ==> before(entries[i].0, entries[j].0)
}

/// The map that a sequence of entries with different keys stands for.
pub open spec fn entry_map<V>(entries: Seq<(Seq<u8>, V)>) -> Map<Seq<u8>, V>
    decreases entries.len(),
{
    if entries.len() == 0 {
        Map::empty()
    } else {
        entry_map(entries.drop_last()).insert(entries.last().0, entries.last().1)
    }
}

/// Looking a key up finds its entry, and nothing where there is none.
pub proof fn lemma_entry_map<V>(entries: Seq<(Seq<u8>, V)>, key: Seq<u8>)
    requires
        ascending(entries),
    ensures
        entry_map(entries).dom().contains(key) <==> exists|i: int|
            0 <= i < entries.len() && (#[trigger] entries[i]).0 == key,
        forall|i: int|
            #![trigger entries[i]]
            0 <= i < entries.len() && entries[i].0 == key ==> entry_map(entries)[key]
                == entries[i].1,
    decreases entries.len(),
{
    if entries.len() > 0 {
        let shorter = entries.drop_last();
        assert(ascending(shorter)) by {
            assert forall|i: int, j: int|
                #![trigger shorter[i], shorter[j]]
                0 <= i < j < shorter.len() implies before(shorter[i].0, shorter[j].0) by {
                assert(before(entries[i].0, entries[j].0));
            }
        }
        lemma_entry_map(shorter, key);
        let n = entries.len() - 1;
        if entries.last().0 == key {
            assert(entries[n].0 == key);
            assert forall|i: int|
                #![trigger entries[i]]
                0 <= i < entries.len() && entries[i].0 == key implies entry_map(entries)[key]
                == entries[i].1 by {
                if i < n {
                    assert(before(entries[i].0, entries[n].0));
                    before_irreflexive(key);
                }
            }
        } else {
            assert(entry_map(entries).dom().contains(key) <==> entry_map(
                shorter,
            ).dom().contains(key));
            if entry_map(shorter).dom().contains(key) {
                let i = choose|i: int| 0 <= i < shorter.len() && (#[trigger] shorter[i]).0 == key;
                assert(entries[i].0 == key);
            }
            if exists|i: int| 0 <= i < entries.len() && (#[trigger] entries[i]).0 == key {
                let i = choose|i: int| 0 <= i < entries.len() && (#[trigger] entries[i]).0 == key;
                assert(shorter[i].0 == key);
            }
            assert forall|i: int|
                #![trigger entries[i]]
                0 <= i < entries.len() && entries[i].0 == key implies entry_map(entries)[key]
                == entries[i].1 by {
                assert(shorter[i].0 == key);
            }
        }
    }
}

impl<V> OrderedMap<V> {
    /// The entries, in the order of their keys.
    pub closed spec fn entries_view(&self) -> Seq<(Seq<u8>, V)> {
        self.entries@.map_values(|e: (Vec<u8>, V)| (e.0@, e.1))
    }

    pub open spec fn wf(&self) -> bool {
        ascending(self.entries_view())
    }

    pub fn new() -> (r: Self)
        ensures
            r.wf(),
            r@ == Map::<Seq<u8>, V>::empty(),
            r.entries_view() == Seq::<(Seq<u8>, V)>::empty(),
    {
        let r = OrderedMap { entries: Vec::new() };
        assert(r.entries_view() =~= Seq::empty());
        r
    }

    pub fn len(&self) -> (n: usize)
        ensures
            n == self.entries_view().len(),
    {
        self.entries.len()
    }

    pub fn key_at(&self, i: usize) -> (r: &Vec<u8>)
        requires
            i < self.entries_view().len(),
        ensures
            r@ == self.entries_view()[i as int].0,
    {
        &self.entries[i].0
    }

    pub fn value_at(&self, i: usize) -> (r: &V)
        requires
            i < self.entries_view().len(),
        ensures
            *r == self.entries_view()[i as int].1,
    {
        &self.entries[i].1
    }

    /// The place of the first key that does not come before `key`, and whether it is `key`.
    fn search(&self, key: &[u8]) -> (r: (usize, bool))
        requires
            self.wf(),
        ensures
            r.0 <= self.entries_view().len(),
            forall|i: int|
                #![trigger self.entries_view()[i]]
                0 <= i < r.0 ==> before(self.entries_view()[i].0, key@),
            forall|i: int|
                #![trigger self.entries_view()[i]]
                r.0 <= i < self.entries_view().len() ==> self.entries_view()[i].0 == key@ || before(
                    key@,
                    self.entries_view()[i].0,
                ),
            r.1 ==> r.0 < self.entries_view().len() && self.entries_view()[r.0 as int].0 == key@,
            !r.1 ==> forall|i: int|
                #![trigger self.entries_view()[i]]
                0 <= i < self.entries_view().len() ==> self.entries_view()[i].0 != key@,
    {
        let mut i: usize = 0;
        let ghost es = self.entries_view();
        while i < self.entries.len()
            invariant
                i <= self.entries@.len(),
                es == self.entries_view(),
                self.wf(),
                forall|j: int| #![trigger es[j]] 0 <= j < i ==> before(es[j].0, key@),
            decreases self.entries@.len() - i,
        {
            assert(es[i as int].0 == self.entries@[i as int].0@);
            match compare(self.entries[i].0.as_slice(), key) {
                KeyOrder::Less => {
                    i = i + 1;
                },
                KeyOrder::Equal => {
                    proof {
                        assert forall|j: int| #![trigger es[j]] i <= j < es.len() implies es[j].0
                            == key@ || before(key@, es[j].0) by {
                            if j > i {
                                assert(before(es[i as int].0, es[j].0));
                            }
                        }
                    }
                    return (i, true);
                },
                KeyOrder::Greater => {
                    proof {
                        before_total(es[i as int].0, key@);
                        assert forall|j: int| #![trigger es[j]] 0 <= j < es.len() implies es[j].0
                            != key@ by {
                            before_irreflexive(key@);
                            if j > i {
                                assert(before(es[i as int].0, es[j].0));
                                before_transitive(key@, es[i as int].0, es[j].0);
                            }
                        }
                        assert forall|j: int| #![trigger es[j]] i <= j < es.len() implies es[j].0
                            == key@ || before(key@, es[j].0) by {
                            if j > i {
                                assert(before(es[i as int].0, es[j].0));
                                before_transitive(key@, es[i as int].0, es[j].0);
                            }
                        }
                    }
                    return (i, false);
                },
            }
        }
        proof {
            assert forall|j: int| #![trigger es[j]] 0 <= j < es.len() implies es[j].0 != key@ by {
                before_irreflexive(key@);
            }
        }
        (i, false)
    }

    /// Looks a key up.
    pub fn get(&self, key: &[u8]) -> (r: Option<&V>)
        requires
            self.wf(),
        ensures
            match r {
                Some(v) => self@.dom().contains(key@) && *v == self@[key@],
                None => !self@.dom().contains(key@),
            },
    {
        proof {
            lemma_entry_map(self.entries_view(), key@);
        }
        let (i, found) = self.search(key);
        if found {
            assert(self.entries_view()[i as int].0 == key@);
            Some(&self.entries[i].1)
        } else {
            None
        }
    }

    /// Puts a value under a key, in place of the one that is there.
    pub fn insert(&mut self, key: Vec<u8>, value: V)
        requires
            old(self).wf(),
        ensures
            final(self).wf(),
            final(self)@ == old(self)@.insert(key@, value),
    {
        let (i, found) = self.search(key.as_slice());
        let ghost es = self.entries_view();
        let ghost k = key@;
        if found {
            self.entries.remove(i);
            self.entries.insert(i, (key, value));
        } else {
            self.entries.insert(i, (key, value));
        }
        let ghost now = self.entries_view();
        proof {
            if found {
                assert(now =~= es.update(i as int, (k, value)));
            } else {
                assert(now =~= es.insert(i as int, (k, value)));
            }
            assert forall|a: int, b: int|
                #![trigger now[a], now[b]]
                0 <= a < b < now.len() implies before(now[a].0, now[b].0) by {
                if found {
                    assert(before(es[a].0, es[b].0));
                } else {
                    if a < i {
                        if b < i {
                            assert(before(es[a].0, es[b].0));
                        } else if b == i {
                            assert(before(es[a].0, k));
                        } else {
                            assert(before(es[a].0, es[b - 1].0));
                        }
                    } else if a == i {
                        assert(es[b - 1].0 == k || before(k, es[b - 1].0));
                    } else {
                        assert(before(es[a - 1].0, es[b - 1].0));
                    }
                }
            }
            assert forall|x: Seq<u8>| #![auto]
                entry_map(now).dom().contains(x) <==> entry_map(es).insert(k, value).dom().contains(
                    x,
                ) by {
                lemma_entry_map(now, x);
                lemma_entry_map(es, x);
                if entry_map(now).dom().contains(x) && x != k {
                    let a = choose|a: int| 0 <= a < now.len() && (#[trigger] now[a]).0 == x;
                    if found {
                        assert(es[a].0 == x);
                    } else if a < i {
                        assert(es[a].0 == x);
                    } else {
                        assert(es[a - 1].0 == x);
                    }
                }
                if entry_map(es).dom().contains(x) {
                    let a = choose|a: int| 0 <= a < es.len() && (#[trigger] es[a]).0 == x;
                    if found || a < i {
                        assert(now[a].0 == x);
                    } else {
                        assert(now[a + 1].0 == x);
                    }
                }
                assert(now[i as int].0 == k);
            }
            assert forall|x: Seq<u8>| #![auto]
                entry_map(now).dom().contains(x) implies entry_map(now)[x] == entry_map(es).insert(
                k,
                value,
            )[x] by {
                lemma_entry_map(now, x);
                lemma_entry_map(es, x);
                let a = choose|a: int| 0 <= a < now.len() && (#[trigger] now[a]).0 == x;
                lemma_entry_map(now, k);
                assert(now[i as int].0 == k);
                if x != k {
                    if found {
                        assert(es[a].0 == x);
                    } else if a < i {
                        assert(es[a].0 == x);
                    } else {
                        assert(es[a - 1].0 == x);
                    }
                }
            }
            assert(entry_map(now) =~= entry_map(es).insert(k, value));
        }
    }

    /// Takes the entry of a key out, if there is one.
    pub fn remove(&mut self, key: &[u8]) -> (r: Option<V>)
        requires
            old(self).wf(),
        ensures
            final(self).wf(),
            final(self)@ == old(self)@.remove(key@),
            match r {
                Some(v) => old(self)@.dom().contains(key@) && v == old(self)@[key@],
                None => !old(self)@.dom().contains(key@),
            },
    {
        proof {
            lemma_entry_map(self.entries_view(), key@);
        }
        let (i, found) = self.search(key);
        let ghost es = self.entries_view();
        let mut taken: Option<V> = None;
        if found {
            assert(es[i as int].0 == key@);
            let (_, value) = self.entries.remove(i);
            taken = Some(value);
        }
        proof {
            let now = self.entries_view();
            let k = key@;
            if found {
                assert(now =~= es.remove(i as int));
            } else {
                assert(now =~= es);
            }
            assert forall|a: int, b: int|
                #![trigger now[a], now[b]]
                0 <= a < b < now.len() implies before(now[a].0, now[b].0) by {
                let p = if found && a >= i {
                    a + 1
                } else {
                    a
                };
                let q = if found && b >= i {
                    b + 1
                } else {
                    b
                };
                assert(before(es[p].0, es[q].0));
            }
            assert forall|x: Seq<u8>| #![auto]
                entry_map(now).dom().contains(x) <==> entry_map(es).remove(k).dom().contains(x) by {
                lemma_entry_map(now, x);
                lemma_entry_map(es, x);
                if entry_map(now).dom().contains(x) {
                    let a = choose|a: int| 0 <= a < now.len() && (#[trigger] now[a]).0 == x;
                    let p = if found && a >= i {
                        a + 1
                    } else {
                        a
                    };
                    assert(es[p].0 == x);
                    if found && x == k {
                        before_irreflexive(k);
                        if p < i {
                            assert(before(es[p].0, es[i as int].0));
                        } else {
                            assert(before(es[i as int].0, es[p].0));
                        }
                    }
                }
                if entry_map(es).dom().contains(x) && x != k {
                    let p = choose|p: int| 0 <= p < es.len() && (#[trigger] es[p]).0 == x;
                    let a = if found && p > i {
                        p - 1
                    } else {
                        p
                    };
                    assert(now[a].0 == x);
                }
            }
            assert forall|x: Seq<u8>| #![auto]
                entry_map(now).dom().contains(x) implies entry_map(now)[x] == entry_map(es)[x] by {
                lemma_entry_map(now, x);
                lemma_entry_map(es, x);
                let a = choose|a: int| 0 <= a < now.len() && (#[trigger] now[a]).0 == x;
                let p = if found && a >= i {
                    a + 1
                } else {
                    a
                };
                assert(es[p].0 == x);
            }
            assert(entry_map(now) =~= entry_map(es).remove(k));
        }
        taken
    }

    /// The entries, in the order of their keys.
    pub fn into_entries(self) -> (r: Vec<(Vec<u8>, V)>)
        ensures
            r@.map_values(|e: (Vec<u8>, V)| (e.0@, e.1)) == self.entries_view(),
    {
        self.entries
    }
}

impl<V> View for OrderedMap<V> {
    type V = Map<Seq<u8>, V>;

    open spec fn view(&self) -> Map<Seq<u8>, V> {
        entry_map(self.entries_view())
    }
}

} // verus!
