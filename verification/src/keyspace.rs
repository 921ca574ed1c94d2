//! Parts of a store that belong together by a common prefix of their keys.
use vstd::prelude::*;

use crate::byte_order::before;
use crate::ordered::{be_bytes, put_be};
use crate::scalar::clone_bytes;
use crate::store::{KeyBound, KeyRange, StateStore};

verus! {

/// The tag that the keys of an executor begin with.
pub const EXECUTOR_TAG: u8 = 101;

/// The first byte string behind all that begin with `p`, if there is one.
pub open spec fn successor(p: Seq<u8>) -> Option<Seq<u8>>
    decreases p.len(),
{
    if p.len() == 0 {
        None
    } else {
        match successor(p.drop_first()) {
            Some(s) => Some(seq![p[0]] + s),
            None => if p[0] < 255 {
                Some(seq![(p[0] + 1) as u8])
            } else {
                None
            },
        }
    }
}

/// The byte strings from `p` up to its successor are those that begin with `p`.
pub proof fn prefix_is_range(p: Seq<u8>, key: Seq<u8>)
    ensures
        p.is_prefix_of(key) <==> {
            &&& p == key || before(p, key)
            &&& successor(p) matches Some(s) ==> before(key, s)
        },
    decreases p.len(),
{
    if p.len() == 0 {
        assert(key.take(0) =~= p);
        if key.len() == 0 {
            assert(p =~= key);
        }
    } else if key.len() > 0 {
        let (q, l) = (p.drop_first(), key.drop_first());
        assert(p =~= seq![p[0]] + q);
        assert(key =~= seq![key[0]] + l);
        prefix_is_range(q, l);
        if p[0] == key[0] {
            assert(p.is_prefix_of(key) <==> q.is_prefix_of(l)) by {
                if p.is_prefix_of(key) {
                    assert(l.take(q.len() as int) =~= key.take(p.len() as int).drop_first());
                    assert(q =~= l.take(q.len() as int));
                }
                if q.is_prefix_of(l) {
                    assert(key.take(p.len() as int) =~= seq![key[0]] + l.take(q.len() as int));
                    assert(p =~= key.take(p.len() as int));
                }
            }
            assert(p == key <==> q == l);
            if let Some(s) = successor(q) {
                let t = seq![p[0]] + s;
                assert(t.drop_first() =~= s);
            }
        } else {
            if p.is_prefix_of(key) {
                assert(key.take(p.len() as int)[0] == key[0]);
            }
            assert(p != key);
            if let Some(s) = successor(q) {
                let t = seq![p[0]] + s;
                assert(t[0] == p[0]);
            } else if p[0] < 255 {
                let t = seq![(p[0] + 1) as u8];
                assert(t.drop_first().len() == 0);
                assert(!before(l, t.drop_first()));
            }
        }
    }
}

proof fn lemma_successor_push(p: Seq<u8>, c: u8)
    ensures
        successor(p.push(c)) == (if c < 255 {
            Some(p.push((c + 1) as u8))
        } else {
            successor(p)
        }),
    decreases p.len(),
{
    let whole = p.push(c);
    if p.len() == 0 {
        assert(whole.drop_first() =~= Seq::empty());
        assert(successor(whole.drop_first()) is None);
        assert(successor(p) is None);
        if c < 255 {
            assert(p.push((c + 1) as u8) =~= seq![(c + 1) as u8]);
        }
    } else {
        assert(whole.drop_first() =~= p.drop_first().push(c));
        lemma_successor_push(p.drop_first(), c);
        assert(whole[0] == p[0]);
        if c < 255 {
            assert(p.push((c + 1) as u8) =~= seq![p[0]] + p.drop_first().push((c + 1) as u8));
        }
    }
}

/// A part of a store.
#[derive(Clone, Debug)]
pub struct Keyspace<S> {
    store: S,
    prefix: Vec<u8>,
}

/// The keys that begin with a prefix.
pub fn range_of_prefix(prefix: &[u8]) -> (r: KeyRange)
    ensures
        forall|key: Seq<u8>| #[trigger] r.contains_key(key) <==> prefix@.is_prefix_of(key),
{
    let mut end: Vec<u8> = clone_bytes(prefix);
    while end.len() > 0 && end[end.len() - 1] == 255
        invariant
            successor(end@) == successor(prefix@),
        decreases end@.len(),
    {
        let ghost was = end@;
        end.pop();
        proof {
            lemma_successor_push(end@, 255);
            assert(end@.push(255) =~= was);
        }
    }
    let end_bound = if end.len() == 0 {
        KeyBound::Unbounded
    } else {
        let ghost was = end@;
        match end.pop() {
            Some(last) => {
                proof {
                    lemma_successor_push(end@, last);
                    assert(end@.push(last) =~= was);
                }
                end.push(last + 1);
            },
            None => {},
        }
        KeyBound::Excluded(end)
    };
    let r = KeyRange { start: KeyBound::Included(clone_bytes(prefix)), end: end_bound };
    proof {
        assert forall|key: Seq<u8>| #[trigger] r.contains_key(key) <==> prefix@.is_prefix_of(
            key,
        ) by {
            prefix_is_range(prefix@, key);
        }
    }
    r
}

/// Two keys under one prefix are the same exactly when what follows the prefix is.
pub proof fn prefixed_keys_differ(prefix: Seq<u8>, a: Seq<u8>, b: Seq<u8>)
    ensures
        prefix + a == prefix + b <==> a == b,
{
    if prefix + a == prefix + b {
        assert(a =~= (prefix + a).skip(prefix.len() as int));
        assert(b =~= (prefix + b).skip(prefix.len() as int));
    }
}

impl<S: StateStore> Keyspace<S> {
    /// The prefix of all keys.
    pub closed spec fn prefix_view(&self) -> Seq<u8> {
        self.prefix@
    }

    /// The store that the keys are in.
    pub closed spec fn store_view(&self) -> S {
        self.store
    }

    /// The part of the store that belongs to an executor.
    pub fn executor_root(store: S, id: u64) -> (r: Self)
        ensures
            r.store_view() == store,
            r.prefix_view() == seq![EXECUTOR_TAG] + be_bytes(id as nat, 8),
    {
        let mut prefix: Vec<u8> = Vec::new();
        prefix.push(EXECUTOR_TAG);
        assert(prefix@ =~= seq![EXECUTOR_TAG]);
        put_be(&mut prefix, id, 8);
        Keyspace { store, prefix }
    }

    /// The key in the store.
    pub fn prefixed_key(&self, key: &[u8]) -> (r: Vec<u8>)
        ensures
            r@ == self.prefix_view() + key@,
    {
        prefixed(self.prefix.as_slice(), key)
    }

    pub fn prefix(&self) -> (r: &[u8])
        ensures
            r@ == self.prefix_view(),
    {
        self.prefix.as_slice()
    }

    pub fn state_store(&self) -> (r: &S)
        ensures
            *r == self.store_view(),
    {
        &self.store
    }

    /// Changes the store in place.
    pub fn state_store_mut(&mut self) -> (r: &mut S)
        ensures
            *r == old(self).store_view(),
            final(self).store_view() == *final(r),
            final(self).prefix_view() == old(self).prefix_view(),
    {
        &mut self.store
    }
}

/// The key behind the prefix.
pub fn prefixed(prefix: &[u8], key: &[u8]) -> (r: Vec<u8>)
    ensures
        r@ == prefix@ + key@,
{
    let mut r: Vec<u8> = clone_bytes(prefix);
    let mut rest: Vec<u8> = clone_bytes(key);
    r.append(&mut rest);
    r
}

/// No key of one executor is a key of another.
pub proof fn executors_share_no_keys(a: Seq<u8>, b: Seq<u8>, x: u64, y: u64, key: Seq<u8>)
    requires
        a == seq![EXECUTOR_TAG] + be_bytes(x as nat, 8),
        b == seq![EXECUTOR_TAG] + be_bytes(y as nat, 8),
        a.is_prefix_of(key),
        b.is_prefix_of(key),
    ensures
        x == y,
{
    crate::number_keys::lemma_be_le(x as nat, 8);
    crate::number_keys::lemma_be_le(y as nat, 8);
    assert(a =~= b);
    let (p, q) = (be_bytes(x as nat, 8), be_bytes(y as nat, 8));
    assert(p =~= a.skip(1) && q =~= b.skip(1));
    crate::wire::lemma_byte_ranges();
    crate::wire::lemma_le_value_of_bytes(x as nat, 8);
    crate::wire::lemma_le_value_of_bytes(y as nat, 8);
    assert(p.reverse() =~= crate::wire::le_bytes(x as nat, 8));
    assert(q.reverse() =~= crate::wire::le_bytes(y as nat, 8));
}

} // verus!
