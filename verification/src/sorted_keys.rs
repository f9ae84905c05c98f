//! The keys of a map from `u32`, in increasing order.
use std::collections::BTreeMap;

use vstd::prelude::*;
use vstd::std_specs::btree::{increasing_seq, spec_btree_map_iter};

verus! {

/// Each element is smaller than those behind it.
pub open spec fn increasing(ks: Seq<u32>) -> bool {
    forall|i: int, j: int| 0 <= i < j < ks.len() ==> ks[i] < ks[j]
}

/// How many elements at the front of `ks` are smaller than `a`.
pub open spec fn position(ks: Seq<u32>, a: u32) -> nat
    decreases ks.len(),
{
    if ks.len() == 0 || ks[0] >= a {
        0
    } else {
        1 + position(ks.skip(1), a)
    }
}

pub proof fn lemma_position(ks: Seq<u32>, a: u32)
    requires
        increasing(ks),
    ensures
        position(ks, a) <= ks.len(),
        forall|i: int| 0 <= i < position(ks, a) ==> ks[i] < a,
        forall|i: int| position(ks, a) <= i < ks.len() ==> ks[i] >= a,
    decreases ks.len(),
{
    if ks.len() > 0 && ks[0] < a {
        lemma_position(ks.skip(1), a);
        assert forall|i: int| 0 <= i < position(ks, a) implies ks[i] < a by {
            if i > 0 {
                assert(ks[i] == ks.skip(1)[i - 1]);
            }
        }
        assert forall|i: int| position(ks, a) <= i < ks.len() implies ks[i] >= a by {
            assert(ks[i] == ks.skip(1)[i - 1]);
        }
    }
}

/// The set `dom` as an increasing sequence.
pub open spec fn keys_of(dom: Set<u32>) -> Seq<u32> {
    choose|ks: Seq<u32>| increasing(ks) && ks.to_set() == dom
}

pub proof fn lemma_insert_position(ks: Seq<u32>, a: u32)
    requires
        increasing(ks),
        !ks.contains(a),
    ensures
        increasing(ks.insert(position(ks, a) as int, a)),
        ks.insert(position(ks, a) as int, a).to_set() == ks.to_set().insert(a),
{
    lemma_position(ks, a);
    let p = position(ks, a) as int;
    let out = ks.insert(p, a);
    assert forall|i: int, j: int| 0 <= i < j < out.len() implies out[i] < out[j] by {
        assert(j > p ==> ks.contains(ks[j - 1]));
    }
    assert forall|x: u32| out.to_set().contains(x) == ks.to_set().insert(a).contains(x) by {
        if out.contains(x) {
            let i = choose|i: int| 0 <= i < out.len() && out[i] == x;
            if i < p {
                assert(ks[i] == x);
            } else if i > p {
                assert(ks[i - 1] == x);
            }
        }
        if ks.contains(x) {
            let i = choose|i: int| 0 <= i < ks.len() && ks[i] == x;
            if i < p {
                assert(out[i] == x);
            } else {
                assert(out[i + 1] == x);
            }
        }
        assert(out[p] == a);
    }
    assert(out.to_set() =~= ks.to_set().insert(a));
}

/// An increasing sequence is determined by its elements.
pub proof fn lemma_increasing_unique(ks: Seq<u32>, js: Seq<u32>)
    requires
        increasing(ks),
        increasing(js),
        ks.to_set() == js.to_set(),
    ensures
        ks == js,
    decreases ks.len(),
{
    if ks.len() == 0 {
        if js.len() > 0 {
            assert(js.to_set().contains(js[0]));
            assert(ks.contains(js[0]));
        }
    } else {
        assert(ks.to_set().contains(ks[0]));
        assert(js.contains(ks[0]));
        assert(js.to_set().contains(js[0]));
        assert(ks.contains(js[0]));
        assert(ks[0] == js[0]);
        lemma_tail_set(ks);
        lemma_tail_set(js);
        lemma_increasing_unique(ks.skip(1), js.skip(1));
        assert(ks =~= seq![ks[0]] + ks.skip(1));
        assert(js =~= seq![js[0]] + js.skip(1));
    }
}

pub proof fn lemma_tail_set(ks: Seq<u32>)
    requires
        increasing(ks),
        ks.len() > 0,
    ensures
        increasing(ks.skip(1)),
        ks.skip(1).to_set() == ks.to_set().remove(ks[0]),
{
    let t = ks.skip(1);
    assert forall|x: u32| t.to_set().contains(x) == ks.to_set().remove(ks[0]).contains(x) by {
        if t.contains(x) {
            let i = choose|i: int| 0 <= i < t.len() && t[i] == x;
            assert(ks[i + 1] == x);
        }
        if ks.contains(x) && x != ks[0] {
            let i = choose|i: int| 0 <= i < ks.len() && ks[i] == x;
            assert(t[i - 1] == x);
        }
    }
    assert(t.to_set() =~= ks.to_set().remove(ks[0]));
}

pub proof fn lemma_keys_of(dom: Set<u32>)
    requires
        dom.finite(),
    ensures
        increasing(keys_of(dom)),
        keys_of(dom).to_set() == dom,
        keys_of(dom).len() == dom.len(),
    decreases dom.len(),
{
    if dom.len() == 0 {
        let e = Seq::<u32>::empty();
        assert(dom =~= Set::empty());
        assert(e.to_set() =~= dom);
        assert(increasing(e));
    } else {
        let a = dom.choose();
        lemma_keys_of(dom.remove(a));
        let ks = keys_of(dom.remove(a));
        if ks.contains(a) {
            assert(ks.to_set().contains(a));
        }
        lemma_insert_position(ks, a);
        assert(dom.remove(a).insert(a) =~= dom);
    }
    let ks = keys_of(dom);
    assert(ks.no_duplicates());
    ks.unique_seq_to_set();
}

/// `keys_of` is the one increasing sequence with these elements.
pub proof fn lemma_keys_of_is(dom: Set<u32>, ks: Seq<u32>)
    requires
        increasing(ks),
        ks.to_set() == dom,
    ensures
        keys_of(dom) == ks,
{
    lemma_increasing_unique(keys_of(dom), ks);
}

/// The smallest key of a map.
pub fn first_key<V>(m: &BTreeMap<u32, V>) -> (r: Option<u32>)
    ensures
        match r {
            Some(k) => m@.len() > 0 && m@.contains_key(k) && keys_of(m@.dom())[0] == k,
            None => m@.len() == 0 && m@ == Map::<u32, V>::empty(),
        },
        m@.dom().finite(),
{
    broadcast use vstd::std_specs::btree::group_btree_axioms;
    broadcast use vstd::laws_cmp::group_laws_cmp;

    for kv in it: m.iter()
        invariant
            vstd::laws_cmp::obeys_cmp::<u32>(),
            it.seq() == vstd::std_specs::iter::IteratorSpec::remaining(&spec_btree_map_iter(m)),
            increasing_seq(it.seq().map_values(|kv: (&u32, &V)| *kv.0)),
            it.index() == 0,
    {
        let k = *kv.0;
        proof {
            let rem = it.seq();
            assert(m@.contains_key(*rem[0].0));
            lemma_keys_of(m@.dom());
            let first = keys_of(m@.dom())[0];
            assert(keys_of(m@.dom()).to_set().contains(k));
            assert(keys_of(m@.dom()).to_set().contains(first));
            let p = (&first, &m@[first]);
            assert(rem.contains(p));
            let i = choose|i: int| 0 <= i < rem.len() && rem[i] == p;
            let ks = rem.map_values(|kv: (&u32, &V)| *kv.0);
            assert(ks[0] == k && ks[i] == first);
            assert(increasing_seq(ks));
            assert(i > 0 ==> vstd::std_specs::cmp::OrdSpec::cmp_spec(&ks[0], &ks[i]) is Less);
            assert(k <= first);
        }
        return Some(k);
    }
    proof {
        assert(m@.dom().len() == 0);
        assert(m@ =~= Map::<u32, V>::empty());
    }
    None
}

/// Files `v` under `k`.
pub fn put<V>(m: &mut BTreeMap<u32, V>, k: u32, v: V)
    ensures
        final(m)@ == old(m)@.insert(k, v),
{
    broadcast use vstd::std_specs::btree::group_btree_axioms;
    broadcast use vstd::laws_cmp::group_laws_cmp;

    m.insert(k, v);
}

/// Takes out what is filed under `k`.
pub fn take<V>(m: &mut BTreeMap<u32, V>, k: u32) -> (v: Option<V>)
    ensures
        final(m)@ == old(m)@.remove(k),
        v == (if old(m)@.contains_key(k) {
            Some(old(m)@[k])
        } else {
            None::<V>
        }),
{
    broadcast use vstd::std_specs::btree::group_btree_axioms;
    broadcast use vstd::laws_cmp::group_laws_cmp;

    m.remove(&k)
}

/// What is filed under `k`.
pub fn peek<V>(m: &BTreeMap<u32, V>, k: u32) -> (v: Option<&V>)
    ensures
        v == (if m@.contains_key(k) {
            Some(&m@[k])
        } else {
            None::<&V>
        }),
{
    broadcast use vstd::std_specs::btree::group_btree_axioms;
    broadcast use vstd::laws_cmp::group_laws_cmp;

    m.get(&k)
}

/// Whether something is filed under `k`.
pub fn has<V>(m: &BTreeMap<u32, V>, k: u32) -> (b: bool)
    ensures
        b == m@.contains_key(k),
{
    broadcast use vstd::std_specs::btree::group_btree_axioms;
    broadcast use vstd::laws_cmp::group_laws_cmp;

    m.contains_key(&k)
}

/// How many keys there are.
pub fn count<V>(m: &BTreeMap<u32, V>) -> (n: usize)
    ensures
        n == m@.dom().len(),
{
    broadcast use vstd::std_specs::btree::group_btree_axioms;
    broadcast use vstd::laws_cmp::group_laws_cmp;

    m.len()
}

} // verus!
