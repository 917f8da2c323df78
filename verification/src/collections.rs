//! Ordered listings of the integer-keyed sets and maps the simulation keeps.
use vstd::prelude::*;
use std::collections::{BTreeMap, BTreeSet};
use vstd::std_specs::iter::IteratorSpec;
use vstd::std_specs::cmp::OrdSpec;

verus! {

broadcast use vstd::std_specs::btree::group_btree_axioms;

/// The sequence is strictly increasing.
pub open spec fn strictly_increasing(s: Seq<u64>) -> bool {
    forall|i: int, j: int| 0 <= i < j < s.len() ==> s[i] < s[j]
}

spec fn ordered_before<T: OrdSpec>(a: &T, b: &T) -> bool {
    a.cmp_spec(b) is Less
}

proof fn lemma_increasing_members(refs: Seq<&u64>, values: Seq<u64>)
    requires
        vstd::std_specs::btree::increasing_seq(refs),
        values == refs.map_values(|r: &u64| *r),
    ensures
        strictly_increasing(values),
{
    assert(vstd::laws_cmp::obeys_cmp::<&u64>());
    vstd::std_specs::btree::axiom_increasing_seq_meaning(refs);
    assert forall|i: int, j: int| 0 <= i < j < values.len() implies values[i] < values[j] by {
        assert(ordered_before::<&u64>(&refs[i], &refs[j]));
        assert(*refs[i] == values[i]);
        assert(*refs[j] == values[j]);
    }
}

/// The members of a set of identities, smallest first.
pub fn set_members(s: &BTreeSet<u64>) -> (v: Vec<u64>)
    ensures
        v@.to_set() == s@,
        v@.len() == s@.len(),
        strictly_increasing(v@),
{
    let mut v: Vec<u64> = Vec::new();
    for k in it: s.iter()
        invariant
            it.seq() == vstd::std_specs::btree::spec_btree_keys_iter(s).remaining(),
            v@ == it.seq().take(it.index() as int).map_values(|r: &u64| *r),
    {
        v.push(*k);
        proof {
            assert(v@ =~= it.seq().take(it.index() + 1).map_values(|r: &u64| *r));
        }
    }
    proof {
        let rem = vstd::std_specs::btree::spec_btree_keys_iter(s).remaining();
        assert(v@ =~= rem.map_values(|r: &u64| *r));
        assert(v@.to_set() =~= s@) by {
            assert forall|x: u64| v@.to_set().contains(x) <==> s@.contains(x) by {
                if s@.contains(x) {
                    assert(rem.unref().to_set().contains(x));
                    let i = choose|i: int| 0 <= i < rem.unref().len() && rem.unref()[i] == x;
                    assert(v@[i] == x);
                }
                if v@.to_set().contains(x) {
                    let i = choose|i: int| 0 <= i < v@.len() && v@[i] == x;
                    assert(rem.unref()[i] == x);
                    assert(rem.unref().to_set().contains(x));
                }
            }
        }
        lemma_increasing_members(rem, v@);
    }
    v
}

/// The keys of an identity-keyed map, smallest first.
pub fn map_keys<V>(m: &BTreeMap<u64, V>) -> (v: Vec<u64>)
    ensures
        v@.to_set() == m@.dom(),
        v@.len() == m@.dom().len(),
        strictly_increasing(v@),
{
    let mut v: Vec<u64> = Vec::new();
    for k in it: m.keys()
        invariant
            it.seq() == vstd::std_specs::btree::spec_keys_iter(m).remaining(),
            v@ == it.seq().take(it.index() as int).map_values(|r: &u64| *r),
    {
        v.push(*k);
        proof {
            assert(v@ =~= it.seq().take(it.index() + 1).map_values(|r: &u64| *r));
        }
    }
    proof {
        let rem = vstd::std_specs::btree::spec_keys_iter(m).remaining();
        assert(v@ =~= rem.map_values(|r: &u64| *r));
        assert(v@.to_set() =~= m@.dom()) by {
            assert forall|x: u64| v@.to_set().contains(x) <==> m@.dom().contains(x) by {
                if m@.dom().contains(x) {
                    assert(rem.unref().to_set().contains(x));
                    let i = choose|i: int| 0 <= i < rem.unref().len() && rem.unref()[i] == x;
                    assert(v@[i] == x);
                }
                if v@.to_set().contains(x) {
                    let i = choose|i: int| 0 <= i < v@.len() && v@[i] == x;
                    assert(rem.unref()[i] == x);
                    assert(rem.unref().to_set().contains(x));
                }
            }
        }
        lemma_increasing_members(rem, v@);
    }
    v
}

/// The members of a finite set of identities, smallest first.
pub open spec fn sorted_members(s: Set<u64>) -> Seq<u64> {
    choose|v: Seq<u64>| strictly_increasing(v) && v.to_set() == s
}

proof fn lemma_first_is_least(v: Seq<u64>, x: u64)
    requires
        strictly_increasing(v),
        v.len() > 0,
        v.to_set().contains(x),
    ensures
        v[0] <= x,
{
    let i = choose|i: int| 0 <= i < v.len() && v[i] == x;
    if i > 0 {
        assert(v[0] < v[i]);
    }
}

/// A set of identities has only one increasing enumeration.
pub proof fn lemma_sorted_unique(a: Seq<u64>, b: Seq<u64>)
    requires
        strictly_increasing(a),
        strictly_increasing(b),
        a.to_set() == b.to_set(),
    ensures
        a == b,
    decreases a.len(),
{
    if a.len() == 0 {
        if b.len() > 0 {
            assert(b.to_set().contains(b[0]));
            assert(a.to_set().contains(b[0]));
        }
        assert(a =~= b);
    } else {
        assert(a.to_set().contains(a[0]));
        assert(b.to_set().contains(a[0]));
        assert(b.len() > 0);
        assert(b.to_set().contains(b[0]));
        assert(a.to_set().contains(b[0]));
        lemma_first_is_least(a, b[0]);
        lemma_first_is_least(b, a[0]);
        let a2 = a.drop_first();
        let b2 = b.drop_first();
        assert(a2.to_set() =~= b2.to_set()) by {
            assert forall|x: u64| a2.to_set().contains(x) implies b2.to_set().contains(x) by {
                let i = choose|i: int| 0 <= i < a2.len() && a2[i] == x;
                assert(a[i + 1] == x);
                assert(a[0] < x);
                assert(b.to_set().contains(x));
                let j = choose|j: int| 0 <= j < b.len() && b[j] == x;
                assert(j != 0);
                assert(b2[j - 1] == x);
            }
            assert forall|x: u64| b2.to_set().contains(x) implies a2.to_set().contains(x) by {
                let i = choose|i: int| 0 <= i < b2.len() && b2[i] == x;
                assert(b[i + 1] == x);
                assert(b[0] < x);
                assert(a.to_set().contains(x));
                let j = choose|j: int| 0 <= j < a.len() && a[j] == x;
                assert(j != 0);
                assert(a2[j - 1] == x);
            }
        }
        lemma_sorted_unique(a2, b2);
        assert(b2.len() == a2.len());
        assert(b.len() == a.len());
        assert(a =~= b) by {
            assert forall|i: int| 0 <= i < a.len() implies a[i] == b[i] by {
                if i > 0 {
                    assert(a[i] == a2[i - 1]);
                    assert(b[i] == b2[i - 1]);
                }
            }
        }
    }
}

/// An increasing enumeration of a set is its sorted members.
pub proof fn lemma_is_sorted_members(v: Seq<u64>, s: Set<u64>)
    requires
        strictly_increasing(v),
        v.to_set() == s,
    ensures
        sorted_members(s) == v,
{
    let w = sorted_members(s);
    assert(strictly_increasing(w) && w.to_set() == s);
    lemma_sorted_unique(v, w);
}

/// The sorted members of a set, as a vector.
pub fn sorted_set_members(s: &BTreeSet<u64>) -> (v: Vec<u64>)
    ensures
        v@ == sorted_members(s@),
        v@.len() == s@.len(),
{
    let v = set_members(s);
    proof {
        lemma_is_sorted_members(v@, s@);
    }
    v
}

/// The sorted keys of a map, as a vector.
pub fn sorted_map_keys<V>(m: &BTreeMap<u64, V>) -> (v: Vec<u64>)
    ensures
        v@ == sorted_members(m@.dom()),
        v@.len() == m@.dom().len(),
{
    let v = map_keys(m);
    proof {
        lemma_is_sorted_members(v@, m@.dom());
    }
    v
}

} // verus!
