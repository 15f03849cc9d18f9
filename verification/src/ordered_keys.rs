//! Keys of finite identifier sets in increasing order.
use vstd::prelude::*;
use vstd::std_specs::btree::increasing_seq;
use vstd::std_specs::cmp::OrdSpec;

verus! {

/// A sequence of keys in strictly increasing order.
pub open spec fn strictly_increasing(keys: Seq<u64>) -> bool {
    forall|i: int, j: int| 0 <= i < j < keys.len() ==> keys[i] < keys[j]
}

/// The keys of a finite set of identifiers, smallest first.
pub open spec fn keys_in_order(keys: Set<u64>) -> Seq<u64> {
    choose|ordered: Seq<u64>| ordered.to_set() == keys && strictly_increasing(ordered)
}

/// The values of a map, ordered by their keys.
pub open spec fn values_in_key_order<V>(m: Map<u64, V>) -> Seq<V> {
    keys_in_order(m.dom()).map_values(|key: u64| m[key])
}

/// Two increasing sequences that hold the same keys are the same sequence.
pub proof fn lemma_increasing_keys_unique(a: Seq<u64>, b: Seq<u64>)
    requires
        strictly_increasing(a),
        strictly_increasing(b),
        a.to_set() == b.to_set(),
    ensures
        a == b,
    decreases a.len(),
{
    if a.len() == 0 {
        if b.len() > 0 {
            assert(b.to_set().contains(b[0]));
            assert(a.to_set().contains(b[0]));
        }
        assert(a =~= b);
    } else {
        assert(a.to_set().contains(a[0]));
        assert(b.to_set().contains(a[0]));
        assert(b.len() > 0);
        assert(b.to_set().contains(b[0]));
        assert(a.to_set().contains(b[0]));
        let ia = choose|i: int| 0 <= i < a.len() && a[i] == b[0];
        let ib = choose|i: int| 0 <= i < b.len() && b[i] == a[0];
        assert(a[0] <= a[ia]);
        assert(b[0] <= b[ib]);
        assert(a[0] == b[0]);
        let ra = a.drop_first();
        let rb = b.drop_first();
        assert forall|k: u64| ra.to_set().contains(k) implies rb.to_set().contains(k) by {
            let i = choose|i: int| 0 <= i < ra.len() && ra[i] == k;
            assert(a[i + 1] == k);
            assert(a.to_set().contains(k));
            assert(b.to_set().contains(k));
            let j = choose|j: int| 0 <= j < b.len() && b[j] == k;
            assert(j != 0);
            assert(rb[j - 1] == k);
        }
        assert forall|k: u64| rb.to_set().contains(k) implies ra.to_set().contains(k) by {
            let i = choose|i: int| 0 <= i < rb.len() && rb[i] == k;
            assert(b[i + 1] == k);
            assert(b.to_set().contains(k));
            assert(a.to_set().contains(k));
            let j = choose|j: int| 0 <= j < a.len() && a[j] == k;
            assert(j != 0);
            assert(ra[j - 1] == k);
        }
        assert(ra.to_set() =~= rb.to_set());
        lemma_increasing_keys_unique(ra, rb);
        assert forall|i: int| 0 <= i < a.len() implies a[i] == b[i] by {
            if i > 0 {
                assert(a[i] == ra[i - 1]);
                assert(b[i] == rb[i - 1]);
            }
        }
        assert(a =~= b);
    }
}

/// Keys that a B-tree yields in increasing order are strictly increasing.
pub proof fn lemma_increasing_is_strict(keys: Seq<u64>)
    requires
        increasing_seq(keys),
    ensures
        strictly_increasing(keys),
{
    assert(vstd::laws_cmp::obeys_cmp::<u64>());
    assert forall|i: int, j: int| 0 <= i < j < keys.len() implies keys[i] < keys[j] by {
        assert(keys[i].cmp_spec(&keys[j]) is Less);
    }
}

/// Key references that a B-tree yields in increasing order name strictly
/// increasing keys.
pub proof fn lemma_increasing_refs_are_strict(keys: Seq<&u64>)
    requires
        increasing_seq(keys),
    ensures
        strictly_increasing(keys.map_values(|k: &u64| *k)),
{
    assert(vstd::laws_cmp::obeys_cmp::<u64>());
    assert(vstd::laws_cmp::obeys_cmp::<&u64>());
    let plain = keys.map_values(|k: &u64| *k);
    assert forall|i: int, j: int| 0 <= i < j < keys.len() implies #[trigger] plain[i]
        < #[trigger] plain[j] by {
        let (a, b) = (keys[i], keys[j]);
        assert(OrdSpec::cmp_spec(&a, &b) is Less);
    }
}

/// A sorted witness for a key set is the one that [`keys_in_order`] names.
pub proof fn lemma_keys_in_order_is(keys: Set<u64>, ordered: Seq<u64>)
    requires
        ordered.to_set() == keys,
        strictly_increasing(ordered),
    ensures
        keys_in_order(keys) == ordered,
{
    let chosen = keys_in_order(keys);
    assert(chosen.to_set() == keys && strictly_increasing(chosen));
    lemma_increasing_keys_unique(chosen, ordered);
}

} // verus!
