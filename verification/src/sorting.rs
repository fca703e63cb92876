//! Entity identifiers in ascending order: the order in which a resolution
//! pass walks the neighbours of an entity.

use vstd::prelude::*;

verus! {

/// Every element is less than the ones after it.
pub open spec fn strictly_ascending(s: Seq<u64>) -> bool {
    forall|i: int, j: int| 0 <= i < j < s.len() ==> s[i] < s[j]
}

/// The elements of a finite set, from the least to the greatest.
pub open spec fn ascending(set: Set<u64>) -> Seq<u64> {
    choose|s: Seq<u64>| strictly_ascending(s) && s.to_set() == set
}

proof fn lemma_last_is_greatest(a: Seq<u64>, x: u64)
    requires
        strictly_ascending(a),
        a.to_set().contains(x),
    ensures
        a.len() > 0,
        x <= a.last(),
{
    let j = choose|j: int| 0 <= j < a.len() && a[j] == x;
    assert(a.contains(x));
}

proof fn lemma_drop_last_set(a: Seq<u64>)
    requires
        strictly_ascending(a),
        a.len() > 0,
    ensures
        strictly_ascending(a.drop_last()),
        a.drop_last().to_set() == a.to_set().remove(a.last()),
{
    let shorter = a.drop_last();
    assert forall|x: u64| shorter.to_set().contains(x) == a.to_set().remove(a.last()).contains(
        x,
    ) by {
        if shorter.contains(x) {
            let j = choose|j: int| 0 <= j < shorter.len() && shorter[j] == x;
            assert(a[j] == x);
            assert(a[j] < a[a.len() - 1]);
        }
        if a.contains(x) && x != a.last() {
            let j = choose|j: int| 0 <= j < a.len() && a[j] == x;
            assert(shorter[j] == x);
        }
    }
    assert(shorter.to_set() =~= a.to_set().remove(a.last()));
}

/// A set has at most one strictly ascending enumeration.
pub proof fn lemma_ascending_unique(a: Seq<u64>, b: Seq<u64>)
    requires
        strictly_ascending(a),
        strictly_ascending(b),
        a.to_set() == b.to_set(),
    ensures
        a == b,
    decreases a.len(),
{
    if a.len() == 0 {
        if b.len() > 0 {
            assert(b.contains(b[0]));
            assert(a.to_set().contains(b[0]));
            let j = choose|j: int| 0 <= j < a.len() && a[j] == b[0];
        }
        assert(a =~= b);
    } else {
        assert(a.contains(a.last()));
        assert(b.to_set().contains(a.last()));
        lemma_last_is_greatest(b, a.last());
        assert(b.contains(b.last()));
        assert(a.to_set().contains(b.last()));
        lemma_last_is_greatest(a, b.last());
        lemma_drop_last_set(a);
        lemma_drop_last_set(b);
        lemma_ascending_unique(a.drop_last(), b.drop_last());
        assert(a =~= a.drop_last().push(a.last()));
        assert(b =~= b.drop_last().push(b.last()));
    }
}

/// A strictly ascending sequence is the ascending enumeration of its elements.
pub proof fn lemma_ascending_is(s: Seq<u64>)
    requires
        strictly_ascending(s),
    ensures
        ascending(s.to_set()) == s,
{
    let chosen = ascending(s.to_set());
    assert(strictly_ascending(chosen) && chosen.to_set() == s.to_set());
    lemma_ascending_unique(chosen, s);
}

/// The distinct elements of `v`, from the least to the greatest.
pub fn sort_ascending(v: &Vec<u64>) -> (r: Vec<u64>)
    ensures
        strictly_ascending(r@),
        r@.to_set() == v@.to_set(),
        r@ == ascending(v@.to_set()),
{
    let mut sorted: Vec<u64> = Vec::new();
    let mut i: usize = 0;
    proof {
        assert(sorted@.to_set() =~= v@.take(0).to_set());
    }
    while i < v.len()
        invariant
            i <= v.len(),
            strictly_ascending(sorted@),
            sorted@.to_set() == v@.take(i as int).to_set(),
            sorted@.len() <= i,
        decreases v.len() - i,
    {
        let x: u64 = v[i];
        let mut pos: usize = 0;
        while pos < sorted.len() && sorted[pos] < x
            invariant
                pos <= sorted.len(),
                forall|k: int| 0 <= k < pos ==> sorted@[k] < x,
            decreases sorted.len() - pos,
        {
            pos = pos + 1;
        }
        let ghost before = sorted@;
        let ghost shorter = v@.take(i as int);
        let ghost longer = v@.take(i + 1);
        let present: bool = pos < sorted.len() && sorted[pos] == x;
        if !present {
            sorted.insert(pos, x);
            proof {
                before.insert_ensures(pos as int, x);
                let after = sorted@;
                assert forall|a: int, b: int| 0 <= a < b < after.len() implies after[a]
                    < after[b] by {
                    if a < pos && b > pos {
                        assert(after[a] == before[a]);
                        assert(after[b] == before[b - 1]);
                        assert(before[a] < x);
                        assert(x < before[pos as int] || x == before[b - 1] || x < before[b - 1]);
                    } else if a < pos && b == pos {
                        assert(after[a] == before[a]);
                    } else if a < pos && b < pos {
                        assert(after[a] == before[a]);
                        assert(after[b] == before[b]);
                    } else if a == pos {
                        assert(after[b] == before[b - 1]);
                        assert(before[pos as int] <= before[b - 1]);
                    } else {
                        assert(after[a] == before[a - 1]);
                        assert(after[b] == before[b - 1]);
                    }
                }
                assert forall|y: u64| after.to_set().contains(y) == before.to_set().insert(
                    x,
                ).contains(y) by {
                    if after.contains(y) {
                        let j = choose|j: int| 0 <= j < after.len() && after[j] == y;
                        if j < pos {
                            assert(before[j] == y);
                        } else if j > pos {
                            assert(before[j - 1] == y);
                        }
                    }
                    if before.contains(y) {
                        let j = choose|j: int| 0 <= j < before.len() && before[j] == y;
                        if j < pos {
                            assert(after[j] == y);
                        } else {
                            assert(after[j + 1] == y);
                        }
                    }
                    if y == x {
                        assert(after[pos as int] == y);
                    }
                }
                assert(after.to_set() =~= before.to_set().insert(x));
            }
        } else {
            proof {
                assert(before.contains(x));
                assert(before.to_set().insert(x) =~= before.to_set());
            }
        }
        proof {
            assert forall|y: u64| longer.to_set().contains(y) == shorter.to_set().insert(
                x,
            ).contains(y) by {
                if longer.contains(y) {
                    let j = choose|j: int| 0 <= j < longer.len() && longer[j] == y;
                    if j < i {
                        assert(shorter[j] == y);
                    }
                }
                if shorter.contains(y) {
                    let j = choose|j: int| 0 <= j < shorter.len() && shorter[j] == y;
                    assert(longer[j] == y);
                }
                if y == x {
                    assert(longer[i as int] == y);
                }
            }
            assert(longer.to_set() =~= shorter.to_set().insert(x));
        }
        i = i + 1;
    }
    proof {
        assert(v@.take(v.len() as int) =~= v@);
        lemma_ascending_is(sorted@);
    }
    sorted
}

} // verus!
