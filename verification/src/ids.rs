//! Identifiers in ascending order: the order in which an id-keyed map is walked.

use std::collections::BTreeMap;
use vstd::prelude::*;
use vstd::std_specs::cmp::OrdSpec;
use vstd::std_specs::iter::IteratorSpec;

verus! {

/// The members of `ids` that lie below `bound`, smallest first.
pub open spec fn ids_below(ids: Set<u32>, bound: nat) -> Seq<u32>
    decreases bound,
{
    if bound == 0 {
        Seq::empty()
    } else if bound - 1 <= u32::MAX && ids.contains((bound - 1) as u32) {
        ids_below(ids, (bound - 1) as nat).push((bound - 1) as u32)
    } else {
        ids_below(ids, (bound - 1) as nat)
    }
}

/// All members of `ids`, smallest first.
pub open spec fn ascending(ids: Set<u32>) -> Seq<u32> {
    ids_below(ids, 0x1_0000_0000)
}

/// Each element is smaller than every later one.
pub open spec fn strictly_increasing(s: Seq<u32>) -> bool {
    forall|i: int, j: int| 0 <= i < j < s.len() ==> s[i] < s[j]
}

/// A strictly increasing sequence that holds exactly the members of `ids`
/// below `bound` is `ids_below(ids, bound)`.
pub proof fn lemma_ids_below_unique(s: Seq<u32>, ids: Set<u32>, bound: nat)
    requires
        strictly_increasing(s),
        forall|x: u32|
            #![trigger s.contains(x)]
            #![trigger ids.contains(x)]
            s.contains(x) <==> (ids.contains(x) && x < bound),
    ensures
        s == ids_below(ids, bound),
    decreases bound,
{
    if bound == 0 {
        if s.len() > 0 {
            assert(s.contains(s[0]));
        }
        assert(s =~= Seq::empty());
    } else {
        let top = (bound - 1) as nat;
        if top <= u32::MAX && ids.contains(top as u32) {
            let id = top as u32;
            assert(s.contains(id));
            let k = choose|k: int| 0 <= k < s.len() && s[k] == id;
            if k < s.len() - 1 {
                assert(s.contains(s[s.len() - 1]));
            }
            let rest = s.drop_last();
            assert forall|x: u32| rest.contains(x) <==> (ids.contains(x) && x < top) by {
                if rest.contains(x) {
                    let i = choose|i: int| 0 <= i < rest.len() && rest[i] == x;
                    assert(s[i] == x);
                    assert(s.contains(x));
                }
                if ids.contains(x) && x < top {
                    assert(s.contains(x));
                    let i = choose|i: int| 0 <= i < s.len() && s[i] == x;
                    assert(rest[i] == x);
                }
            }
            lemma_ids_below_unique(rest, ids, top);
            assert(s =~= rest.push(id));
        } else {
            assert forall|x: u32| s.contains(x) <==> (ids.contains(x) && x < top) by {}
            lemma_ids_below_unique(s, ids, top);
        }
    }
}

/// A strictly increasing sequence that holds exactly the members of `ids` is
/// `ascending(ids)`.
pub proof fn lemma_ascending_unique(s: Seq<u32>, ids: Set<u32>)
    requires
        strictly_increasing(s),
        forall|x: u32|
            #![trigger s.contains(x)]
            #![trigger ids.contains(x)]
            s.contains(x) <==> ids.contains(x),
    ensures
        s == ascending(ids),
{
    lemma_ids_below_unique(s, ids, 0x1_0000_0000);
}

/// `ascending(ids)` is strictly increasing and holds exactly the members of `ids`.
pub proof fn lemma_ascending(ids: Set<u32>)
    ensures
        strictly_increasing(ascending(ids)),
        forall|x: u32|
            #![trigger ascending(ids).contains(x)]
            #![trigger ids.contains(x)]
            ascending(ids).contains(x) <==> ids.contains(x),
{
    lemma_ids_below(ids, 0x1_0000_0000);
}

/// `ids_below(ids, bound)` is strictly increasing and holds exactly the members
/// of `ids` below `bound`.
pub proof fn lemma_ids_below(ids: Set<u32>, bound: nat)
    ensures
        strictly_increasing(ids_below(ids, bound)),
        forall|x: u32|
            #![trigger ids_below(ids, bound).contains(x)]
            #![trigger ids.contains(x)]
            ids_below(ids, bound).contains(x) <==> (ids.contains(x) && x < bound),
    decreases bound,
{
    if bound > 0 {
        let top = (bound - 1) as nat;
        lemma_ids_below(ids, top);
        let rest = ids_below(ids, top);
        let s = ids_below(ids, bound);
        if top <= u32::MAX && ids.contains(top as u32) {
            let id = top as u32;
            assert(s == rest.push(id));
            assert forall|i: int, j: int| 0 <= i < j < s.len() implies s[i] < s[j] by {
                assert(s[i] == rest[i]);
                if j < rest.len() {
                    assert(s[j] == rest[j]);
                } else {
                    assert(s[j] == id);
                    assert(rest.contains(rest[i]));
                    assert(rest[i] < top);
                }
            }
            assert forall|x: u32|
            #![trigger s.contains(x)]
            #![trigger ids.contains(x)]
            s.contains(x) <==> (ids.contains(x) && x < bound) by {
                if s.contains(x) {
                    let i = choose|i: int| 0 <= i < s.len() && s[i] == x;
                    if i < rest.len() {
                        assert(rest.contains(x));
                    }
                }
                if ids.contains(x) && x < bound {
                    if x == id {
                        assert(s[s.len() - 1] == x);
                    } else {
                        assert(rest.contains(x));
                        let i = choose|i: int| 0 <= i < rest.len() && rest[i] == x;
                        assert(s[i] == x);
                    }
                }
            }
        } else {
            assert(s == rest);
        }
    } else {
        assert forall|x: u32| !ids_below(ids, bound).contains(x) by {
            if ids_below(ids, bound).contains(x) {
                let i = choose|i: int|
                    0 <= i < ids_below(ids, bound).len() && ids_below(ids, bound)[i] == x;
            }
        }
    }
}

/// What a filter leaves of a strictly increasing sequence is strictly
/// increasing, and holds exactly the elements that pass.
pub proof fn lemma_filter_increasing(s: Seq<u32>, pred: spec_fn(u32) -> bool)
    requires
        strictly_increasing(s),
    ensures
        strictly_increasing(s.filter(pred)),
        forall|x: u32|
            #![trigger s.filter(pred).contains(x)]
            s.filter(pred).contains(x) <==> (s.contains(x) && pred(x)),
    decreases s.len(),
{
    reveal(Seq::filter);
    if s.len() > 0 {
        let rest = s.drop_last();
        let last = s.last();
        lemma_filter_increasing(rest, pred);
        let kept = rest.filter(pred);
        let out = s.filter(pred);
        assert forall|x: u32| rest.contains(x) implies x < last && s.contains(x) by {
            let i = choose|i: int| 0 <= i < rest.len() && rest[i] == x;
            assert(s[i] == x);
        }
        assert forall|x: u32| s.contains(x) implies rest.contains(x) || x == last by {
            let i = choose|i: int| 0 <= i < s.len() && s[i] == x;
            if i < rest.len() {
                assert(rest[i] == x);
            }
        }
        assert(s.contains(last)) by {
            assert(s[s.len() - 1] == last);
        }
        if pred(last) {
            assert(out == kept.push(last));
            assert forall|i: int, j: int| 0 <= i < j < out.len() implies out[i] < out[j] by {
                assert(out[i] == kept[i]);
                if j < kept.len() {
                    assert(out[j] == kept[j]);
                } else {
                    assert(kept.contains(kept[i]));
                }
            }
            assert forall|x: u32| out.contains(x) <==> (s.contains(x) && pred(x)) by {
                if out.contains(x) {
                    let i = choose|i: int| 0 <= i < out.len() && out[i] == x;
                    if i < kept.len() {
                        assert(kept.contains(kept[i]));
                    }
                }
                if s.contains(x) && pred(x) {
                    if x == last {
                        assert(out[out.len() - 1] == x);
                    } else {
                        assert(kept.contains(x));
                        let i = choose|i: int| 0 <= i < kept.len() && kept[i] == x;
                        assert(out[i] == x);
                    }
                }
            }
        } else {
            assert(out == kept);
        }
    } else {
        assert forall|x: u32| !s.filter(pred).contains(x) by {
            if s.filter(pred).contains(x) {
                let i = choose|i: int| 0 <= i < s.filter(pred).len() && s.filter(pred)[i] == x;
            }
        }
    }
}

/// Two strictly increasing sequences with the same elements are the same.
pub proof fn lemma_increasing_unique(a: Seq<u32>, b: Seq<u32>)
    requires
        strictly_increasing(a),
        strictly_increasing(b),
        forall|x: u32|
            #![trigger a.contains(x)]
            #![trigger b.contains(x)]
            a.contains(x) <==> b.contains(x),
    ensures
        a == b,
{
    let members = Set::new(|x: u32| a.contains(x));
    lemma_ascending_unique(a, members);
    lemma_ascending_unique(b, members);
}

/// What the map's iterator promises of its keys, read as `<` on integers.
proof fn lemma_increasing_keys(s: Seq<u32>)
    requires
        vstd::std_specs::btree::increasing_seq(s),
    ensures
        strictly_increasing(s),
{
    broadcast use vstd::std_specs::btree::group_btree_axioms;

    assert forall|i: int, j: int| 0 <= i < j < s.len() implies s[i] < s[j] by {
        assert(s[i].cmp_spec(&s[j]) is Less);
    }
}

/// The keys of an id-keyed map, smallest first.
pub fn ascending_keys<V>(m: &BTreeMap<u32, V>) -> (out: Vec<u32>)
    ensures
        out@ == ascending(m@.dom()),
{
    broadcast use vstd::std_specs::btree::group_btree_axioms;

    let mut out: Vec<u32> = Vec::new();
    let iter = m.iter();
    let ghost all = iter.remaining().map_values(|kv: (&u32, &V)| *kv.0);
    proof {
        lemma_increasing_keys(all);
    }
    for kv in it: iter
        invariant
            out@ == all.take(it.index()),
            all == it.seq().map_values(|kv: (&u32, &V)| *kv.0),
    {
        out.push(*kv.0);
    }
    proof {
        assert(out@ == all);
        let pairs = iter.remaining();
        assert forall|x: u32| all.contains(x) <==> m@.dom().contains(x) by {
            if all.contains(x) {
                let i = choose|i: int| 0 <= i < all.len() && all[i] == x;
                assert(m@.contains_key(*pairs[i].0));
            }
            if m@.dom().contains(x) {
                assert(m@.contains_key(x));
                assert(pairs.contains((&x, &m@[x])));
                let i = choose|i: int| 0 <= i < pairs.len() && pairs[i] == (&x, &m@[x]);
                assert(all[i] == x);
            }
        }
        lemma_ascending_unique(all, m@.dom());
    }
    out
}

} // verus!
