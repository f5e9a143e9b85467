//! Wavefront numbers: what a cycle's levelling must produce.
use vstd::prelude::*;
use crate::node::{NodeType, RtlNode, type_of, is_anchor};
use crate::topology::parents_spec;

verus! {

/// The kind of each element.
pub open spec fn node_types(nodes: Seq<RtlNode>) -> Seq<NodeType> {
    nodes.map_values(|n: RtlNode| type_of(n.kind))
}

/// Element `p` has a wavefront.
pub open spec fn levelled(levels: Seq<Option<usize>>, p: usize) -> bool {
    p < levels.len() && levels[p as int] is Some
}

/// Every element of `ps` has a wavefront.
pub open spec fn all_levelled(levels: Seq<Option<usize>>, ps: Seq<usize>) -> bool {
    forall|j: int| 0 <= j < ps.len() ==> #[trigger] levelled(levels, ps[j])
}

/// Element `v` may join the next wavefront: it is not an anchor (anchors
/// are placed at wavefront 0 and never join a later one), has no wavefront
/// yet, and has parents, all of which have one.
pub open spec fn ready(types: Seq<NodeType>, edges: Seq<(usize, usize)>, levels: Seq<Option<usize>>, v: int) -> bool {
    let ps = parents_spec(edges, v as usize);
    &&& !is_anchor(types[v])
    &&& levels[v] is None
    &&& ps.len() > 0
    &&& all_levelled(levels, ps)
}

/// The wavefront of element `v` is justified: an anchor has wavefront 0;
/// any other element with a wavefront has parents, all of them in earlier
/// wavefronts and one of them in the wavefront just before.
pub open spec fn node_level_sound(types: Seq<NodeType>, edges: Seq<(usize, usize)>, levels: Seq<Option<usize>>, v: int) -> bool {
    let ps = parents_spec(edges, v as usize);
    &&& is_anchor(types[v]) ==> levels[v] == Some(0usize)
    &&& (!is_anchor(types[v]) && levels[v] is Some) ==> {
        let k = levels[v]->Some_0;
        &&& ps.len() > 0
        &&& k > 0
        &&& forall|j: int| 0 <= j < ps.len() ==> #[trigger] levelled(levels, ps[j])
            && levels[ps[j] as int]->Some_0 < k
        &&& exists|j: int| 0 <= j < ps.len() && #[trigger] levels[ps[j] as int] == Some((k - 1) as usize)
    }
}

/// Every element's wavefront is justified.
pub open spec fn levels_sound(types: Seq<NodeType>, edges: Seq<(usize, usize)>, levels: Seq<Option<usize>>) -> bool {
    &&& levels.len() == types.len()
    &&& forall|v: int| 0 <= v < levels.len() ==> #[trigger] node_level_sound(types, edges, levels, v)
}

/// No element could still join a wavefront.
pub open spec fn levels_complete(types: Seq<NodeType>, edges: Seq<(usize, usize)>, levels: Seq<Option<usize>>) -> bool {
    forall|v: int| 0 <= v < levels.len() ==> !#[trigger] ready(types, edges, levels, v)
}

/// No wavefront exceeds `lvl`.
pub open spec fn levels_bounded(levels: Seq<Option<usize>>, lvl: usize) -> bool {
    forall|u: int| 0 <= u < levels.len() && (#[trigger] levels[u]) is Some ==> levels[u]->Some_0 <= lvl
}

/// Every element that is not an anchor, has parents and has no wavefront
/// yet, waits for a parent without a wavefront or in wavefront `lvl`.
pub open spec fn frontier_waits(types: Seq<NodeType>, edges: Seq<(usize, usize)>, levels: Seq<Option<usize>>, lvl: usize) -> bool {
    forall|u: int| 0 <= u < levels.len() && !is_anchor(types[u]) && levels[u] is None
        && parents_spec(edges, u as usize).len() > 0 ==> #[trigger] waits_on(edges, levels, u, lvl)
}

/// Element `u` has a parent without a wavefront or in wavefront `lvl`.
pub open spec fn waits_on(edges: Seq<(usize, usize)>, levels: Seq<Option<usize>>, u: int, lvl: usize) -> bool {
    let ps = parents_spec(edges, u as usize);
    exists|j: int| 0 <= j < ps.len() && (!levelled(levels, #[trigger] ps[j]) || levels[ps[j] as int] == Some(lvl))
}

/// Wavefront `lvl + 1` taken from the ready elements keeps the wavefronts
/// justified, bounded and waiting, and leaves fewer elements without one.
pub proof fn lemma_next_wavefront(
    types: Seq<NodeType>,
    edges: Seq<(usize, usize)>,
    levels: Seq<Option<usize>>,
    nl: Seq<Option<usize>>,
    lvl: usize,
)
    requires
        lvl < usize::MAX,
        levels_sound(types, edges, levels),
        levels_bounded(levels, lvl),
        frontier_waits(types, edges, levels, lvl),
        nl.len() == levels.len(),
        forall|v: int| 0 <= v < levels.len() ==> #[trigger] nl[v] == if ready(types, edges, levels, v) {
            Some((lvl + 1) as usize)
        } else {
            levels[v]
        },
        exists|v: int| 0 <= v < levels.len() && #[trigger] ready(types, edges, levels, v),
    ensures
        levels_sound(types, edges, nl),
        levels_bounded(nl, (lvl + 1) as usize),
        frontier_waits(types, edges, nl, (lvl + 1) as usize),
        count_none(nl) < count_none(levels),
{
    let k1 = (lvl + 1) as usize;
    // An element that had a wavefront keeps it.
    assert forall|p: usize| #[trigger] levelled(levels, p) implies levelled(nl, p) && nl[p as int] == levels[p as int] by {
        assert(!ready(types, edges, levels, p as int));
    }
    assert forall|v: int| 0 <= v < nl.len() implies #[trigger] node_level_sound(types, edges, nl, v) by {
        let ps = parents_spec(edges, v as usize);
        assert(node_level_sound(types, edges, levels, v));
        if ready(types, edges, levels, v) {
            assert forall|j: int| 0 <= j < ps.len() implies #[trigger] levelled(nl, ps[j]) && nl[ps[j] as int]->Some_0 < k1 by {
                assert(levelled(levels, ps[j]));
            }
            assert(waits_on(edges, levels, v, lvl));
            let j = choose|j: int| 0 <= j < ps.len() && (!levelled(levels, #[trigger] ps[j]) || levels[ps[j] as int] == Some(lvl));
            assert(levelled(levels, ps[j]));
            assert(nl[ps[j] as int] == Some((k1 - 1) as usize));
        } else if !is_anchor(types[v]) && nl[v] is Some {
            let k = nl[v]->Some_0;
            assert forall|j: int| 0 <= j < ps.len() implies #[trigger] levelled(nl, ps[j]) && nl[ps[j] as int]->Some_0 < k by {
                assert(levelled(levels, ps[j]));
            }
            let j = choose|j: int| 0 <= j < ps.len() && #[trigger] levels[ps[j] as int] == Some((k - 1) as usize);
            assert(levelled(levels, ps[j]));
            assert(nl[ps[j] as int] == Some((k - 1) as usize));
        }
    }
    assert forall|u: int| 0 <= u < nl.len() && !is_anchor(types[u]) && nl[u] is None
        && parents_spec(edges, u as usize).len() > 0 implies #[trigger] waits_on(edges, nl, u, k1) by {
        let ps = parents_spec(edges, u as usize);
        assert(!ready(types, edges, levels, u));
        assert(!all_levelled(levels, ps));
        let j = choose|j: int| 0 <= j < ps.len() && !#[trigger] levelled(levels, ps[j]);
        assert(!levelled(nl, ps[j]) || nl[ps[j] as int] == Some(k1));
    }
    let w = choose|v: int| 0 <= v < levels.len() && #[trigger] ready(types, edges, levels, v);
    assert(nl[w] is Some);
    assert forall|i: int| 0 <= i < nl.len() && (#[trigger] nl[i]) is None implies levels[i] is None by {}
    lemma_count_none_mono(levels, nl);
}

/// The number of wavefronts: one more than the highest, or 0 for none.
pub open spec fn wavefront_count(s: Seq<Option<usize>>) -> nat
    decreases s.len(),
{
    if s.len() == 0 {
        0
    } else {
        let r = wavefront_count(s.drop_last());
        let l: nat = match s.last() {
            Some(k) => (k + 1) as nat,
            None => 0,
        };
        if l > r { l } else { r }
    }
}

/// With every wavefront at most `lvl` and one at `lvl`, there are `lvl + 1`
/// wavefronts; with none at all there are none.
pub proof fn lemma_wavefront_count(s: Seq<Option<usize>>, lvl: usize)
    requires
        levels_bounded(s, lvl),
    ensures
        wavefront_count(s) <= lvl + 1,
        (exists|i: int| 0 <= i < s.len() && #[trigger] s[i] == Some(lvl)) ==> wavefront_count(s) == lvl + 1,
        (forall|i: int| 0 <= i < s.len() ==> #[trigger] s[i] is None) ==> wavefront_count(s) == 0,
    decreases s.len(),
{
    if s.len() > 0 {
        let s1 = s.drop_last();
        assert forall|u: int| 0 <= u < s1.len() && (#[trigger] s1[u]) is Some implies s1[u]->Some_0 <= lvl by {
            assert(s1[u] == s[u]);
        }
        lemma_wavefront_count(s1, lvl);
        assert(s.last() == s[s.len() - 1]);
        if exists|i: int| 0 <= i < s.len() && #[trigger] s[i] == Some(lvl) {
            let i = choose|i: int| 0 <= i < s.len() && #[trigger] s[i] == Some(lvl);
            if i < s.len() - 1 {
                assert(s1[i] == s[i]);
            }
        }
        if forall|i: int| 0 <= i < s.len() ==> #[trigger] s[i] is None {
            assert forall|i: int| 0 <= i < s1.len() implies #[trigger] s1[i] is None by {
                assert(s1[i] == s[i]);
            }
        }
    }
}

/// The number of elements without a wavefront.
pub open spec fn count_none(s: Seq<Option<usize>>) -> nat
    decreases s.len(),
{
    if s.len() == 0 {
        0
    } else {
        count_none(s.drop_last()) + if s.last() is None { 1nat } else { 0nat }
    }
}

/// Giving wavefronts to more elements never raises the count of those
/// without one, and lowers it when one more element gets a wavefront.
pub proof fn lemma_count_none_mono(a: Seq<Option<usize>>, b: Seq<Option<usize>>)
    requires
        a.len() == b.len(),
        forall|i: int| 0 <= i < b.len() && (#[trigger] b[i]) is None ==> a[i] is None,
    ensures
        count_none(b) <= count_none(a),
        count_none(a) <= a.len(),
        (exists|i: int| 0 <= i < a.len() && a[i] is None && #[trigger] b[i] is Some) ==> count_none(b) < count_none(a),
    decreases a.len(),
{
    if a.len() > 0 {
        let a1 = a.drop_last();
        let b1 = b.drop_last();
        assert forall|i: int| 0 <= i < b1.len() && (#[trigger] b1[i]) is None implies a1[i] is None by {
            assert(b1[i] == b[i]);
            assert(a1[i] == a[i]);
        }
        lemma_count_none_mono(a1, b1);
        if exists|i: int| 0 <= i < a.len() && a[i] is None && #[trigger] b[i] is Some {
            let i = choose|i: int| 0 <= i < a.len() && a[i] is None && #[trigger] b[i] is Some;
            if i < a.len() - 1 {
                assert(a1[i] == a[i] && b1[i] == b[i]);
            }
        }
    }
}

/// A sequence with an entry that has a wavefront counts fewer entries
/// without one than it has entries.
pub proof fn lemma_count_none_lt(s: Seq<Option<usize>>, i: int)
    requires
        0 <= i < s.len(),
        s[i] is Some,
    ensures
        count_none(s) < s.len(),
    decreases s.len(),
{
    let d = s.drop_last();
    lemma_count_none_mono(d, d);
    assert(s.last() == s[s.len() - 1]);
    if i < s.len() - 1 {
        assert(d[i] == s[i]);
        lemma_count_none_lt(d, i);
    }
}

/// A sequence with an entry that has no wavefront counts at least one.
pub proof fn lemma_count_none_pos(s: Seq<Option<usize>>, i: int)
    requires
        0 <= i < s.len(),
        s[i] is None,
    ensures
        count_none(s) >= 1,
    decreases s.len(),
{
    if i < s.len() - 1 {
        assert(s.drop_last()[i] == s[i]);
        lemma_count_none_pos(s.drop_last(), i);
    }
}

} // verus!
