//! Reading order of a routing graph's hops.
//!
//! Hops are listed so that reading top to bottom follows the signal from
//! the inputs through the device: a depth-first walk from Input Tip, then
//! from Input Ring, emitting each hop the first time it is reached (a
//! connector's outgoing hops in index order); hops never reached trail at
//! the end in index order.
use vstd::prelude::*;

use crate::presets::ConnectorSlug;

verus! {

/// One hop of a routing graph: (from connector, to connector).
pub type HopPair = (ConnectorSlug, ConnectorSlug);

/// One frame of the walk: a connector and the index from which its outgoing
/// hops are still to be examined.
pub type WalkFrame = (ConnectorSlug, int);

/// The state of the walk: which hops were emitted, the emitted indices in
/// order, and the stack of frames (top last).
pub type WalkState = (Seq<bool>, Seq<usize>, Seq<WalkFrame>);

/// The first index at or after `pos` (and at least 0) of a hop leaving
/// `node`; `hops.len()` when there is none.
pub open spec fn next_from(hops: Seq<HopPair>, node: ConnectorSlug, pos: int) -> int
    decreases hops.len() - pos,
{
    if pos < 0 {
        next_from(hops, node, 0)
    } else if pos >= hops.len() {
        hops.len() as int
    } else if hops[pos].0 == node {
        pos
    } else {
        next_from(hops, node, pos + 1)
    }
}

/// One step of the walk from its top frame: pop it when the connector has
/// no further outgoing hop; otherwise move past that hop and, if the hop was
/// not emitted yet, emit it and descend into its target.
pub open spec fn walk_step(hops: Seq<HopPair>, st: WalkState) -> WalkState {
    let visited = st.0;
    let ordered = st.1;
    let stack = st.2;
    let top = stack.last();
    let j = next_from(hops, top.0, top.1);
    if j >= hops.len() {
        (visited, ordered, stack.drop_last())
    } else if j < visited.len() && !visited[j] {
        (
            visited.update(j, true),
            ordered.push(j as usize),
            stack.update(stack.len() - 1, (top.0, j + 1)).push((hops[j].1, 0)),
        )
    } else {
        (visited, ordered, stack.update(stack.len() - 1, (top.0, j + 1)))
    }
}

/// Number of hops not emitted yet.
pub open spec fn count_unvisited(v: Seq<bool>) -> nat
    decreases v.len(),
{
    if v.len() == 0 {
        0
    } else {
        count_unvisited(v.drop_last()) + if v.last() {
            0nat
        } else {
            1nat
        }
    }
}

/// How many positions a frame still has to examine (plus one).
pub open spec fn frame_weight(f: WalkFrame, n: int) -> nat {
    if f.1 <= n {
        (n + 1 - f.1) as nat
    } else {
        0
    }
}

/// Total weight of the frames on a stack.
pub open spec fn stack_weight(s: Seq<WalkFrame>, n: int) -> nat
    decreases s.len(),
{
    if s.len() == 0 {
        0
    } else {
        stack_weight(s.drop_last(), n) + frame_weight(s.last(), n)
    }
}

proof fn lemma_next_from_bounds(hops: Seq<HopPair>, node: ConnectorSlug, pos: int)
    ensures
        0 <= next_from(hops, node, pos) <= hops.len(),
        next_from(hops, node, pos) < hops.len() ==> next_from(hops, node, pos) >= pos
            && hops[next_from(hops, node, pos)].0 == node,
    decreases hops.len() - pos,
{
    if pos < 0 {
        lemma_next_from_bounds(hops, node, 0);
    } else if pos < hops.len() && hops[pos].0 != node {
        lemma_next_from_bounds(hops, node, pos + 1);
    }
}

proof fn lemma_count_unvisited_update(v: Seq<bool>, j: int)
    requires
        0 <= j < v.len(),
        !v[j],
    ensures
        count_unvisited(v.update(j, true)) < count_unvisited(v),
    decreases v.len(),
{
    let w = v.update(j, true);
    if j == v.len() - 1 {
        assert(w.drop_last() =~= v.drop_last());
    } else {
        assert(w.drop_last() =~= v.drop_last().update(j, true));
        lemma_count_unvisited_update(v.drop_last(), j);
    }
}

/// Each step of the walk shrinks (unvisited hops, stack weight, stack height)
/// lexicographically.
pub proof fn lemma_walk_step_decreases(hops: Seq<HopPair>, st: WalkState)
    requires
        st.2.len() > 0,
    ensures
        ({
            let nx = walk_step(hops, st);
            let n = hops.len() as int;
            count_unvisited(nx.0) < count_unvisited(st.0) || (count_unvisited(nx.0)
                == count_unvisited(st.0) && (stack_weight(nx.2, n) < stack_weight(st.2, n) || (
            stack_weight(nx.2, n) == stack_weight(st.2, n) && nx.2.len() < st.2.len())))
        }),
{
    let n = hops.len() as int;
    let stack = st.2;
    let top = stack.last();
    let j = next_from(hops, top.0, top.1);
    lemma_next_from_bounds(hops, top.0, top.1);
    if j >= hops.len() {
    } else if j < st.0.len() && !st.0[j] {
        lemma_count_unvisited_update(st.0, j);
    } else {
        let s2 = stack.update(stack.len() - 1, (top.0, j + 1));
        assert(s2.drop_last() =~= stack.drop_last());
        assert(s2.last() == (top.0, j + 1));
    }
}

/// Runs the walk until its stack is empty.
pub open spec fn walk_run(hops: Seq<HopPair>, st: WalkState) -> WalkState
    decreases count_unvisited(st.0), stack_weight(st.2, hops.len() as int), st.2.len(),
{
    if st.2.len() == 0 {
        st
    } else {
        proof {
            lemma_walk_step_decreases(hops, st);
        }
        walk_run(hops, walk_step(hops, st))
    }
}

/// The walk's start: nothing emitted, Input Tip on top of Input Ring.
pub open spec fn walk_init(n: nat) -> WalkState {
    (
        Seq::new(n, |i: int| false),
        Seq::empty(),
        seq![(ConnectorSlug::InputRing, 0int), (ConnectorSlug::InputTip, 0int)],
    )
}

/// The indices below `k` whose hop was not emitted, in increasing order.
pub open spec fn unvisited_upto(v: Seq<bool>, k: int) -> Seq<usize>
    decreases k,
{
    if k <= 0 {
        Seq::empty()
    } else {
        unvisited_upto(v, k - 1) + if !v[k - 1] {
            seq![(k - 1) as usize]
        } else {
            Seq::empty()
        }
    }
}

/// The reading order of `hops`: the walk's emitted indices, then the
/// indices it never reached.
pub open spec fn spec_hop_order(hops: Seq<HopPair>) -> Seq<usize> {
    let st = walk_run(hops, walk_init(hops.len()));
    st.1 + unvisited_upto(st.0, hops.len() as int)
}

/// What the walk keeps true: the flags and the emitted list agree, and no
/// index is emitted twice.
pub open spec fn walk_inv(n: int, st: WalkState) -> bool {
    &&& st.0.len() == n
    &&& st.1.no_duplicates()
    &&& forall|k: int| 0 <= k < st.1.len() ==> (#[trigger] st.1[k]) < n
    &&& forall|i: int| 0 <= i < n ==> (#[trigger] st.0[i] <==> st.1.contains(i as usize))
}

proof fn lemma_walk_step_inv(hops: Seq<HopPair>, st: WalkState)
    requires
        hops.len() <= usize::MAX,
        st.2.len() > 0,
        walk_inv(hops.len() as int, st),
    ensures
        walk_inv(hops.len() as int, walk_step(hops, st)),
{
    let n = hops.len() as int;
    let top = st.2.last();
    let j = next_from(hops, top.0, top.1);
    lemma_next_from_bounds(hops, top.0, top.1);
    if j < n && j < st.0.len() && !st.0[j] {
        let nx = walk_step(hops, st);
        assert(!st.1.contains(j as usize));
        assert forall|a: int, b: int| 0 <= a < b < nx.1.len() implies nx.1[a] != nx.1[b] by {
            if b == nx.1.len() - 1 {
                assert(st.1[a] == nx.1[a]);
                if st.1[a] == j as usize {
                    assert(st.1.contains(j as usize));
                }
            }
        }
        assert forall|i: int| 0 <= i < n implies (#[trigger] nx.0[i] <==> nx.1.contains(
            i as usize,
        )) by {
            if i == j {
                assert(nx.1[nx.1.len() - 1] == j as usize);
            } else {
                if nx.1.contains(i as usize) {
                    let k = choose|k: int| 0 <= k < nx.1.len() && nx.1[k] == i as usize;
                    assert(k < st.1.len());
                    assert(st.1[k] == i as usize);
                }
                if st.1.contains(i as usize) {
                    let k = choose|k: int| 0 <= k < st.1.len() && st.1[k] == i as usize;
                    assert(nx.1[k] == i as usize);
                }
            }
        }
    }
}

proof fn lemma_walk_run_inv(hops: Seq<HopPair>, st: WalkState)
    requires
        hops.len() <= usize::MAX,
        walk_inv(hops.len() as int, st),
    ensures
        walk_inv(hops.len() as int, walk_run(hops, st)),
        walk_run(hops, st).2.len() == 0,
    decreases count_unvisited(st.0), stack_weight(st.2, hops.len() as int), st.2.len(),
{
    if st.2.len() > 0 {
        lemma_walk_step_decreases(hops, st);
        lemma_walk_step_inv(hops, st);
        lemma_walk_run_inv(hops, walk_step(hops, st));
    }
}

proof fn lemma_unvisited_upto(v: Seq<bool>, k: int)
    requires
        0 <= k <= v.len(),
        v.len() <= usize::MAX,
    ensures
        unvisited_upto(v, k).no_duplicates(),
        forall|q: int| 0 <= q < unvisited_upto(v, k).len() ==> (#[trigger] unvisited_upto(v, k)[q])
            < k && !v[unvisited_upto(v, k)[q] as int],
        forall|i: int| 0 <= i < k && !v[i] ==> #[trigger] unvisited_upto(v, k).contains(i as usize),
    decreases k,
{
    if k > 0 {
        lemma_unvisited_upto(v, k - 1);
        let prev = unvisited_upto(v, k - 1);
        let cur = unvisited_upto(v, k);
        let last: Seq<usize> = if !v[k - 1] {
            seq![(k - 1) as usize]
        } else {
            Seq::empty()
        };
        assert(cur == prev + last);
        assert forall|i: int| 0 <= i < k && !v[i] implies cur.contains(i as usize) by {
            if i < k - 1 {
                assert(prev.contains(i as usize));
                let q = choose|q: int| 0 <= q < prev.len() && prev[q] == i as usize;
                assert(cur[q] == i as usize);
            } else {
                assert(cur[cur.len() - 1] == i as usize);
            }
        }
    }
}

/// The reading order lists every hop index exactly once: its entries are
/// below `hops.len()`, pairwise distinct, and every index below
/// `hops.len()` occurs in it.
pub proof fn lemma_hop_order_permutation(hops: Seq<HopPair>)
    requires
        hops.len() <= usize::MAX,
    ensures
        spec_hop_order(hops).no_duplicates(),
        forall|k: int|
            0 <= k < spec_hop_order(hops).len() ==> (#[trigger] spec_hop_order(hops)[k])
                < hops.len(),
        forall|i: int|
            0 <= i < hops.len() ==> #[trigger] spec_hop_order(hops).contains(i as usize),
{
    let n = hops.len() as int;
    let init = walk_init(hops.len());
    assert(init.1 =~= Seq::<usize>::empty());
    assert(walk_inv(n, init));
    lemma_walk_run_inv(hops, init);
    let st = walk_run(hops, init);
    lemma_unvisited_upto(st.0, n);
    let tail = unvisited_upto(st.0, n);
    let res = st.1 + tail;
    assert forall|a: int, b: int| 0 <= a < b < res.len() implies res[a] != res[b] by {
        if a < st.1.len() && b >= st.1.len() {
            let t = res[b];
            assert(t == tail[b - st.1.len()]);
            assert(!st.0[t as int]);
            if res[a] == t {
                assert(st.1.contains(t));
            }
        }
    }
    assert forall|i: int| 0 <= i < n implies #[trigger] res.contains(i as usize) by {
        if st.0[i] {
            let k = choose|k: int| 0 <= k < st.1.len() && st.1[k] == i as usize;
            assert(res[k] == i as usize);
        } else {
            assert(tail.contains(i as usize));
            let k = choose|k: int| 0 <= k < tail.len() && tail[k] == i as usize;
            assert(res[st.1.len() + k] == tail[k]);
        }
    }
}

// ---------------------------------------------------------------------------
// What the reading order is for
// ---------------------------------------------------------------------------

/// Input Tip and Input Ring, where signal enters the device.
pub open spec fn is_input(c: ConnectorSlug) -> bool {
    c == ConnectorSlug::InputTip || c == ConnectorSlug::InputRing
}

/// Whether `p` is a path of hop indices: it starts with a hop leaving an
/// input, and each hop leaves the connector the one before it enters.
pub open spec fn is_hop_path(hops: Seq<HopPair>, p: Seq<int>) -> bool {
    &&& p.len() > 0
    &&& forall|k: int| 0 <= k < p.len() ==> 0 <= #[trigger] p[k] < hops.len()
    &&& is_input(hops[p[0]].0)
    &&& forall|k: int| 0 < k < p.len() ==> hops[p[k - 1]].1 == #[trigger] hops[p[k]].0
}

/// Whether hop `i` is reached from an input: some path of hops ends with it.
pub open spec fn hop_reached(hops: Seq<HopPair>, i: int) -> bool {
    exists|p: Seq<int>| #[trigger] is_hop_path(hops, p) && p.last() == i
}

/// Whether connector `c` is an input or entered by one of the emitted hops.
pub open spec fn entered(hops: Seq<HopPair>, o: Seq<usize>, c: ConnectorSlug) -> bool {
    is_input(c) || exists|q: int| 0 <= q < o.len() && #[trigger] hops[o[q] as int].1 == c
}

/// What the walk keeps true beyond [`walk_inv`]: every frame is for a
/// connector already entered, every emitted hop leaves an input or a
/// connector an earlier emitted hop enters, each frame has examined its
/// connector's hops below its position, and every entered connector is on
/// the stack or has all its hops emitted.
pub open spec fn order_inv(hops: Seq<HopPair>, st: WalkState) -> bool {
    order_inv_parts(hops, st.0, st.1, st.2)
}

/// [`order_inv`] over the three parts of a walk state.
pub open spec fn order_inv_parts(
    hops: Seq<HopPair>,
    v: Seq<bool>,
    o: Seq<usize>,
    s: Seq<WalkFrame>,
) -> bool {
    let n = hops.len() as int;
    &&& walk_inv(n, (v, o, s))
    &&& forall|t: int| 0 <= t < s.len() ==> entered(hops, o, (#[trigger] s[t]).0) && s[t].1 >= 0
    &&& forall|p: int|
        0 <= p < o.len() ==> is_input(hops[#[trigger] o[p] as int].0) || exists|q: int|
            0 <= q < p && hops[o[q] as int].1 == hops[o[p] as int].0
    &&& forall|t: int, j: int|
        0 <= t < s.len() && 0 <= j < s[t].1 && j < n && #[trigger] hops[j].0 == (#[trigger] s[t]).0
            ==> v[j]
    &&& forall|c: ConnectorSlug|
        #[trigger] entered(hops, o, c) ==> (exists|t: int| 0 <= t < s.len() && s[t].0 == c)
            || forall|j: int| 0 <= j < n && hops[j].0 == c ==> #[trigger] v[j]
}

proof fn lemma_next_from_skips(hops: Seq<HopPair>, node: ConnectorSlug, pos: int, i: int)
    requires
        0 <= pos <= i < next_from(hops, node, pos),
        i < hops.len(),
    ensures
        hops[i].0 != node,
    decreases hops.len() - pos,
{
    if pos < hops.len() && hops[pos].0 != node && pos < i {
        lemma_next_from_skips(hops, node, pos + 1, i);
    }
}

proof fn lemma_entered_grows(hops: Seq<HopPair>, o: Seq<usize>, j: usize, c: ConnectorSlug)
    requires
        entered(hops, o, c),
    ensures
        entered(hops, o.push(j), c),
{
    if !is_input(c) {
        let q = choose|q: int| 0 <= q < o.len() && #[trigger] hops[o[q] as int].1 == c;
        assert(o.push(j)[q] == o[q]);
    }
}

proof fn lemma_order_step(hops: Seq<HopPair>, st: WalkState)
    requires
        hops.len() <= usize::MAX,
        st.2.len() > 0,
        order_inv(hops, st),
    ensures
        order_inv(hops, walk_step(hops, st)),
{
    let n = hops.len() as int;
    let v = st.0;
    let o = st.1;
    let s = st.2;
    let top = s.last();
    let j = next_from(hops, top.0, top.1);
    lemma_next_from_bounds(hops, top.0, top.1);
    lemma_walk_step_inv(hops, st);
    let nx = walk_step(hops, st);
    assert(entered(hops, o, s[s.len() - 1].0));
    if j >= n {
        let s2 = s.drop_last();
        assert(nx == (v, o, s2));
        assert forall|p: int| 0 <= p < o.len() implies is_input(hops[#[trigger] o[p] as int].0)
            || exists|q: int| 0 <= q < p && hops[o[q] as int].1 == hops[o[p] as int].0 by {
        }
        assert forall|t: int| 0 <= t < s2.len() implies entered(hops, o, (#[trigger] s2[t]).0)
            && s2[t].1 >= 0 by {
            assert(s2[t] == s[t]);
        }
        assert forall|t: int, i: int|
            0 <= t < s2.len() && 0 <= i < s2[t].1 && i < n && #[trigger] hops[i].0 == (
            #[trigger] s2[t]).0 implies v[i] by {
            assert(s2[t] == s[t]);
        }
        assert forall|c: ConnectorSlug| #[trigger] entered(hops, o, c) implies (exists|t: int|
            0 <= t < s2.len() && s2[t].0 == c) || forall|i: int|
            0 <= i < n && hops[i].0 == c ==> #[trigger] v[i] by {
            if !(forall|i: int| 0 <= i < n && hops[i].0 == c ==> #[trigger] v[i]) {
                let t = choose|t: int| 0 <= t < s.len() && s[t].0 == c;
                if t == s.len() - 1 {
                    assert forall|i: int| 0 <= i < n && hops[i].0 == c implies #[trigger] v[i] by {
                        if i >= top.1 {
                            if i < j {
                                lemma_next_from_skips(hops, c, top.1, i);
                            }
                        } else {
                            assert(hops[i].0 == s[t].0);
                        }
                    }
                } else {
                    assert(s2[t] == s[t]);
                }
            }
        }
        assert(walk_inv(n, (v, o, s2)));
        assert(order_inv_parts(hops, v, o, s2));
    } else if j < v.len() && !v[j] {
        let v2 = v.update(j, true);
        let o2 = o.push(j as usize);
        let s1 = s.update(s.len() - 1, (top.0, j + 1));
        let s2 = s1.push((hops[j].1, 0int));
        assert(nx == (v2, o2, s2));
        assert(o2[o.len() as int] == j as usize);
        assert(entered(hops, o2, hops[j].1));
        assert forall|t: int| 0 <= t < s2.len() implies entered(hops, o2, (#[trigger] s2[t]).0)
            && s2[t].1 >= 0 by {
            if t < s.len() {
                assert(s2[t].0 == s[t].0);
                lemma_entered_grows(hops, o, j as usize, s[t].0);
            }
        }
        assert forall|p: int| 0 <= p < o2.len() implies is_input(hops[#[trigger] o2[p] as int].0)
            || exists|q: int| 0 <= q < p && hops[o2[q] as int].1 == hops[o2[p] as int].0 by {
            if p < o.len() {
                assert(o2[p] == o[p]);
                if !is_input(hops[o[p] as int].0) {
                    let q = choose|q: int| 0 <= q < p && hops[o[q] as int].1 == hops[o[p] as int].0;
                    assert(o2[q] == o[q]);
                }
            } else {
                assert(hops[j].0 == top.0);
                if !is_input(top.0) {
                    let q = choose|q: int| 0 <= q < o.len() && #[trigger] hops[o[q] as int].1 == top.0;
                    assert(o2[q] == o[q]);
                }
            }
        }
        assert forall|t: int, i: int|
            0 <= t < s2.len() && 0 <= i < s2[t].1 && i < n && #[trigger] hops[i].0 == (
            #[trigger] s2[t]).0 implies v2[i] by {
            if t < s.len() - 1 {
                assert(s2[t] == s[t]);
            } else if t == s.len() - 1 {
                if i < top.1 {
                    assert(hops[i].0 == s[t].0);
                } else if i < j {
                    lemma_next_from_skips(hops, top.0, top.1, i);
                }
            }
        }
        assert forall|c: ConnectorSlug| #[trigger] entered(hops, o2, c) implies (exists|t: int|
            0 <= t < s2.len() && s2[t].0 == c) || forall|i: int|
            0 <= i < n && hops[i].0 == c ==> #[trigger] v2[i] by {
            if c == hops[j].1 {
                assert(s2[s.len() as int].0 == c);
            } else {
                assert(entered(hops, o, c)) by {
                    if !is_input(c) {
                        let q = choose|q: int| 0 <= q < o2.len() && #[trigger] hops[o2[q] as int].1 == c;
                        assert(q < o.len());
                        assert(o2[q] == o[q]);
                    }
                }
                if exists|t: int| 0 <= t < s.len() && s[t].0 == c {
                    let t = choose|t: int| 0 <= t < s.len() && s[t].0 == c;
                    assert(s2[t].0 == c);
                }
            }
        }
        assert(walk_inv(n, (v2, o2, s2)));
        assert(order_inv_parts(hops, v2, o2, s2));
    } else {
        let s2 = s.update(s.len() - 1, (top.0, j + 1));
        assert(nx == (v, o, s2));
        assert forall|p: int| 0 <= p < o.len() implies is_input(hops[#[trigger] o[p] as int].0)
            || exists|q: int| 0 <= q < p && hops[o[q] as int].1 == hops[o[p] as int].0 by {
        }
        assert forall|t: int| 0 <= t < s2.len() implies entered(hops, o, (#[trigger] s2[t]).0)
            && s2[t].1 >= 0 by {
            assert(s2[t].0 == s[t].0);
        }
        assert forall|t: int, i: int|
            0 <= t < s2.len() && 0 <= i < s2[t].1 && i < n && #[trigger] hops[i].0 == (
            #[trigger] s2[t]).0 implies v[i] by {
            if t < s.len() - 1 {
                assert(s2[t] == s[t]);
            } else {
                if i < top.1 {
                    assert(hops[i].0 == s[t].0);
                } else if i < j {
                    lemma_next_from_skips(hops, top.0, top.1, i);
                }
            }
        }
        assert forall|c: ConnectorSlug| #[trigger] entered(hops, o, c) implies (exists|t: int|
            0 <= t < s2.len() && s2[t].0 == c) || forall|i: int|
            0 <= i < n && hops[i].0 == c ==> #[trigger] v[i] by {
            if exists|t: int| 0 <= t < s.len() && s[t].0 == c {
                let t = choose|t: int| 0 <= t < s.len() && s[t].0 == c;
                assert(s2[t].0 == c);
            }
        }
        assert(walk_inv(n, (v, o, s2)));
        assert(order_inv_parts(hops, v, o, s2));
    }
}

proof fn lemma_order_run(hops: Seq<HopPair>, st: WalkState)
    requires
        hops.len() <= usize::MAX,
        order_inv(hops, st),
    ensures
        order_inv(hops, walk_run(hops, st)),
        walk_run(hops, st).2.len() == 0,
    decreases count_unvisited(st.0), stack_weight(st.2, hops.len() as int), st.2.len(),
{
    if st.2.len() > 0 {
        lemma_walk_step_decreases(hops, st);
        lemma_order_step(hops, st);
        lemma_order_run(hops, walk_step(hops, st));
    }
}

/// The finished walk: its emitted hops are exactly the reached ones.
proof fn lemma_walk_result(hops: Seq<HopPair>)
    requires
        hops.len() <= usize::MAX,
    ensures
        ({
            let st = walk_run(hops, walk_init(hops.len()));
            &&& order_inv(hops, st)
            &&& forall|i: int| 0 <= i < hops.len() ==> (#[trigger] st.0[i] <==> hop_reached(hops, i))
        }),
{
    let n = hops.len() as int;
    let init = walk_init(hops.len());
    assert(init.1 =~= Seq::<usize>::empty());
    assert(walk_inv(n, init));
    assert forall|t: int| 0 <= t < init.2.len() implies #[trigger] entered(hops, init.1, init.2[t].0)
        && init.2[t].1 >= 0 by {
    }
    assert forall|c: ConnectorSlug| #[trigger] entered(hops, init.1, c) implies (exists|t: int|
        0 <= t < init.2.len() && init.2[t].0 == c) || forall|i: int|
        0 <= i < n && hops[i].0 == c ==> #[trigger] init.0[i] by {
        if c == ConnectorSlug::InputTip {
            assert(init.2[1].0 == c);
        } else {
            assert(init.2[0].0 == c);
        }
    }
    assert(order_inv(hops, init));
    lemma_order_run(hops, init);
    let st = walk_run(hops, init);
    let v = st.0;
    let o = st.1;
    // Emitted hops are reached: by induction along the emitted order.
    assert forall|p: int| 0 <= p < o.len() implies hop_reached(hops, #[trigger] o[p] as int) by {
        lemma_emitted_reached(hops, o, p);
    }
    // Reached hops are emitted: by induction along a path.
    assert forall|i: int| 0 <= i < n implies (#[trigger] v[i] <==> hop_reached(hops, i)) by {
        if v[i] {
            assert(o.contains(i as usize));
            let p = choose|p: int| 0 <= p < o.len() && o[p] == i as usize;
            assert(hop_reached(hops, o[p] as int));
        }
        if hop_reached(hops, i) {
            let path = choose|path: Seq<int>| #[trigger] is_hop_path(hops, path) && path.last() == i;
            lemma_path_visited(hops, st, path, path.len() - 1);
        }
    }
}

proof fn lemma_emitted_reached(hops: Seq<HopPair>, o: Seq<usize>, p: int)
    requires
        0 <= p < o.len(),
        forall|k: int| 0 <= k < o.len() ==> (#[trigger] o[k]) < hops.len(),
        forall|r: int|
            0 <= r < o.len() ==> is_input(hops[#[trigger] o[r] as int].0) || exists|q: int|
                0 <= q < r && hops[o[q] as int].1 == hops[o[r] as int].0,
    ensures
        hop_reached(hops, o[p] as int),
    decreases p,
{
    let i = o[p] as int;
    assert(o[p] < hops.len());
    if is_input(hops[i].0) {
        let path = seq![i];
        assert(is_hop_path(hops, path));
    } else {
        let q = choose|q: int| 0 <= q < p && hops[o[q] as int].1 == hops[o[p] as int].0;
        lemma_emitted_reached(hops, o, q);
        let path0 = choose|path: Seq<int>| #[trigger] is_hop_path(hops, path) && path.last() == o[q] as int;
        let path = path0.push(i);
        assert forall|k: int| 0 <= k < path.len() implies 0 <= #[trigger] path[k] < hops.len() by {
            if k < path0.len() {
                assert(path[k] == path0[k]);
            }
        }
        assert forall|k: int| 0 < k < path.len() implies hops[path[k - 1]].1 == #[trigger] hops[path[k]].0 by {
            if k < path0.len() {
                assert(path[k] == path0[k] && path[k - 1] == path0[k - 1]);
            } else {
                assert(path[k - 1] == path0.last());
            }
        }
        assert(path[0] == path0[0]);
        assert(is_hop_path(hops, path));
    }
}

proof fn lemma_path_visited(hops: Seq<HopPair>, st: WalkState, path: Seq<int>, k: int)
    requires
        hops.len() <= usize::MAX,
        order_inv(hops, st),
        st.2.len() == 0,
        is_hop_path(hops, path),
        0 <= k < path.len(),
    ensures
        st.0[path[k]],
    decreases k,
{
    let n = hops.len() as int;
    let i = path[k];
    assert(0 <= i < n);
    let c = hops[i].0;
    if k == 0 {
        assert(entered(hops, st.1, c));
    } else {
        lemma_path_visited(hops, st, path, k - 1);
        let prev = path[k - 1];
        assert(0 <= prev < n);
        assert(hops[path[k - 1]].1 == hops[path[k]].0);
        assert(st.1.contains(prev as usize));
        let q = choose|q: int| 0 <= q < st.1.len() && st.1[q] == prev as usize;
        assert(hops[st.1[q] as int].1 == c);
        assert(entered(hops, st.1, c));
    }
    assert(hops[i].0 == c);
}

/// The reading order of the hops lists first exactly the hops reached from
/// an input (Input Tip or Input Ring) by a path of hops, then the others.
/// Among the reached ones, each hop that does not leave an input comes
/// after a hop that enters the connector it leaves.
pub proof fn lemma_hop_order_follows_signal(hops: Seq<HopPair>)
    requires
        hops.len() <= usize::MAX,
    ensures
        ({
            let o = spec_hop_order(hops);
            &&& forall|a: int, b: int|
                0 <= a < o.len() && 0 <= b < o.len() && hop_reached(hops, #[trigger] o[a] as int)
                    && !hop_reached(hops, #[trigger] o[b] as int) ==> a < b
            &&& forall|k: int|
                0 <= k < o.len() && hop_reached(hops, #[trigger] o[k] as int) && !is_input(
                    hops[o[k] as int].0,
                ) ==> exists|q: int| 0 <= q < k && hops[o[q] as int].1 == hops[o[k] as int].0
        }),
{
    let n = hops.len() as int;
    lemma_walk_result(hops);
    let st = walk_run(hops, walk_init(hops.len()));
    let v = st.0;
    let e = st.1;
    lemma_unvisited_upto(v, n);
    let tail = unvisited_upto(v, n);
    let o = spec_hop_order(hops);
    assert(o == e + tail);
    assert forall|k: int| 0 <= k < o.len() implies (#[trigger] hop_reached(hops, o[k] as int) <==> k
        < e.len()) by {
        if k < e.len() {
            assert(o[k] == e[k]);
            assert(e.contains(e[k]));
            assert(v[e[k] as int]);
        } else {
            assert(o[k] == tail[k - e.len()]);
            assert(!v[tail[k - e.len()] as int]);
        }
    }
    assert forall|k: int|
        0 <= k < o.len() && hop_reached(hops, #[trigger] o[k] as int) && !is_input(
            hops[o[k] as int].0,
        ) implies exists|q: int| 0 <= q < k && hops[o[q] as int].1 == hops[o[k] as int].0 by {
        assert(k < e.len());
        assert(o[k] == e[k]);
        let q = choose|q: int| 0 <= q < k && hops[e[q] as int].1 == hops[e[k] as int].0;
        assert(o[q] == e[q]);
    }
}

/// The view of an exec stack of frames.
pub open spec fn stack_view(s: Seq<(ConnectorSlug, usize)>) -> Seq<WalkFrame> {
    s.map_values(|f: (ConnectorSlug, usize)| (f.0, f.1 as int))
}

fn next_index_from(hops: &[HopPair], node: ConnectorSlug, pos: usize) -> (r: usize)
    requires
        pos <= hops@.len(),
    ensures
        r == next_from(hops@, node, pos as int),
        r <= hops@.len(),
{
    let mut i = pos;
    while i < hops.len()
        invariant
            pos <= i <= hops@.len(),
            next_from(hops@, node, pos as int) == next_from(hops@, node, i as int),
        decreases hops@.len() - i,
    {
        if hops[i].0 == node {
            return i;
        }
        i += 1;
    }
    i
}

/// Computes [`spec_hop_order`].
pub(crate) fn hop_order(hops: &[HopPair]) -> (r: Vec<usize>)
    ensures
        r@ == spec_hop_order(hops@),
{
    let n = hops.len();
    let ghost init = walk_init(n as nat);
    let mut visited: Vec<bool> = Vec::new();
    let mut k: usize = 0;
    while k < n
        invariant
            k <= n,
            visited@ == Seq::new(k as nat, |i: int| false),
        decreases n - k,
    {
        visited.push(false);
        k += 1;
        assert(visited@ =~= Seq::new(k as nat, |i: int| false));
    }
    let mut ordered: Vec<usize> = Vec::new();
    let mut stack: Vec<(ConnectorSlug, usize)> = Vec::new();
    stack.push((ConnectorSlug::InputRing, 0));
    stack.push((ConnectorSlug::InputTip, 0));
    assert((visited@, ordered@, stack_view(stack@)) =~= init);
    while stack.len() > 0
        invariant
            n == hops@.len(),
            visited@.len() == n,
            forall|q: int| 0 <= q < stack@.len() ==> #[trigger] stack@[q].1 <= n,
            walk_run(hops@, (visited@, ordered@, stack_view(stack@))) == walk_run(hops@, init),
        decreases count_unvisited(visited@), stack_weight(stack_view(stack@), n as int), stack@.len(),
    {
        let ghost before = (visited@, ordered@, stack_view(stack@));
        proof {
            lemma_walk_step_decreases(hops@, before);
        }
        let last = stack.len() - 1;
        let top = stack[last];
        let j = next_index_from(hops, top.0, top.1);
        if j >= n {
            stack.pop();
            proof {
                assert(stack_view(stack@) =~= before.2.drop_last());
            }
        } else if !visited[j] {
            visited.set(j, true);
            ordered.push(j);
            stack.set(last, (top.0, j + 1));
            stack.push((hops[j].1, 0));
            proof {
                assert(stack_view(stack@) =~= before.2.update(before.2.len() - 1, (top.0, j + 1)).push(
                    (hops@[j as int].1, 0),
                ));
            }
        } else {
            stack.set(last, (top.0, j + 1));
            proof {
                assert(stack_view(stack@) =~= before.2.update(before.2.len() - 1, (top.0, j + 1)));
            }
        }
        assert((visited@, ordered@, stack_view(stack@)) == walk_step(hops@, before));
    }
    let ghost done = (visited@, ordered@, stack_view(stack@));
    assert(done.2.len() == 0);
    let ghost emitted = ordered@;
    let mut i: usize = 0;
    while i < n
        invariant
            i <= n,
            n == hops@.len(),
            visited@.len() == n,
            done == walk_run(hops@, init),
            done.0 == visited@,
            ordered@ == emitted + unvisited_upto(visited@, i as int),
            emitted == done.1,
        decreases n - i,
    {
        if !visited[i] {
            ordered.push(i);
        }
        proof {
            assert(ordered@ =~= emitted + unvisited_upto(visited@, i as int + 1));
        }
        i += 1;
    }
    ordered
}

} // verus!
