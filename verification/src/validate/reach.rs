//! Fourteen relaxation rounds find exactly the connectors that some path
//! of hops reaches from an input.
use vstd::prelude::*;

use crate::decode::hop_order::HopPair;
use crate::validate::{output_reachable, reach_rounds, relax_upto};

verus! {

/// Whether `hops` holds a hop from connector value `a` to connector value `b`.
pub open spec fn has_hop(hops: Seq<HopPair>, a: int, b: int) -> bool {
    exists|j: int|
        0 <= j < hops.len() && (#[trigger] hops[j]).0.spec_value() == a && hops[j].1.spec_value()
            == b
}

/// Whether step `k` of path `p` (from `p[k]` to `p[k + 1]`) is a hop.
pub open spec fn path_step_ok(hops: Seq<HopPair>, p: Seq<int>, k: int) -> bool {
    has_hop(hops, p[k], p[k + 1])
}

/// Whether `p` is a path of connector values that starts at an input
/// (Input Tip or Input Ring) and follows hops.
pub open spec fn is_input_path(hops: Seq<HopPair>, p: Seq<int>) -> bool {
    &&& p.len() > 0
    &&& (p[0] == 10 || p[0] == 11)
    &&& forall|k: int| 0 <= k < p.len() - 1 ==> #[trigger] path_step_ok(hops, p, k)
}

/// Whether some path of hops leads from an input to connector value `v`.
pub open spec fn reachable(hops: Seq<HopPair>, v: int) -> bool {
    exists|p: Seq<int>| #[trigger] is_input_path(hops, p) && p.last() == v
}

/// The number of `true` entries of `s`.
pub open spec fn count_true(s: Seq<bool>) -> nat
    decreases s.len(),
{
    if s.len() == 0 {
        0
    } else {
        count_true(s.drop_last()) + if s.last() {
            1nat
        } else {
            0nat
        }
    }
}

proof fn lemma_rounds_len(hops: Seq<HopPair>, k: nat)
    ensures
        reach_rounds(hops, k).len() == 14,
    decreases k,
{
}

proof fn lemma_count_bound(s: Seq<bool>)
    ensures
        count_true(s) <= s.len(),
    decreases s.len(),
{
    if s.len() > 0 {
        lemma_count_bound(s.drop_last());
    }
}

/// A pointwise larger sequence counts at least as many entries, and
/// strictly more when it is larger somewhere.
proof fn lemma_count_monotone(s: Seq<bool>, t: Seq<bool>)
    requires
        s.len() == t.len(),
        forall|i: int| 0 <= i < s.len() && #[trigger] s[i] ==> t[i],
    ensures
        count_true(s) <= count_true(t),
        (exists|i: int| 0 <= i < s.len() && #[trigger] t[i] && !s[i]) ==> count_true(s) < count_true(t),
    decreases s.len(),
{
    if s.len() > 0 {
        let s2 = s.drop_last();
        let t2 = t.drop_last();
        assert forall|i: int| 0 <= i < s2.len() && #[trigger] s2[i] implies t2[i] by {
            assert(s[i] == s2[i] && t[i] == t2[i]);
        }
        lemma_count_monotone(s2, t2);
        if exists|i: int| 0 <= i < s.len() && #[trigger] t[i] && !s[i] {
            let i = choose|i: int| 0 <= i < s.len() && #[trigger] t[i] && !s[i];
            if i < s.len() - 1 {
                assert(t2[i] && !s2[i]);
            } else {
                assert(t.last() && !s.last());
            }
        }
    }
}

/// Each round keeps what the one before it reached.
proof fn lemma_round_grows(hops: Seq<HopPair>, k: nat, v: int)
    requires
        0 <= v < 14,
        reach_rounds(hops, k)[v],
    ensures
        reach_rounds(hops, k + 1)[v],
{
    lemma_rounds_len(hops, k);
}

proof fn lemma_rounds_grow(hops: Seq<HopPair>, k: nat, m: nat, v: int)
    requires
        0 <= v < 14,
        k <= m,
        reach_rounds(hops, k)[v],
    ensures
        reach_rounds(hops, m)[v],
    decreases m - k,
{
    if k < m {
        lemma_round_grows(hops, k, v);
        lemma_rounds_grow(hops, k + 1, m, v);
    }
}

/// Once a round adds nothing, the next one adds nothing either.
proof fn lemma_stable_stays(hops: Seq<HopPair>, k: nat)
    requires
        reach_rounds(hops, k) == reach_rounds(hops, k + 1),
    ensures
        reach_rounds(hops, k + 1) == reach_rounds(hops, k + 2),
{
    assert(reach_rounds(hops, k + 2) == relax_upto(hops, reach_rounds(hops, k + 1), hops.len() as int));
    assert(reach_rounds(hops, k + 1) == relax_upto(hops, reach_rounds(hops, k), hops.len() as int));
}

/// Each round either adds nothing or brings the count to at least
/// `k + 3` (two inputs to start with, one more per round).
proof fn lemma_rounds_progress(hops: Seq<HopPair>, k: nat)
    ensures
        reach_rounds(hops, k) == reach_rounds(hops, k + 1) || count_true(reach_rounds(hops, k + 1))
            >= k + 3,
    decreases k,
{
    let r0 = reach_rounds(hops, k);
    let r1 = reach_rounds(hops, k + 1);
    lemma_rounds_len(hops, k);
    lemma_rounds_len(hops, k + 1);
    assert forall|i: int| 0 <= i < r0.len() && #[trigger] r0[i] implies r1[i] by {
        lemma_round_grows(hops, k, i);
    }
    lemma_count_monotone(r0, r1);
    if r0 != r1 {
        assert(exists|i: int| 0 <= i < r0.len() && #[trigger] r1[i] && !r0[i]) by {
            if !(exists|i: int| 0 <= i < r0.len() && #[trigger] r1[i] && !r0[i]) {
                assert(r0 =~= r1);
            }
        }
        if k == 0 {
            let s0 = reach_rounds(hops, 0);
            assert(s0 =~= Seq::new(14, |v: int| v == 10 || v == 11));
            reveal_with_fuel(count_true, 15);
            assert(count_true(s0) == 2);
        } else {
            lemma_rounds_progress(hops, (k - 1) as nat);
            if reach_rounds(hops, (k - 1) as nat) == r0 {
                lemma_stable_stays(hops, (k - 1) as nat);
                assert(false);
            }
        }
    }
}

/// Fourteen rounds are a fixed point: a fifteenth adds nothing.
proof fn lemma_rounds_fixed(hops: Seq<HopPair>)
    ensures
        reach_rounds(hops, 14) == reach_rounds(hops, 15),
{
    lemma_rounds_progress(hops, 12);
    lemma_rounds_len(hops, 13);
    lemma_count_bound(reach_rounds(hops, 13));
    lemma_stable_stays(hops, 12);
    lemma_stable_stays(hops, 13);
}

proof fn lemma_value_bound(c: crate::presets::ConnectorSlug)
    ensures
        0 <= c.spec_value() < 14,
{
}

/// What a round reaches, some path reaches.
proof fn lemma_rounds_sound(hops: Seq<HopPair>, k: nat, v: int)
    requires
        0 <= v < 14,
        reach_rounds(hops, k)[v],
    ensures
        reachable(hops, v),
    decreases k,
{
    if k == 0 {
        let p = seq![v];
        assert(is_input_path(hops, p));
    } else {
        let prev = reach_rounds(hops, (k - 1) as nat);
        lemma_rounds_len(hops, (k - 1) as nat);
        if prev[v] {
            lemma_rounds_sound(hops, (k - 1) as nat, v);
        } else {
            let j = choose|j: int|
                0 <= j < hops.len() && (#[trigger] hops[j]).1.spec_value() == v
                    && prev[hops[j].0.spec_value() as int];
            let a = hops[j].0.spec_value() as int;
            lemma_value_bound(hops[j].0);
            lemma_rounds_sound(hops, (k - 1) as nat, a);
            let p = choose|p: Seq<int>| #[trigger] is_input_path(hops, p) && p.last() == a;
            let q = p.push(v);
            assert forall|i: int| 0 <= i < q.len() - 1 implies #[trigger] path_step_ok(hops, q, i) by {
                if i < p.len() - 1 {
                    assert(path_step_ok(hops, p, i));
                    assert(q[i] == p[i] && q[i + 1] == p[i + 1]);
                } else {
                    assert(q[i] == a && q[i + 1] == v);
                    assert(has_hop(hops, a, v));
                }
            }
            assert(is_input_path(hops, q));
            assert(q.last() == v);
        }
    }
}

/// Every step of an input path stays inside round fourteen.
proof fn lemma_path_in_round(hops: Seq<HopPair>, p: Seq<int>, k: int)
    requires
        is_input_path(hops, p),
        0 <= k < p.len(),
    ensures
        0 <= p[k] < 14,
        reach_rounds(hops, 14)[p[k]],
    decreases k,
{
    if k == 0 {
        lemma_rounds_grow(hops, 0, 14, p[0]);
    } else {
        lemma_path_in_round(hops, p, k - 1);
        assert(path_step_ok(hops, p, k - 1));
        let j = choose|j: int|
            0 <= j < hops.len() && (#[trigger] hops[j]).0.spec_value() == p[k - 1]
                && hops[j].1.spec_value() == p[k];
        lemma_value_bound(hops[j].1);
        lemma_rounds_fixed(hops);
        lemma_rounds_len(hops, 14);
        assert(reach_rounds(hops, 15) == relax_upto(hops, reach_rounds(hops, 14), hops.len() as int));
        assert(reach_rounds(hops, 15)[p[k]]);
    }
}

/// Fourteen relaxation rounds reach a connector exactly when some path of
/// hops leads to it from an input.
pub proof fn lemma_reach_rounds_complete(hops: Seq<HopPair>, v: int)
    requires
        0 <= v < 14,
    ensures
        reach_rounds(hops, 14)[v] <==> reachable(hops, v),
{
    if reach_rounds(hops, 14)[v] {
        lemma_rounds_sound(hops, 14, v);
    }
    if reachable(hops, v) {
        let p = choose|p: Seq<int>| #[trigger] is_input_path(hops, p) && p.last() == v;
        lemma_path_in_round(hops, p, p.len() - 1);
    }
}

/// The no-path check holds exactly when no path of hops leads from an
/// input to an output.
pub proof fn lemma_output_reachable_is_path(hops: Seq<HopPair>)
    ensures
        output_reachable(hops) <==> (reachable(hops, 12) || reachable(hops, 13)),
{
    lemma_reach_rounds_complete(hops, 12);
    lemma_reach_rounds_complete(hops, 13);
}

} // verus!
