//! Laws that say what the codec's operations are for, stated over their
//! inputs and results: the spillover byte table, what a names dump reads
//! as, when a comparison reports a difference, and when validation warns
//! about spillover in Advanced mode.
use vstd::prelude::*;

use crate::decode::{
    advanced_raw, chain_pairs, connection_pairs, decoded_chain, decoded_connections, lookup_segment,
    names_map_is, reorder, simple_raw, spec_decode_spillover, spillover_of_byte,
};
use crate::decode::hop_order::{
    hop_reached, is_hop_path, is_input, lemma_hop_order_follows_signal,
    lemma_hop_order_permutation, spec_hop_order, HopPair,
};
use crate::diff::{spec_differences, DiffSpecValue, DiffView, hop_keys};
use crate::encode::spec_spillover_write_byte;
use crate::presets::{spillover_slug_text, Preset, PresetBody, SpilloverTarget};
use crate::roundtrip::{lemma_lookup_is_entry, lemma_lookup_last};
use crate::sysex::spec_ascii_name;
use crate::validate::{
    branch_issues, count_from, count_to, hop_issues, hop_issues_at, hop_list_path, linearity_issues,
    merge_issues, msg_advanced_spillover, msg_input_destination, msg_output_source, msg_self_loop,
    path_issues, preset_hops, spec_semantic_issues, spillover_issues, IssueView, Severity,
    SLUG_ORDER,
};
use crate::validate::reach::{lemma_output_reachable_is_path, reachable};
use crate::presets::{connector_of_value, lemma_value_roundtrip, ConnectorSlug};

verus! {

// ---------------------------------------------------------------------------
// Spillover bytes
// ---------------------------------------------------------------------------

/// The byte written for each spillover target is the editor's fixed `j2`
/// table: Nothing 127, Input Tip 2, Input Ring 3, A Tip 1, A Ring 0,
/// B Tip 15, B Ring 4, C Tip 11, C Ring 6, D Tip 13, D Ring 12, E Tip 9,
/// E Ring 10.
pub proof fn lemma_spillover_write_table()
    ensures
        spec_spillover_write_byte(SpilloverTarget::Nothing) == 127,
        spec_spillover_write_byte(SpilloverTarget::InputTip) == 2,
        spec_spillover_write_byte(SpilloverTarget::InputRing) == 3,
        spec_spillover_write_byte(SpilloverTarget::ATip) == 1,
        spec_spillover_write_byte(SpilloverTarget::ARing) == 0,
        spec_spillover_write_byte(SpilloverTarget::BTip) == 15,
        spec_spillover_write_byte(SpilloverTarget::BRing) == 4,
        spec_spillover_write_byte(SpilloverTarget::CTip) == 11,
        spec_spillover_write_byte(SpilloverTarget::CRing) == 6,
        spec_spillover_write_byte(SpilloverTarget::DTip) == 13,
        spec_spillover_write_byte(SpilloverTarget::DRing) == 12,
        spec_spillover_write_byte(SpilloverTarget::ETip) == 9,
        spec_spillover_write_byte(SpilloverTarget::ERing) == 10,
{
}

/// A one-byte spillover segment reads by the same table: each byte of the
/// `j2` table gives its target, and any other byte reads as Nothing.
pub proof fn lemma_spillover_read_table(b: u8)
    ensures
        spec_decode_spillover(seq![b]) == (if b == 2 {
            SpilloverTarget::InputTip
        } else if b == 3 {
            SpilloverTarget::InputRing
        } else if b == 1 {
            SpilloverTarget::ATip
        } else if b == 0 {
            SpilloverTarget::ARing
        } else if b == 15 {
            SpilloverTarget::BTip
        } else if b == 4 {
            SpilloverTarget::BRing
        } else if b == 11 {
            SpilloverTarget::CTip
        } else if b == 6 {
            SpilloverTarget::CRing
        } else if b == 13 {
            SpilloverTarget::DTip
        } else if b == 12 {
            SpilloverTarget::DRing
        } else if b == 9 {
            SpilloverTarget::ETip
        } else if b == 10 {
            SpilloverTarget::ERing
        } else {
            SpilloverTarget::Nothing
        }),
{
    assert(seq![b].len() == 1 && seq![b][0] == b);
    assert(spec_decode_spillover(seq![b]) == spillover_of_byte(b));
}

// ---------------------------------------------------------------------------
// Names dump
// ---------------------------------------------------------------------------

proof fn lemma_lookup_found(s: Seq<(u8, Seq<u8>)>, id: u8, k: int)
    requires
        0 <= k < s.len(),
        s[k].0 == id,
    ensures
        lookup_segment(s, id) is Some,
    decreases s.len(),
{
    if s.last().0 != id {
        assert(k < s.len() - 1);
        assert(s.drop_last()[k] == s[k]);
        lemma_lookup_found(s.drop_last(), id, k);
    }
}

/// A names dump holds one entry for each segment id up to 127 that occurs
/// in the message, and no other; each entry is the whole data of the last
/// segment with that id, with only trailing spaces and NULs removed.
pub proof fn lemma_names_dump(m: Map<u8, String>, segs: Seq<(u8, Seq<u8>)>)
    requires
        names_map_is(m, segs),
    ensures
        forall|id: u8|
            #[trigger] m.contains_key(id) <==> (id <= 127 && exists|k: int|
                0 <= k < segs.len() && (#[trigger] segs[k]).0 == id),
        forall|k: int|
            0 <= k < segs.len() && (#[trigger] segs[k]).0 <= 127 && (forall|j: int|
                k < j < segs.len() ==> (#[trigger] segs[j]).0 != segs[k].0) ==> m.contains_key(
                segs[k].0,
            ) && m[segs[k].0]@ == spec_ascii_name(segs[k].1),
{
    assert forall|id: u8|
        #[trigger] m.contains_key(id) <==> (id <= 127 && exists|k: int|
            0 <= k < segs.len() && (#[trigger] segs[k]).0 == id) by {
        lemma_lookup_is_entry(segs, id);
        if id <= 127 && exists|k: int| 0 <= k < segs.len() && (#[trigger] segs[k]).0 == id {
            let k = choose|k: int| 0 <= k < segs.len() && (#[trigger] segs[k]).0 == id;
            lemma_lookup_found(segs, id, k);
        }
    }
    assert forall|k: int|
        0 <= k < segs.len() && (#[trigger] segs[k]).0 <= 127 && (forall|j: int|
            k < j < segs.len() ==> (#[trigger] segs[j]).0 != segs[k].0) implies m.contains_key(
        segs[k].0,
    ) && m[segs[k].0]@ == spec_ascii_name(segs[k].1) by {
        lemma_lookup_last(segs, segs[k].0, k);
    }
}

// ---------------------------------------------------------------------------
// Comparing presets
// ---------------------------------------------------------------------------

/// The text of a preset mode in a comparison.
pub open spec fn mode_word(p: Preset) -> Seq<char> {
    if p.body is Simple {
        "simple"@
    } else {
        "advanced"@
    }
}

/// Each field in which two presets differ is reported, with the local and
/// the device's value: the name, the mode, each spillover target (by its
/// slug) and the hops (when they differ as multisets, under `chain` or
/// `connections` after the local preset's mode); and the comparison is
/// empty exactly when name, mode, both spillover targets and the hop
/// multisets agree.
pub proof fn lemma_diff_reports_each_field(local: Preset, device: Preset)
    ensures
        local.name@ != device.name@ ==> spec_differences(local, device).contains(
            ("name"@, DiffSpecValue::Text(local.name@), DiffSpecValue::Text(device.name@)),
        ),
        local.body.spec_mode() != device.body.spec_mode() ==> spec_differences(
            local,
            device,
        ).contains(
            ("mode"@, DiffSpecValue::Text(mode_word(local)), DiffSpecValue::Text(mode_word(device))),
        ),
        local.spillover.output_tip != device.spillover.output_tip ==> spec_differences(
            local,
            device,
        ).contains(
            (
                "spillover.output_tip"@,
                DiffSpecValue::Text(spillover_slug_text(local.spillover.output_tip)),
                DiffSpecValue::Text(spillover_slug_text(device.spillover.output_tip)),
            ),
        ),
        local.spillover.output_ring != device.spillover.output_ring ==> spec_differences(
            local,
            device,
        ).contains(
            (
                "spillover.output_ring"@,
                DiffSpecValue::Text(spillover_slug_text(local.spillover.output_ring)),
                DiffSpecValue::Text(spillover_slug_text(device.spillover.output_ring)),
            ),
        ),
        hop_keys(local.body).to_multiset() != hop_keys(device.body).to_multiset() ==> exists|k: int|
            0 <= k < spec_differences(local, device).len() && (#[trigger] spec_differences(
                local,
                device,
            )[k]).0 == (if local.body is Simple {
                "chain"@
            } else {
                "connections"@
            }),
        spec_differences(local, device).len() == 0 <==> (local.name@ == device.name@
            && local.body.spec_mode() == device.body.spec_mode() && local.spillover
            == device.spillover && hop_keys(local.body).to_multiset() == hop_keys(
            device.body,
        ).to_multiset()),
{
    let d = spec_differences(local, device);
    let t1 = crate::diff::text_difference(
        local.name@ != device.name@,
        "name"@,
        local.name@,
        device.name@,
    );
    let t2 = crate::diff::text_difference(
        local.body.spec_mode() != device.body.spec_mode(),
        "mode"@,
        crate::diff::mode_label(local.body.spec_mode()),
        crate::diff::mode_label(device.body.spec_mode()),
    );
    let t3 = crate::diff::text_difference(
        local.spillover.output_tip != device.spillover.output_tip,
        "spillover.output_tip"@,
        crate::diff::target_text(local.spillover.output_tip),
        crate::diff::target_text(device.spillover.output_tip),
    );
    let t4 = crate::diff::text_difference(
        local.spillover.output_ring != device.spillover.output_ring,
        "spillover.output_ring"@,
        crate::diff::target_text(local.spillover.output_ring),
        crate::diff::target_text(device.spillover.output_ring),
    );
    let h = crate::diff::hops_difference(local, device);
    assert(d == t1 + t2 + t3 + t4 + h);
    assert(mode_word(local) == crate::diff::mode_label(local.body.spec_mode()));
    assert(mode_word(device) == crate::diff::mode_label(device.body.spec_mode()));
    if local.name@ != device.name@ {
        assert(d[0] == t1[0]);
    }
    if local.body.spec_mode() != device.body.spec_mode() {
        assert(d[t1.len() as int] == t2[0]);
    }
    if local.spillover.output_tip != device.spillover.output_tip {
        assert(d[(t1.len() + t2.len()) as int] == t3[0]);
    }
    if local.spillover.output_ring != device.spillover.output_ring {
        assert(d[(t1.len() + t2.len() + t3.len()) as int] == t4[0]);
    }
    if hop_keys(local.body).to_multiset() != hop_keys(device.body).to_multiset() {
        let k = (t1.len() + t2.len() + t3.len() + t4.len()) as int;
        assert(d[k] == h[0]);
    }
    if local.spillover.output_tip == device.spillover.output_tip && local.spillover.output_ring
        == device.spillover.output_ring {
        assert(local.spillover == device.spillover);
    }
}

// ---------------------------------------------------------------------------
// Validation
// ---------------------------------------------------------------------------

/// An Advanced preset with a spillover target other than Nothing on an
/// output gets a Warning at that output's spillover path, since the
/// firmware does not persist spillover in Advanced mode.
pub proof fn lemma_advanced_spillover_warns(p: Preset)
    requires
        p.body is Advanced,
    ensures
        p.spillover.output_tip != SpilloverTarget::Nothing ==> spec_semantic_issues(p).contains(
            (Severity::Warning, "preset.spillover.output_tip"@, msg_advanced_spillover()),
        ),
        p.spillover.output_ring != SpilloverTarget::Nothing ==> spec_semantic_issues(p).contains(
            (Severity::Warning, "preset.spillover.output_ring"@, msg_advanced_spillover()),
        ),
{
    let a = crate::validate::hop_issues(
        crate::validate::hop_list_path(p),
        crate::validate::preset_hops(p),
        crate::validate::preset_hops(p).len() as int,
    );
    let s = crate::validate::spillover_issues(p);
    let rest = crate::validate::path_issues(p) + crate::validate::linearity_issues(p);
    let all = spec_semantic_issues(p);
    assert(all == a + s + crate::validate::path_issues(p) + crate::validate::linearity_issues(p));
    if p.spillover.output_tip != SpilloverTarget::Nothing {
        assert(all[a.len() as int] == s[0]);
    }
    if p.spillover.output_ring != SpilloverTarget::Nothing {
        let first: int = if p.spillover.output_tip != SpilloverTarget::Nothing {
            1
        } else {
            0
        };
        assert(all[a.len() + first] == s[first]);
    }
}

// ---------------------------------------------------------------------------
// Reading order of decoded hops
// ---------------------------------------------------------------------------

/// Whether a hop list reads in signal order: every hop reached from an
/// input by a path of its hops comes before every hop not reached, and
/// each reached hop that does not leave an input comes after a hop that
/// enters the connector it leaves.
pub open spec fn reads_in_signal_order(l: Seq<HopPair>) -> bool {
    &&& forall|a: int, b: int|
        0 <= a < l.len() && 0 <= b < l.len() && #[trigger] hop_reached(l, a) && !#[trigger] hop_reached(
            l,
            b,
        ) ==> a < b
    &&& forall|k: int|
        0 <= k < l.len() && #[trigger] hop_reached(l, k) && !is_input(l[k].0) ==> exists|q: int|
            0 <= q < k && l[q].1 == l[k].0
}

/// Whether `l` lists the same hops as `hops`: each hop of either occurs in
/// the other.
pub open spec fn lists_same_hops(l: Seq<HopPair>, hops: Seq<HopPair>) -> bool {
    &&& forall|i: int| 0 <= i < hops.len() ==> #[trigger] l.contains(hops[i])
    &&& forall|k: int| 0 <= k < l.len() ==> #[trigger] hops.contains(l[k])
}

proof fn lemma_reordered_entries(hops: Seq<HopPair>)
    requires
        hops.len() <= usize::MAX,
    ensures
        forall|x: int|
            0 <= x < spec_hop_order(hops).len() ==> spec_hop_order(hops)[x] < hops.len()
                && #[trigger] reorder(hops, spec_hop_order(hops))[x] == hops[spec_hop_order(
                hops,
            )[x] as int],
        reorder(hops, spec_hop_order(hops)).len() == spec_hop_order(hops).len(),
{
    lemma_hop_order_permutation(hops);
}

proof fn lemma_reordered_reach_forward(hops: Seq<HopPair>, k: int)
    requires
        hops.len() <= usize::MAX,
        0 <= k < spec_hop_order(hops).len(),
        hop_reached(reorder(hops, spec_hop_order(hops)), k),
    ensures
        hop_reached(hops, spec_hop_order(hops)[k] as int),
{
    let o = spec_hop_order(hops);
    let l = reorder(hops, o);
    lemma_reordered_entries(hops);
    let p = choose|p: Seq<int>| #[trigger] is_hop_path(l, p) && p.last() == k;
    let q = p.map_values(|x: int| o[x] as int);
    assert forall|j: int| 0 <= j < q.len() implies 0 <= #[trigger] q[j] < hops.len() by {
        assert(0 <= p[j] < l.len());
        assert(l[p[j]] == hops[o[p[j]] as int]);
    }
    assert(l[p[0]] == hops[q[0]]);
    assert forall|j: int| 0 < j < q.len() implies hops[q[j - 1]].1 == #[trigger] hops[q[j]].0 by {
        assert(l[p[j - 1]].1 == l[p[j]].0);
        assert(0 <= p[j] < l.len() && 0 <= p[j - 1] < l.len());
        assert(l[p[j]] == hops[q[j]]);
        assert(l[p[j - 1]] == hops[q[j - 1]]);
    }
    assert(is_hop_path(hops, q));
    assert(q.last() == o[k] as int);
}

proof fn lemma_reordered_reach_backward(hops: Seq<HopPair>, k: int)
    requires
        hops.len() <= usize::MAX,
        0 <= k < spec_hop_order(hops).len(),
        hop_reached(hops, spec_hop_order(hops)[k] as int),
    ensures
        hop_reached(reorder(hops, spec_hop_order(hops)), k),
{
    let o = spec_hop_order(hops);
    let l = reorder(hops, o);
    lemma_reordered_entries(hops);
    lemma_hop_order_permutation(hops);
    let p = choose|p: Seq<int>| #[trigger] is_hop_path(hops, p) && p.last() == o[k] as int;
    assert forall|j: int| 0 <= j < p.len() implies exists|x: int|
        0 <= x < o.len() && o[x] as int == #[trigger] p[j] by {
        assert(o.contains(p[j] as usize));
    }
    let q = p.map_values(|y: int| choose|x: int| 0 <= x < o.len() && o[x] as int == y);
    assert forall|j: int| 0 <= j < q.len() implies 0 <= #[trigger] q[j] < l.len() && l[q[j]]
        == hops[p[j]] by {
        assert(exists|x: int| 0 <= x < o.len() && o[x] as int == p[j]);
    }
    assert(l[q[0]] == hops[p[0]]);
    assert forall|j: int| 0 < j < q.len() implies l[q[j - 1]].1 == #[trigger] l[q[j]].0 by {
        assert(hops[p[j - 1]].1 == hops[p[j]].0);
        assert(l[q[j]] == hops[p[j]]);
        assert(l[q[j - 1]] == hops[p[j - 1]]);
    }
    assert(is_hop_path(l, q));
    let last = q.last();
    assert(o[last] as int == o[k] as int);
    assert(last == k) by {
        if last != k {
            assert(o[last] != o[k]);
        }
    }
}

proof fn lemma_reordered_reach(hops: Seq<HopPair>, k: int)
    requires
        hops.len() <= usize::MAX,
        0 <= k < spec_hop_order(hops).len(),
    ensures
        hop_reached(reorder(hops, spec_hop_order(hops)), k) <==> hop_reached(
            hops,
            spec_hop_order(hops)[k] as int,
        ),
{
    if hop_reached(reorder(hops, spec_hop_order(hops)), k) {
        lemma_reordered_reach_forward(hops, k);
    }
    if hop_reached(hops, spec_hop_order(hops)[k] as int) {
        lemma_reordered_reach_backward(hops, k);
    }
}

proof fn lemma_reading_order_lists_each(hops: Seq<HopPair>, i: int)
    requires
        hops.len() <= usize::MAX,
        0 <= i < hops.len(),
    ensures
        reorder(hops, spec_hop_order(hops)).contains(hops[i]),
{
    let o = spec_hop_order(hops);
    lemma_hop_order_permutation(hops);
    lemma_reordered_entries(hops);
    assert(o.contains(i as usize));
    let k = choose|k: int| 0 <= k < o.len() && o[k] == i as usize;
    assert(reorder(hops, o)[k] == hops[o[k] as int]);
}

proof fn lemma_reading_order_same_hops(hops: Seq<HopPair>)
    requires
        hops.len() <= usize::MAX,
    ensures
        lists_same_hops(reorder(hops, spec_hop_order(hops)), hops),
{
    let o = spec_hop_order(hops);
    let l = reorder(hops, o);
    assert forall|i: int| 0 <= i < hops.len() implies #[trigger] l.contains(hops[i]) by {
        lemma_reading_order_lists_each(hops, i);
    }
    assert forall|k: int| 0 <= k < l.len() implies #[trigger] hops.contains(l[k]) by {
        lemma_reordered_entries(hops);
        assert(l[k] == hops[o[k] as int]);
    }
}

proof fn lemma_reading_order_reached_first(hops: Seq<HopPair>, a: int, b: int)
    requires
        hops.len() <= usize::MAX,
        0 <= a < spec_hop_order(hops).len(),
        0 <= b < spec_hop_order(hops).len(),
        hop_reached(reorder(hops, spec_hop_order(hops)), a),
        !hop_reached(reorder(hops, spec_hop_order(hops)), b),
    ensures
        a < b,
{
    let o = spec_hop_order(hops);
    lemma_reordered_reach(hops, a);
    lemma_reordered_reach(hops, b);
    lemma_hop_order_follows_signal(hops);
    assert(hop_reached(hops, o[a] as int));
    assert(!hop_reached(hops, o[b] as int));
}

proof fn lemma_reading_order_predecessor(hops: Seq<HopPair>, k: int)
    requires
        hops.len() <= usize::MAX,
        0 <= k < spec_hop_order(hops).len(),
        hop_reached(reorder(hops, spec_hop_order(hops)), k),
        !is_input(reorder(hops, spec_hop_order(hops))[k].0),
    ensures
        exists|q: int|
            0 <= q < k && reorder(hops, spec_hop_order(hops))[q].1 == reorder(
                hops,
                spec_hop_order(hops),
            )[k].0,
{
    let o = spec_hop_order(hops);
    let l = reorder(hops, o);
    lemma_reordered_reach(hops, k);
    lemma_hop_order_follows_signal(hops);
    assert(hop_reached(hops, o[k] as int));
    assert(l[k] == hops[o[k] as int]);
    let q = choose|q: int| 0 <= q < k && hops[o[q] as int].1 == hops[o[k] as int].0;
    assert(l[q] == hops[o[q] as int]);
}

/// Hops listed in their reading order list the same hops, and read in
/// signal order (see [`reads_in_signal_order`]).
pub proof fn lemma_reading_order(hops: Seq<HopPair>)
    requires
        hops.len() <= usize::MAX,
    ensures
        lists_same_hops(reorder(hops, spec_hop_order(hops)), hops),
        reads_in_signal_order(reorder(hops, spec_hop_order(hops))),
{
    let o = spec_hop_order(hops);
    let l = reorder(hops, o);
    lemma_reading_order_same_hops(hops);
    assert forall|a: int, b: int|
        0 <= a < l.len() && 0 <= b < l.len() && #[trigger] hop_reached(l, a) && !#[trigger] hop_reached(
            l,
            b,
        ) implies a < b by {
        lemma_reading_order_reached_first(hops, a, b);
    }
    assert forall|k: int|
        0 <= k < l.len() && #[trigger] hop_reached(l, k) && !is_input(l[k].0) implies exists|q: int|
            0 <= q < k && l[q].1 == l[k].0 by {
        lemma_reading_order_predecessor(hops, k);
    }
}

proof fn lemma_advanced_raw_len(segs: Seq<(u8, Seq<u8>)>, k: int)
    requires
        0 <= k,
    ensures
        advanced_raw(segs, k).len() <= k,
    decreases k,
{
    if k > 0 {
        lemma_advanced_raw_len(segs, k - 1);
    }
}

proof fn lemma_simple_raw_len(segs: Seq<(u8, Seq<u8>)>, k: int)
    requires
        0 <= k,
    ensures
        simple_raw(segs, k).len() <= k,
    decreases k,
{
    if k > 0 {
        lemma_simple_raw_len(segs, k - 1);
    }
}

/// The connections decoded from an Advanced preset message list the
/// connections the message holds, in signal order: every connection
/// reached from Input Tip or Input Ring by a path of connections comes
/// before those no input reaches, and each reached connection that does
/// not leave an input comes after one that enters the connector it leaves.
pub proof fn lemma_decoded_connections_follow_signal(segs: Seq<(u8, Seq<u8>)>)
    ensures
        lists_same_hops(
            connection_pairs(decoded_connections(segs)),
            connection_pairs(advanced_raw(segs, 14)),
        ),
        reads_in_signal_order(connection_pairs(decoded_connections(segs))),
{
    let raw = advanced_raw(segs, 14);
    let ps = connection_pairs(raw);
    lemma_advanced_raw_len(segs, 14);
    let o = spec_hop_order(ps);
    lemma_hop_order_permutation(ps);
    assert(connection_pairs(decoded_connections(segs)) =~= reorder(ps, o));
    lemma_reading_order(ps);
}

/// The chain decoded from a Simple preset message lists the hops the
/// message holds, in signal order (as for Advanced connections).
pub proof fn lemma_decoded_chain_follows_signal(segs: Seq<(u8, Seq<u8>)>)
    ensures
        lists_same_hops(chain_pairs(decoded_chain(segs)), chain_pairs(simple_raw(segs, 14))),
        reads_in_signal_order(chain_pairs(decoded_chain(segs))),
{
    let raw = simple_raw(segs, 14);
    let ps = chain_pairs(raw);
    lemma_simple_raw_len(segs, 14);
    let o = spec_hop_order(ps);
    lemma_hop_order_permutation(ps);
    assert(chain_pairs(decoded_chain(segs)) =~= reorder(ps, o));
    lemma_reading_order(ps);
}

// ---------------------------------------------------------------------------
// When validation is silent
// ---------------------------------------------------------------------------

/// Hop `i` breaks none of the per-hop rules: it does not leave an output,
/// does not enter an input, does not loop back on itself, and does not
/// repeat an earlier hop.
pub open spec fn hop_is_clean(hops: Seq<HopPair>, i: int) -> bool {
    &&& !hops[i].0.spec_is_output()
    &&& !hops[i].1.spec_is_input()
    &&& hops[i].0 != hops[i].1
    &&& !hops.take(i).contains(hops[i])
}

/// A preset breaks none of the routing rules: every hop is clean, an
/// Advanced preset has no spillover target, some output is reached from
/// an input when there are hops, and in Simple mode no connector is left
/// or entered by more than one hop.
pub open spec fn preset_is_clean(p: Preset) -> bool {
    let hops = preset_hops(p);
    &&& forall|i: int| 0 <= i < hops.len() ==> #[trigger] hop_is_clean(hops, i)
    &&& p.body is Advanced ==> p.spillover.output_tip == SpilloverTarget::Nothing
        && p.spillover.output_ring == SpilloverTarget::Nothing
    &&& hops.len() == 0 || reachable(hops, 12) || reachable(hops, 13)
    &&& p.body is Simple ==> forall|c: ConnectorSlug|
        #[trigger] count_from(hops, c) <= 1 && count_to(hops, c) <= 1
}

proof fn lemma_hop_issues_empty(list: Seq<char>, hops: Seq<HopPair>, k: int)
    requires
        0 <= k <= hops.len(),
    ensures
        hop_issues(list, hops, k).len() == 0 <==> forall|i: int|
            0 <= i < k ==> #[trigger] hop_is_clean(hops, i),
    decreases k,
{
    if k > 0 {
        lemma_hop_issues_empty(list, hops, k - 1);
        let at = hop_issues_at(list, hops, k - 1);
        assert(at.len() == 0 <==> hop_is_clean(hops, k - 1));
        if hop_issues(list, hops, k).len() == 0 {
            assert forall|i: int| 0 <= i < k implies #[trigger] hop_is_clean(hops, i) by {
                if i < k - 1 {
                    assert(hop_issues(list, hops, k - 1).len() == 0);
                }
            }
        }
    }
}

proof fn lemma_hop_issue_listed(list: Seq<char>, hops: Seq<HopPair>, k: int, i: int, x: IssueView)
    requires
        0 <= i < k <= hops.len(),
        hop_issues_at(list, hops, i).contains(x),
    ensures
        hop_issues(list, hops, k).contains(x),
    decreases k,
{
    let prev = hop_issues(list, hops, k - 1);
    let at = hop_issues_at(list, hops, k - 1);
    assert(hop_issues(list, hops, k) == prev + at);
    if i < k - 1 {
        lemma_hop_issue_listed(list, hops, k - 1, i, x);
        let q = choose|q: int| 0 <= q < prev.len() && prev[q] == x;
        assert((prev + at)[q] == x);
    } else {
        let q = choose|q: int| 0 <= q < at.len() && at[q] == x;
        assert((prev + at)[prev.len() + q] == x);
    }
}

proof fn lemma_slug_order_covers(c: ConnectorSlug)
    ensures
        exists|j: int| 0 <= j < 14 && #[trigger] connector_of_value(SLUG_ORDER@[j] as int) == c,
{
    lemma_value_roundtrip(c);
    let v = c.spec_value() as int;
    let j: int = if v % 2 == 0 {
        v + 1
    } else {
        v - 1
    };
    assert(0 <= v < 14);
    assert(SLUG_ORDER@[j] as int == v);
    assert(connector_of_value(SLUG_ORDER@[j] as int) == c);
}

proof fn lemma_branch_issues_empty(hops: Seq<HopPair>, k: int)
    requires
        0 <= k <= 14,
    ensures
        branch_issues(hops, k).len() == 0 <==> forall|j: int|
            0 <= j < k ==> count_from(hops, #[trigger] connector_of_value(SLUG_ORDER@[j] as int))
                <= 1,
        merge_issues(hops, k).len() == 0 <==> forall|j: int|
            0 <= j < k ==> count_to(hops, #[trigger] connector_of_value(SLUG_ORDER@[j] as int))
                <= 1,
    decreases k,
{
    if k > 0 {
        lemma_branch_issues_empty(hops, k - 1);
    }
}

proof fn lemma_linearity_covers(hops: Seq<HopPair>)
    ensures
        (forall|c: ConnectorSlug| #[trigger] count_from(hops, c) <= 1 && count_to(hops, c) <= 1)
            <==> ((forall|j: int|
            0 <= j < 14 ==> count_from(hops, #[trigger] connector_of_value(SLUG_ORDER@[j] as int))
                <= 1) && (forall|j: int|
            0 <= j < 14 ==> count_to(hops, #[trigger] connector_of_value(SLUG_ORDER@[j] as int))
                <= 1)),
{
    if (forall|j: int|
        0 <= j < 14 ==> count_from(hops, #[trigger] connector_of_value(SLUG_ORDER@[j] as int)) <= 1)
        && (forall|j: int|
        0 <= j < 14 ==> count_to(hops, #[trigger] connector_of_value(SLUG_ORDER@[j] as int)) <= 1) {
        assert forall|c: ConnectorSlug| #[trigger] count_from(hops, c) <= 1 && count_to(hops, c) <= 1 by {
            lemma_slug_order_covers(c);
            let j = choose|j: int| 0 <= j < 14 && #[trigger] connector_of_value(SLUG_ORDER@[j] as int) == c;
            assert(count_from(hops, connector_of_value(SLUG_ORDER@[j] as int)) <= 1);
            assert(count_to(hops, connector_of_value(SLUG_ORDER@[j] as int)) <= 1);
        }
    }
    if forall|c: ConnectorSlug| #[trigger] count_from(hops, c) <= 1 && count_to(hops, c) <= 1 {
        assert forall|j: int|
            0 <= j < 14 implies count_from(hops, #[trigger] connector_of_value(SLUG_ORDER@[j] as int))
                <= 1 by {
            let c = connector_of_value(SLUG_ORDER@[j] as int);
            assert(count_from(hops, c) <= 1 && count_to(hops, c) <= 1);
        }
        assert forall|j: int|
            0 <= j < 14 implies count_to(hops, #[trigger] connector_of_value(SLUG_ORDER@[j] as int))
                <= 1 by {
            let c = connector_of_value(SLUG_ORDER@[j] as int);
            assert(count_from(hops, c) <= 1 && count_to(hops, c) <= 1);
        }
    }
}

/// Validation reports nothing exactly when the preset breaks none of the
/// routing rules (see [`preset_is_clean`]); and each hop that leaves an
/// output, enters an input or loops back on itself is reported as an
/// Error with the matching message.
pub proof fn lemma_validation_silent_iff_clean(p: Preset)
    ensures
        spec_semantic_issues(p).len() == 0 <==> preset_is_clean(p),
        forall|i: int|
            0 <= i < preset_hops(p).len() && (#[trigger] preset_hops(p)[i]).0.spec_is_output()
                ==> exists|k: int|
                0 <= k < spec_semantic_issues(p).len() && spec_semantic_issues(p)[k].0
                    == Severity::Error && spec_semantic_issues(p)[k].2 == msg_output_source(
                    preset_hops(p)[i].0,
                ),
        forall|i: int|
            0 <= i < preset_hops(p).len() && (#[trigger] preset_hops(p)[i]).1.spec_is_input()
                ==> exists|k: int|
                0 <= k < spec_semantic_issues(p).len() && spec_semantic_issues(p)[k].0
                    == Severity::Error && spec_semantic_issues(p)[k].2 == msg_input_destination(
                    preset_hops(p)[i].1,
                ),
        forall|i: int|
            0 <= i < preset_hops(p).len() && (#[trigger] preset_hops(p)[i]).0 == preset_hops(p)[i].1
                ==> exists|k: int|
                0 <= k < spec_semantic_issues(p).len() && spec_semantic_issues(p)[k].0
                    == Severity::Error && spec_semantic_issues(p)[k].2 == msg_self_loop(
                    preset_hops(p)[i].0,
                ),
{
    let hops = preset_hops(p);
    let list = hop_list_path(p);
    let n = hops.len() as int;
    let a = hop_issues(list, hops, n);
    let sp = spillover_issues(p);
    let pa = path_issues(p);
    let li = linearity_issues(p);
    let all = spec_semantic_issues(p);
    assert(all == a + sp + pa + li);
    lemma_hop_issues_empty(list, hops, n);
    lemma_output_reachable_is_path(hops);
    lemma_branch_issues_empty(hops, 14);
    if p.body is Simple {
        lemma_linearity_covers(hops);
        assert(li == branch_issues(hops, 14) + merge_issues(hops, 14));
    }
    assert(all.len() == a.len() + sp.len() + pa.len() + li.len());
    assert forall|i: int|
        0 <= i < n && (#[trigger] hops[i]).0.spec_is_output() implies exists|k: int|
        0 <= k < all.len() && all[k].0 == Severity::Error && all[k].2 == msg_output_source(
            hops[i].0,
        ) by {
        let x = (Severity::Error, crate::validate::hop_path(list, i as nat) + ".from_connector"@, msg_output_source(hops[i].0));
        assert(hop_issues_at(list, hops, i)[0] == x);
        lemma_hop_issue_listed(list, hops, n, i, x);
        let q = choose|q: int| 0 <= q < a.len() && a[q] == x;
        assert(all[q] == a[q]);
    }
    assert forall|i: int|
        0 <= i < n && (#[trigger] hops[i]).1.spec_is_input() implies exists|k: int|
        0 <= k < all.len() && all[k].0 == Severity::Error && all[k].2 == msg_input_destination(
            hops[i].1,
        ) by {
        let at = hop_issues_at(list, hops, i);
        let x = (Severity::Error, crate::validate::hop_path(list, i as nat) + ".to_connector"@, msg_input_destination(hops[i].1));
        let first: int = if hops[i].0.spec_is_output() { 1 } else { 0 };
        assert(at[first] == x);
        lemma_hop_issue_listed(list, hops, n, i, x);
        let q = choose|q: int| 0 <= q < a.len() && a[q] == x;
        assert(all[q] == a[q]);
    }
    assert forall|i: int|
        0 <= i < n && (#[trigger] hops[i]).0 == hops[i].1 implies exists|k: int|
        0 <= k < all.len() && all[k].0 == Severity::Error && all[k].2 == msg_self_loop(
            hops[i].0,
        ) by {
        let at = hop_issues_at(list, hops, i);
        let x = (Severity::Error, crate::validate::hop_path(list, i as nat), msg_self_loop(hops[i].0));
        let first: int = (if hops[i].0.spec_is_output() { 1int } else { 0int }) + (if hops[i].1.spec_is_input() { 1int } else { 0int });
        assert(at[first] == x);
        lemma_hop_issue_listed(list, hops, n, i, x);
        let q = choose|q: int| 0 <= q < a.len() && a[q] == x;
        assert(all[q] == a[q]);
    }
}

} // verus!
