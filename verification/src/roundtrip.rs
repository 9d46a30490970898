//! What decoding gives back of what the encoder wrote.
use vstd::prelude::*;

use crate::decode::{
    advanced_raw, chain_pairs, connection_pairs, connector_of_gn, decoded_chain,
    decoded_connections, decoded_controller_is, decoded_preset_is, decoded_trails,
    first_byte_or_zero, flag_set, is_advanced_message, lookup_segment, name_or_blank, reorder,
    segment_or_empty, simple_raw, spec_decode_spillover, spillover_of_byte, trails_bitmap_of,
    trails_of_bits,
};
use crate::decode::hop_order::{lemma_hop_order_permutation, spec_hop_order, HopPair};
use crate::device::{lemma_groupnumber_value_inverse, GROUPNUMBER_TO_VALUE, VALUE_TO_GROUPNUMBER};
use crate::device::segment_id;
use crate::device::UNROUTED;
use crate::encode::{
    connector_field, controller_segments, flag_byte, fold_byte, kept_by_fold, spec_ascii_fold,
    spec_encode_controller, spec_fold_decomposed, trails_bits, weight_if, nfkd_chars,
    advanced_segments, connections_of, spec_encode_advanced,
    chain_of, group_number, hop_data, last_hop_from, name_byte, simple_segments,
    spec_ascii_trim_right, spec_encode_simple, spec_spillover_write_byte, trailing_space_end,
    unrouted_groups, is_unrouted, FIXED_FROMABLE_ORDER,
};
use crate::presets::{
    Connection, Controller, IncludeInTrails, connector_at,
    connector_of_value, lemma_value_roundtrip, ConnectorSlug, Preset, PresetBody, SimpleHop,
    Spillover, SpilloverTarget,
};
use crate::sysex::{
    encoded_segments, lemma_segments_of_built_frame, mask7, masked_segments, spec_ascii_name,
    spec_frame, spec_header, spec_segments, ascii_trim_end, SysexError,
};
use crate::text::byte_char;
use crate::encode::{ascii_fold_bytes, connector_ref, field_str, is_ascii_text};

verus! {

/// Reading back the spillover byte written for a target gives the target.
pub proof fn lemma_spillover_byte_roundtrip(t: SpilloverTarget)
    ensures
        spec_decode_spillover(seq![spec_spillover_write_byte(t)]) == t,
{
}

/// The connector of a connector's groupNumber is the connector itself.
pub proof fn lemma_group_number_roundtrip(c: ConnectorSlug)
    ensures
        group_number(c) < 14,
        connector_of_gn(group_number(c)) == c,
{
    lemma_groupnumber_value_inverse();
    lemma_value_roundtrip(c);
    assert(c.spec_value() < 14);
    assert(GROUPNUMBER_TO_VALUE@[VALUE_TO_GROUPNUMBER@[c.spec_value() as int] as int] == c.spec_value());
}

/// `lookup_segment` finds the last entry with the id.
pub proof fn lemma_lookup_last(s: Seq<(u8, Seq<u8>)>, id: u8, k: int)
    requires
        0 <= k < s.len(),
        s[k].0 == id,
        forall|j: int| k < j < s.len() ==> (#[trigger] s[j]).0 != id,
    ensures
        lookup_segment(s, id) == Some(s[k].1),
    decreases s.len(),
{
    if k < s.len() - 1 {
        assert(s.last() == s[s.len() - 1]);
        let t = s.drop_last();
        assert forall|j: int| k < j < t.len() implies (#[trigger] t[j]).0 != id by {
            assert(t[j] == s[j]);
        }
        lemma_lookup_last(t, id, k);
    }
}

/// `lookup_segment` finds nothing when no entry has the id.
pub proof fn lemma_lookup_absent(s: Seq<(u8, Seq<u8>)>, id: u8)
    requires
        forall|j: int| 0 <= j < s.len() ==> (#[trigger] s[j]).0 != id,
    ensures
        lookup_segment(s, id) is None,
    decreases s.len(),
{
    if s.len() > 0 {
        assert(s.last() == s[s.len() - 1]);
        let t = s.drop_last();
        assert forall|j: int| 0 <= j < t.len() implies (#[trigger] t[j]).0 != id by {
            assert(t[j] == s[j]);
        }
        lemma_lookup_absent(t, id);
    }
}

/// Whatever `lookup_segment` finds is the data of some entry with the id.
pub proof fn lemma_lookup_is_entry(s: Seq<(u8, Seq<u8>)>, id: u8)
    ensures
        lookup_segment(s, id) matches Some(d) ==> exists|k: int|
            0 <= k < s.len() && (#[trigger] s[k]).0 == id && s[k].1 == d,
    decreases s.len(),
{
    if s.len() > 0 {
        if s.last().0 != id {
            lemma_lookup_is_entry(s.drop_last(), id);
            if let Some(d) = lookup_segment(s, id) {
                let k = choose|k: int|
                    0 <= k < s.drop_last().len() && (#[trigger] s.drop_last()[k]).0 == id
                        && s.drop_last()[k].1 == d;
                assert(s[k] == s.drop_last()[k]);
            }
        } else {
            assert(s[s.len() - 1] == s.last());
        }
    }
}

/// Every id and data byte is below 128 and every payload is shorter than
/// 128 bytes.
pub open spec fn seven_bit_pairs(ds: Seq<(u8, Seq<u8>)>) -> bool {
    forall|k: int|
        0 <= k < ds.len() ==> {
            &&& (#[trigger] ds[k]).0 < 128
            &&& ds[k].1.len() < 128
            &&& forall|j: int| 0 <= j < ds[k].1.len() ==> ds[k].1[j] < 128
        }
}

proof fn lemma_mask7_small(x: u8)
    requires
        x < 128,
    ensures
        mask7(x) == x,
        x & 0x7F == x,
{
    assert(x & 0x7F == x) by (bit_vector)
        requires
            x < 128,
    ;
}

/// Masking leaves 7-bit pairs as they are.
proof fn lemma_masked_identity(ds: Seq<(u8, Seq<u8>)>)
    requires
        seven_bit_pairs(ds),
    ensures
        masked_segments(ds) == ds,
{
    assert forall|k: int| 0 <= k < ds.len() implies #[trigger] masked_segments(ds)[k] == ds[k] by {
        lemma_mask7_small(ds[k].0);
        let d = ds[k].1;
        let md = d.map_values(|b: u8| mask7(b));
        assert forall|j: int| 0 <= j < d.len() implies #[trigger] md[j] == d[j] by {
            lemma_mask7_small(d[j]);
        }
        assert(md =~= d);
    }
    assert(masked_segments(ds) =~= ds);
}

/// The (id, data) pairs of a Simple preset write.
pub open spec fn simple_pairs(p: Preset) -> Seq<(u8, Seq<u8>)> {
    let chain = chain_of(p);
    unrouted_groups(chain).map_values(|g: u8| (g, seq![g, UNROUTED])) + chain.map_values(
        |h: SimpleHop| (group_number(h.from_connector), hop_data(chain, group_number(h.from_connector))),
    ) + seq![
        (segment_id::SPILLOVER_OUTPUT_TIP, seq![spec_spillover_write_byte(p.spillover.output_tip)]),
        (segment_id::SPILLOVER_OUTPUT_RING, seq![spec_spillover_write_byte(p.spillover.output_ring)]),
        (segment_id::SIMPLE_FLAG_20, seq![0u8]),
        (segment_id::PRESET_NAME, spec_ascii_trim_right(p.name@, 12)),
    ]
}

proof fn lemma_trailing_space_end_bounds(b: Seq<u8>, end: int)
    requires
        0 <= end <= b.len(),
    ensures
        0 <= trailing_space_end(b, end) <= end,
    decreases end,
{
    if end > 0 && b[end - 1] == 0x20 {
        lemma_trailing_space_end_bounds(b, end - 1);
    }
}

proof fn lemma_name_bytes_small(name: Seq<char>)
    ensures
        spec_ascii_trim_right(name, 12).len() <= 12,
        forall|j: int|
            0 <= j < spec_ascii_trim_right(name, 12).len() ==> #[trigger] spec_ascii_trim_right(
                name,
                12,
            )[j] < 128,
{
    let b = name.map_values(|c: char| name_byte(c));
    lemma_trailing_space_end_bounds(b, b.len() as int);
    assert forall|j: int| 0 <= j < b.len() implies #[trigger] b[j] < 128 by {
        let c = name[j];
        if (c as u32) < 128 {
            assert(((c as u32) as u8) == (c as u32));
        }
    }
}

proof fn lemma_unrouted_groups_small(chain: Seq<SimpleHop>)
    ensures
        forall|k: int|
            0 <= k < unrouted_groups(chain).len() ==> #[trigger] unrouted_groups(chain)[k] < 14,
        unrouted_groups(chain).len() <= 12,
{
    broadcast use vstd::seq_lib::group_filter_ensures;

    let f = FIXED_FROMABLE_ORDER@;
    assert(f.len() == 12);
    lemma_filter_subset(f, is_unrouted(chain));
    assert forall|k: int| 0 <= k < unrouted_groups(chain).len() implies #[trigger] unrouted_groups(
        chain,
    )[k] < 14 by {
        let g = unrouted_groups(chain)[k];
        assert(f.contains(g));
        let i = choose|i: int| 0 <= i < f.len() && f[i] == g;
    }
}

proof fn lemma_filter_subset<A>(s: Seq<A>, pred: spec_fn(A) -> bool)
    ensures
        forall|k: int| 0 <= k < s.filter(pred).len() ==> s.contains(#[trigger] s.filter(pred)[k]),
    decreases s.len(),
{
    reveal_with_fuel(Seq::filter, 1);
    if s.len() > 0 {
        lemma_filter_subset(s.drop_last(), pred);
        let sub = s.drop_last().filter(pred);
        assert forall|k: int| 0 <= k < s.filter(pred).len() implies s.contains(
            #[trigger] s.filter(pred)[k],
        ) by {
            let x = s.filter(pred)[k];
            if k < sub.len() {
                assert(x == sub[k]);
                assert(s.drop_last().contains(x));
                let i = choose|i: int| 0 <= i < s.drop_last().len() && s.drop_last()[i] == x;
                assert(s[i] == x);
            } else {
                assert(x == s.last());
                assert(s[s.len() - 1] == x);
            }
        }
    }
}

proof fn lemma_simple_pairs_seven_bit(p: Preset)
    ensures
        seven_bit_pairs(simple_pairs(p)),
{
    let chain = chain_of(p);
    let ds = simple_pairs(p);
    lemma_unrouted_groups_small(chain);
    lemma_name_bytes_small(p.name@);
    let u = unrouted_groups(chain).len();
    assert forall|k: int| 0 <= k < ds.len() implies {
        &&& (#[trigger] ds[k]).0 < 128
        &&& ds[k].1.len() < 128
        &&& forall|j: int| 0 <= j < ds[k].1.len() ==> ds[k].1[j] < 128
    } by {
        if k < u {
            assert(unrouted_groups(chain)[k] < 14);
        } else if k < u + chain.len() {
            let h = chain[k - u];
            lemma_group_number_roundtrip(h.from_connector);
            let g = group_number(h.from_connector);
            crate::encode::lemma_last_hop_from_spec(chain, g);
            let l = last_hop_from(chain, g);
            assert(l >= k - u);
            lemma_group_number_roundtrip(chain[l].to_connector);
        } else {
            let t = p.spillover.output_tip;
            let r = p.spillover.output_ring;
        }
    }
}

/// The segments of a Simple preset write are the wire form of
/// [`simple_pairs`].
proof fn lemma_simple_segments_are_pairs(p: Preset)
    ensures
        encoded_segments(simple_pairs(p)) == simple_segments(p),
{
    let chain = chain_of(p);
    let ds = simple_pairs(p);
    let u = unrouted_groups(chain).len();
    assert(encoded_segments(ds).len() == simple_segments(p).len());
    assert forall|k: int| 0 <= k < ds.len() implies #[trigger] encoded_segments(ds)[k]
        == simple_segments(p)[k] by {
        if k < u {
        } else if k < u + chain.len() {
        } else {
        }
    }
    assert(encoded_segments(ds) =~= simple_segments(p));
}

/// A Simple preset write reads back as its own pairs.
pub proof fn lemma_simple_write_segments(p: Preset, save_to_current: bool)
    ensures
        spec_segments(spec_encode_simple(crate::device::spec_ml10x(), p, save_to_current)) == Ok::<
            Seq<(u8, Seq<u8>)>,
            SysexError,
        >(simple_pairs(p)),
{
    let ds = simple_pairs(p);
    lemma_simple_pairs_seven_bit(p);
    lemma_simple_segments_are_pairs(p);
    lemma_masked_identity(ds);
    let header = spec_header(
        crate::device::spec_ml10x(),
        crate::encode::write_header_bytes(p, 0, save_to_current),
    );
    assert(header.len() == 16);
    lemma_segments_of_built_frame(header, ds);
}

/// No two hops of a chain leave the same connector.
pub open spec fn chain_froms_distinct(chain: Seq<SimpleHop>) -> bool {
    forall|i: int, j: int|
        0 <= i < j < chain.len() ==> (#[trigger] chain[i]).from_connector != (
        #[trigger] chain[j]).from_connector
}

proof fn lemma_group_number_injective(a: ConnectorSlug, b: ConnectorSlug)
    requires
        a != b,
    ensures
        group_number(a) != group_number(b),
{
    lemma_group_number_roundtrip(a);
    lemma_group_number_roundtrip(b);
}

/// For a connector some hop leaves, the pairs carry that (last) hop's data.
proof fn lemma_simple_lookup_routed(p: Preset, g: u8)
    requires
        last_hop_from(chain_of(p), g) >= 0,
        g < 14,
    ensures
        lookup_segment(simple_pairs(p), g) == Some(hop_data(chain_of(p), g)),
{
    let chain = chain_of(p);
    let ds = simple_pairs(p);
    let u = unrouted_groups(chain).len() as int;
    crate::encode::lemma_last_hop_from_spec(chain, g);
    let l = last_hop_from(chain, g);
    let k = u + l;
    assert(ds[k] == (group_number(chain[l].from_connector), hop_data(
        chain,
        group_number(chain[l].from_connector),
    )));
    assert forall|j: int| k < j < ds.len() implies (#[trigger] ds[j]).0 != g by {
        if j < u + chain.len() {
            assert(ds[j].0 == group_number(chain[j - u].from_connector));
        }
    }
    lemma_lookup_last(ds, g, k);
}

/// For a connector no hop leaves, whatever the pairs carry for it is shorter
/// than 3 bytes.
proof fn lemma_simple_lookup_unrouted(p: Preset, g: u8)
    requires
        last_hop_from(chain_of(p), g) < 0,
        g < 14,
    ensures
        lookup_segment(simple_pairs(p), g) matches Some(d) ==> d.len() < 3,
{
    let chain = chain_of(p);
    let ds = simple_pairs(p);
    let u = unrouted_groups(chain).len() as int;
    crate::encode::lemma_last_hop_from_spec(chain, g);
    lemma_lookup_is_entry(ds, g);
    if let Some(d) = lookup_segment(ds, g) {
        let k = choose|k: int| 0 <= k < ds.len() && (#[trigger] ds[k]).0 == g && ds[k].1 == d;
        if u <= k < u + chain.len() {
            assert(ds[k].0 == group_number(chain[k - u].from_connector));
        }
    }
}

/// The hops read back from the first `k` connector ids are the hops of the
/// chain leaving a connector with groupNumber below `k`, once each.
proof fn lemma_simple_raw(p: Preset, k: int)
    requires
        0 <= k <= 14,
        chain_froms_distinct(chain_of(p)),
    ensures
        simple_raw(simple_pairs(p), k).len() <= k,
        simple_raw(simple_pairs(p), k).no_duplicates(),
        forall|q: int|
            0 <= q < simple_raw(simple_pairs(p), k).len() ==> group_number(
                (#[trigger] simple_raw(simple_pairs(p), k)[q]).from_connector,
            ) < k,
        forall|x: SimpleHop|
            #[trigger] simple_raw(simple_pairs(p), k).contains(x) <==> (chain_of(p).contains(x)
                && group_number(x.from_connector) < k),
    decreases k,
{
    let chain = chain_of(p);
    let ds = simple_pairs(p);
    if k > 0 {
        lemma_simple_raw(p, k - 1);
        let prev = simple_raw(ds, k - 1);
        let cur = simple_raw(ds, k);
        let g = (k - 1) as u8;
        crate::encode::lemma_last_hop_from_spec(chain, g);
        let l = last_hop_from(chain, g);
        if l >= 0 {
            lemma_simple_lookup_routed(p, g);
            let h = chain[l];
            lemma_group_number_roundtrip(h.from_connector);
            lemma_group_number_roundtrip(h.to_connector);
            let d = hop_data(chain, g);
            assert(d[1] == group_number(h.to_connector));
            assert(d[1] < 14);
            let hop = SimpleHop {
                from_connector: connector_of_gn(d[0]),
                to_connector: connector_of_gn(d[1]),
                bypass: d[2] != 0,
            };
            assert(hop == h);
            assert(cur == prev.push(h));
            assert forall|x: SimpleHop| #[trigger] cur.contains(x) <==> (chain.contains(x)
                && group_number(x.from_connector) < k) by {
                if cur.contains(x) && x != h {
                    let q = choose|q: int| 0 <= q < cur.len() && cur[q] == x;
                    assert(prev[q] == x);
                    assert(prev.contains(x));
                }
                if chain.contains(x) && group_number(x.from_connector) < k && x != h {
                    if group_number(x.from_connector) == k - 1 {
                        let i = choose|i: int| 0 <= i < chain.len() && chain[i] == x;
                        if i != l {
                            if i < l {
                                assert(chain[i].from_connector != chain[l].from_connector);
                            } else {
                                assert(chain[l].from_connector != chain[i].from_connector);
                            }
                            lemma_group_number_injective(x.from_connector, h.from_connector);
                        }
                    }
                    assert(prev.contains(x));
                    let q = choose|q: int| 0 <= q < prev.len() && prev[q] == x;
                    assert(cur[q] == x);
                }
                if x == h {
                    assert(cur[cur.len() - 1] == h);
                    assert(chain[l] == h);
                }
            }
            assert forall|a: int, b: int| 0 <= a < b < cur.len() implies cur[a] != cur[b] by {
                if b == cur.len() - 1 {
                    assert(group_number(prev[a].from_connector) < k - 1);
                }
            }
        } else {
            lemma_simple_lookup_unrouted(p, g);
            assert(cur == prev);
            assert forall|x: SimpleHop| #[trigger] cur.contains(x) <==> (chain.contains(x)
                && group_number(x.from_connector) < k) by {
                if chain.contains(x) && group_number(x.from_connector) == k - 1 {
                    let i = choose|i: int| 0 <= i < chain.len() && chain[i] == x;
                    assert(group_number(chain[i].from_connector) != g);
                }
            }
        }
    }
}

/// Listing `xs` in an order that names every index once keeps its elements.
proof fn lemma_reorder_same_elements<T>(xs: Seq<T>, order: Seq<usize>)
    requires
        xs.len() <= usize::MAX,
        xs.no_duplicates(),
        order.no_duplicates(),
        forall|k: int| 0 <= k < order.len() ==> (#[trigger] order[k]) < xs.len(),
        forall|i: int| 0 <= i < xs.len() ==> #[trigger] order.contains(i as usize),
    ensures
        reorder(xs, order).no_duplicates(),
        forall|x: T| #[trigger] reorder(xs, order).contains(x) <==> xs.contains(x),
{
    let r = reorder(xs, order);
    assert forall|a: int, b: int| 0 <= a < b < r.len() implies r[a] != r[b] by {
        assert(order[a] != order[b]);
    }
    assert forall|x: T| #[trigger] r.contains(x) <==> xs.contains(x) by {
        if r.contains(x) {
            let q = choose|q: int| 0 <= q < r.len() && r[q] == x;
            assert(xs[order[q] as int] == x);
        }
        if xs.contains(x) {
            let i = choose|i: int| 0 <= i < xs.len() && xs[i] == x;
            assert(order.contains(i as usize));
            let q = choose|q: int| 0 <= q < order.len() && order[q] == i as usize;
            assert(r[q] == x);
        }
    }
}

/// Two duplicate-free sequences with the same elements hold them equally often.
proof fn lemma_same_elements_same_multiset<T>(a: Seq<T>, b: Seq<T>)
    requires
        a.no_duplicates(),
        b.no_duplicates(),
        forall|x: T| a.contains(x) <==> b.contains(x),
    ensures
        a.to_multiset() =~= b.to_multiset(),
{
    broadcast use vstd::seq_lib::to_multiset_contains;
    broadcast use vstd::multiset::group_multiset_axioms;

    a.lemma_multiset_has_no_duplicates();
    b.lemma_multiset_has_no_duplicates();
    assert forall|x: T| a.to_multiset().count(x) == b.to_multiset().count(x) by {
        if a.contains(x) {
            assert(a.to_multiset().contains(x));
            assert(b.to_multiset().contains(x));
        } else {
            assert(!a.to_multiset().contains(x));
            assert(!b.to_multiset().contains(x));
        }
    }
}

/// A name the preset-name field carries unchanged: at most 12 ASCII
/// characters, not ending in a space or NUL.
pub open spec fn name_fits(name: Seq<char>) -> bool {
    &&& name.len() <= 12
    &&& forall|i: int| 0 <= i < name.len() ==> (#[trigger] name[i] as u32) < 128
    &&& name.len() > 0 ==> (name.last() as u32) != 0x20 && (name.last() as u32) != 0
}

proof fn lemma_char_of_byte(c: char, x: u8)
    requires
        (c as u32) < 128,
        x as u32 == c as u32,
    ensures
        x as char == c,
{
}

/// A fitting name reads back as itself.
pub proof fn lemma_name_roundtrip(name: Seq<char>)
    requires
        name_fits(name),
    ensures
        spec_ascii_name(spec_ascii_trim_right(name, 12)) == name,
{
    let b = name.map_values(|c: char| name_byte(c));
    assert forall|i: int| 0 <= i < b.len() implies (#[trigger] b[i]) as u32 == name[i] as u32 by {
        assert(name[i] as u32 == (name[i] as u32) as u8);
    }
    if name.len() > 0 {
        let n = name.len() - 1;
        assert(b[n] as u32 == name[n] as u32);
        assert(b[n] != 0x20);
        assert(b[n] != 0);
    }
    assert(trailing_space_end(b, b.len() as int) == b.len());
    assert(b.take(b.len() as int) =~= b);
    assert(spec_ascii_trim_right(name, 12) == b);
    assert(ascii_trim_end(b, b.len() as int) == b.len());
    let r = b.map_values(|x: u8| byte_char(x));
    assert forall|i: int| 0 <= i < name.len() implies #[trigger] r[i] == name[i] by {
        assert((name[i] as u32) < 128);
        assert(b[i] < 128);
        assert(byte_char(b[i]) == b[i] as char);
        lemma_char_of_byte(name[i], b[i]);
        assert(r[i] == byte_char(b[i]));
    }
    assert(r =~= name);
}

proof fn lemma_simple_tail_lookups(p: Preset)
    ensures
        segment_or_empty(simple_pairs(p), segment_id::SPILLOVER_OUTPUT_TIP) == seq![
            spec_spillover_write_byte(p.spillover.output_tip),
        ],
        segment_or_empty(simple_pairs(p), segment_id::SPILLOVER_OUTPUT_RING) == seq![
            spec_spillover_write_byte(p.spillover.output_ring),
        ],
        segment_or_empty(simple_pairs(p), segment_id::PRESET_NAME) == spec_ascii_trim_right(
            p.name@,
            12,
        ),
{
    let chain = chain_of(p);
    let ds = simple_pairs(p);
    let u = unrouted_groups(chain).len() as int;
    let c = chain.len() as int;
    let b = u + c;
    lemma_unrouted_groups_small(chain);
    assert(ds.len() == b + 4);
    assert(ds[b] == (segment_id::SPILLOVER_OUTPUT_TIP, seq![spec_spillover_write_byte(p.spillover.output_tip)]));
    assert(ds[b + 1] == (segment_id::SPILLOVER_OUTPUT_RING, seq![spec_spillover_write_byte(p.spillover.output_ring)]));
    assert(ds[b + 2].0 == segment_id::SIMPLE_FLAG_20);
    assert(ds[b + 3] == (segment_id::PRESET_NAME, spec_ascii_trim_right(p.name@, 12)));
    lemma_lookup_last(ds, segment_id::SPILLOVER_OUTPUT_TIP, b);
    lemma_lookup_last(ds, segment_id::SPILLOVER_OUTPUT_RING, b + 1);
    lemma_lookup_last(ds, segment_id::PRESET_NAME, b + 3);
}

/// Reading back a Simple preset write: the decoder sees a Simple message,
/// and gives back the name (when it fits the field), both spillover
/// targets, and the same hops as often as the chain holds them, provided no
/// two hops leave the same connector.
pub proof fn lemma_simple_preset_roundtrip(p: Preset, save_to_current: bool, q: Preset, bank: u8, number: u8)
    requires
        p.body is Simple,
        chain_froms_distinct(chain_of(p)),
        decoded_preset_is(
            q,
            spec_encode_simple(crate::device::spec_ml10x(), p, save_to_current),
            simple_pairs(p),
            bank,
            number,
        ),
    ensures
        spec_segments(spec_encode_simple(crate::device::spec_ml10x(), p, save_to_current)) == Ok::<
            Seq<(u8, Seq<u8>)>,
            SysexError,
        >(simple_pairs(p)),
        spec_encode_simple(crate::device::spec_ml10x(), p, save_to_current).len() > 10,
        q.spillover == p.spillover,
        name_fits(p.name@) ==> q.name@ == p.name@,
        q.body matches PresetBody::Simple { chain } && chain@.to_multiset() == chain_of(
            p,
        ).to_multiset(),
{
    let m = spec_encode_simple(crate::device::spec_ml10x(), p, save_to_current);
    let ds = simple_pairs(p);
    let chain = chain_of(p);
    lemma_simple_write_segments(p, save_to_current);
    assert(m.len() > 10);
    assert(0u8 & 0x7F == 0u8) by (bit_vector);
    assert(m[7] == 0u8 & 0x7F);
    assert(m[10] == 0u8 & 0x7F);
    assert(!is_advanced_message(m));
    // Spillover and name.
    let u = unrouted_groups(chain).len() as int;
    let c = chain.len() as int;
    lemma_unrouted_groups_small(chain);
    lemma_simple_tail_lookups(p);
    lemma_spillover_byte_roundtrip(p.spillover.output_tip);
    lemma_spillover_byte_roundtrip(p.spillover.output_ring);
    if name_fits(p.name@) {
        lemma_name_roundtrip(p.name@);
    }
    // Hops.
    lemma_simple_raw(p, 14);
    let raw = simple_raw(ds, 14);
    assert forall|x: SimpleHop| raw.contains(x) <==> chain.contains(x) by {
        if chain.contains(x) {
            lemma_group_number_roundtrip(x.from_connector);
        }
    }
    let pairs = chain_pairs(raw);
    lemma_hop_order_permutation(pairs);
    lemma_reorder_same_elements(raw, spec_hop_order(pairs));
    let dec = decoded_chain(ds);
    assert forall|i: int, j: int| 0 <= i < j < chain.len() implies chain[i] != chain[j] by {
        assert(chain[i].from_connector != chain[j].from_connector);
    }
    assert forall|x: SimpleHop| dec.contains(x) <==> chain.contains(x) by {
        assert(dec.contains(x) <==> raw.contains(x));
    }
    lemma_same_elements_same_multiset(dec, chain);
}

/// The (id, data) pairs of an Advanced preset write.
pub open spec fn advanced_pairs(p: Preset) -> Seq<(u8, Seq<u8>)> {
    connections_of(p).map_values(
        |c: Connection| (group_number(c.to_connector), seq![group_number(c.from_connector)]),
    ) + seq![
        (segment_id::SPILLOVER_OUTPUT_TIP, seq![spec_spillover_write_byte(p.spillover.output_tip)]),
        (segment_id::SPILLOVER_OUTPUT_RING, seq![spec_spillover_write_byte(p.spillover.output_ring)]),
        (segment_id::ADV_FLAG_18, seq![0u8]),
        (segment_id::ADV_FLAG_19, seq![0u8, 0u8, 0u8]),
        (segment_id::PRESET_NAME, spec_ascii_trim_right(p.name@, 12)),
    ]
}

/// No two connections lead to the same connector.
pub open spec fn connection_targets_distinct(cs: Seq<Connection>) -> bool {
    forall|i: int, j: int|
        0 <= i < j < cs.len() ==> (#[trigger] cs[i]).to_connector != (
        #[trigger] cs[j]).to_connector
}

/// An Advanced preset write reads back as its own pairs.
pub proof fn lemma_advanced_write_segments(p: Preset, save_to_current: bool)
    ensures
        spec_segments(spec_encode_advanced(crate::device::spec_ml10x(), p, save_to_current))
            == Ok::<Seq<(u8, Seq<u8>)>, SysexError>(advanced_pairs(p)),
{
    let ds = advanced_pairs(p);
    let cs = connections_of(p);
    lemma_name_bytes_small(p.name@);
    assert(seven_bit_pairs(ds)) by {
        assert forall|k: int| 0 <= k < ds.len() implies {
            &&& (#[trigger] ds[k]).0 < 128
            &&& ds[k].1.len() < 128
            &&& forall|j: int| 0 <= j < ds[k].1.len() ==> ds[k].1[j] < 128
        } by {
            if k < cs.len() {
                lemma_group_number_roundtrip(cs[k].to_connector);
                lemma_group_number_roundtrip(cs[k].from_connector);
            }
        }
    }
    assert(encoded_segments(ds) =~= advanced_segments(p));
    lemma_masked_identity(ds);
    let header = spec_header(
        crate::device::spec_ml10x(),
        crate::encode::write_header_bytes(p, 2, save_to_current),
    );
    lemma_segments_of_built_frame(header, ds);
}

proof fn lemma_advanced_lookup(p: Preset, i: int)
    requires
        connection_targets_distinct(connections_of(p)),
        0 <= i < connections_of(p).len(),
    ensures
        lookup_segment(advanced_pairs(p), group_number(connections_of(p)[i].to_connector)) == Some(
            seq![group_number(connections_of(p)[i].from_connector)],
        ),
{
    let cs = connections_of(p);
    let ds = advanced_pairs(p);
    let g = group_number(cs[i].to_connector);
    lemma_group_number_roundtrip(cs[i].to_connector);
    assert forall|j: int| i < j < ds.len() implies (#[trigger] ds[j]).0 != g by {
        if j < cs.len() {
            assert(cs[i].to_connector != cs[j].to_connector);
            lemma_group_number_injective(cs[i].to_connector, cs[j].to_connector);
        }
    }
    lemma_lookup_last(ds, g, i);
}

proof fn lemma_advanced_lookup_absent(p: Preset, g: u8)
    requires
        g < 14,
        forall|i: int|
            0 <= i < connections_of(p).len() ==> group_number(
                (#[trigger] connections_of(p)[i]).to_connector,
            ) != g,
    ensures
        lookup_segment(advanced_pairs(p), g) is None,
{
    let cs = connections_of(p);
    let ds = advanced_pairs(p);
    assert forall|j: int| 0 <= j < ds.len() implies (#[trigger] ds[j]).0 != g by {
        if j < cs.len() {
            assert(ds[j].0 == group_number(cs[j].to_connector));
        }
    }
    lemma_lookup_absent(ds, g);
}

proof fn lemma_advanced_raw(p: Preset, k: int)
    requires
        0 <= k <= 14,
        connection_targets_distinct(connections_of(p)),
    ensures
        advanced_raw(advanced_pairs(p), k).len() <= k,
        advanced_raw(advanced_pairs(p), k).no_duplicates(),
        forall|q: int|
            0 <= q < advanced_raw(advanced_pairs(p), k).len() ==> group_number(
                (#[trigger] advanced_raw(advanced_pairs(p), k)[q]).to_connector,
            ) < k,
        forall|x: Connection|
            #[trigger] advanced_raw(advanced_pairs(p), k).contains(x) <==> (
            connections_of(p).contains(x) && group_number(x.to_connector) < k),
    decreases k,
{
    let cs = connections_of(p);
    let ds = advanced_pairs(p);
    if k > 0 {
        lemma_advanced_raw(p, k - 1);
        let prev = advanced_raw(ds, k - 1);
        let cur = advanced_raw(ds, k);
        let g = (k - 1) as u8;
        if exists|i: int| 0 <= i < cs.len() && group_number((#[trigger] cs[i]).to_connector) == g {
            let i = choose|i: int|
                0 <= i < cs.len() && group_number((#[trigger] cs[i]).to_connector) == g;
            let c = cs[i];
            lemma_advanced_lookup(p, i);
            lemma_group_number_roundtrip(c.from_connector);
            lemma_group_number_roundtrip(c.to_connector);
            let hop = Connection {
                from_connector: connector_of_gn(group_number(c.from_connector)),
                to_connector: connector_of_gn(g),
            };
            assert(hop == c);
            assert(cur == prev.push(c));
            assert forall|x: Connection| #[trigger] cur.contains(x) <==> (cs.contains(x)
                && group_number(x.to_connector) < k) by {
                if cur.contains(x) && x != c {
                    let q = choose|q: int| 0 <= q < cur.len() && cur[q] == x;
                    assert(prev[q] == x);
                    assert(prev.contains(x));
                }
                if cs.contains(x) && group_number(x.to_connector) < k && x != c {
                    if group_number(x.to_connector) == k - 1 {
                        let j = choose|j: int| 0 <= j < cs.len() && cs[j] == x;
                        if j != i {
                            if j < i {
                                assert(cs[j].to_connector != cs[i].to_connector);
                            } else {
                                assert(cs[i].to_connector != cs[j].to_connector);
                            }
                            lemma_group_number_injective(x.to_connector, c.to_connector);
                        }
                    }
                    assert(prev.contains(x));
                    let q = choose|q: int| 0 <= q < prev.len() && prev[q] == x;
                    assert(cur[q] == x);
                }
                if x == c {
                    assert(cur[cur.len() - 1] == c);
                    assert(cs[i] == c);
                }
            }
            assert forall|a: int, b: int| 0 <= a < b < cur.len() implies cur[a] != cur[b] by {
                if b == cur.len() - 1 {
                    assert(group_number(prev[a].to_connector) < k - 1);
                }
            }
        } else {
            lemma_advanced_lookup_absent(p, g);
            assert(cur == prev);
            assert forall|x: Connection| #[trigger] cur.contains(x) <==> (cs.contains(x)
                && group_number(x.to_connector) < k) by {
                if cs.contains(x) && group_number(x.to_connector) == k - 1 {
                    let j = choose|j: int| 0 <= j < cs.len() && cs[j] == x;
                    assert(group_number(cs[j].to_connector) == g);
                }
            }
        }
    }
}

proof fn lemma_advanced_tail_lookups(p: Preset)
    ensures
        segment_or_empty(advanced_pairs(p), segment_id::SPILLOVER_OUTPUT_TIP) == seq![
            spec_spillover_write_byte(p.spillover.output_tip),
        ],
        segment_or_empty(advanced_pairs(p), segment_id::SPILLOVER_OUTPUT_RING) == seq![
            spec_spillover_write_byte(p.spillover.output_ring),
        ],
        segment_or_empty(advanced_pairs(p), segment_id::PRESET_NAME) == spec_ascii_trim_right(
            p.name@,
            12,
        ),
{
    let cs = connections_of(p);
    let ds = advanced_pairs(p);
    let b = cs.len() as int;
    assert(ds.len() == b + 5);
    assert(ds[b] == (segment_id::SPILLOVER_OUTPUT_TIP, seq![spec_spillover_write_byte(p.spillover.output_tip)]));
    assert(ds[b + 1] == (segment_id::SPILLOVER_OUTPUT_RING, seq![spec_spillover_write_byte(p.spillover.output_ring)]));
    assert(ds[b + 2].0 == segment_id::ADV_FLAG_18);
    assert(ds[b + 3].0 == segment_id::ADV_FLAG_19);
    assert(ds[b + 4] == (segment_id::PRESET_NAME, spec_ascii_trim_right(p.name@, 12)));
    lemma_lookup_last(ds, segment_id::SPILLOVER_OUTPUT_TIP, b);
    lemma_lookup_last(ds, segment_id::SPILLOVER_OUTPUT_RING, b + 1);
    lemma_lookup_last(ds, segment_id::PRESET_NAME, b + 4);
}

/// Reading back an Advanced preset write: the decoder sees an Advanced
/// message, and gives back the name (when it fits the field), both
/// spillover targets, and the same connections as often as the preset holds
/// them, provided no two connections lead to the same connector.
pub proof fn lemma_advanced_preset_roundtrip(
    p: Preset,
    save_to_current: bool,
    q: Preset,
    bank: u8,
    number: u8,
)
    requires
        p.body is Advanced,
        connection_targets_distinct(connections_of(p)),
        decoded_preset_is(
            q,
            spec_encode_advanced(crate::device::spec_ml10x(), p, save_to_current),
            advanced_pairs(p),
            bank,
            number,
        ),
    ensures
        spec_segments(spec_encode_advanced(crate::device::spec_ml10x(), p, save_to_current))
            == Ok::<Seq<(u8, Seq<u8>)>, SysexError>(advanced_pairs(p)),
        spec_encode_advanced(crate::device::spec_ml10x(), p, save_to_current).len() > 10,
        q.spillover == p.spillover,
        name_fits(p.name@) ==> q.name@ == p.name@,
        q.body matches PresetBody::Advanced { connections } && connections@.to_multiset()
            == connections_of(p).to_multiset(),
{
    let m = spec_encode_advanced(crate::device::spec_ml10x(), p, save_to_current);
    let ds = advanced_pairs(p);
    let cs = connections_of(p);
    lemma_advanced_write_segments(p, save_to_current);
    assert(m.len() > 10);
    assert(2u8 & 0x7F == 2u8) by (bit_vector);
    assert(m[7] == 2u8 & 0x7F);
    assert(is_advanced_message(m));
    lemma_advanced_tail_lookups(p);
    lemma_spillover_byte_roundtrip(p.spillover.output_tip);
    lemma_spillover_byte_roundtrip(p.spillover.output_ring);
    if name_fits(p.name@) {
        lemma_name_roundtrip(p.name@);
    }
    lemma_advanced_raw(p, 14);
    let raw = advanced_raw(ds, 14);
    assert forall|x: Connection| raw.contains(x) <==> cs.contains(x) by {
        if cs.contains(x) {
            lemma_group_number_roundtrip(x.to_connector);
        }
    }
    let pairs = connection_pairs(raw);
    lemma_hop_order_permutation(pairs);
    lemma_reorder_same_elements(raw, spec_hop_order(pairs));
    let dec = decoded_connections(ds);
    assert forall|i: int, j: int| 0 <= i < j < cs.len() implies cs[i] != cs[j] by {
        assert(cs[i].to_connector != cs[j].to_connector);
    }
    assert forall|x: Connection| dec.contains(x) <==> cs.contains(x) by {
        assert(dec.contains(x) <==> raw.contains(x));
    }
    lemma_same_elements_same_multiset(dec, cs);
}

/// The (id, data) pairs of one 14-entry name table.
pub open spec fn name_table_pairs(c: Controller, base: u8, field: int) -> Seq<(u8, Seq<u8>)> {
    Seq::new(
        14,
        |i: int|
            (
                (base + i) as u8,
                spec_ascii_fold(connector_field(connector_at(c.connectors, i), field)),
            ),
    )
}

/// The (id, data) pairs of a controller-settings write.
pub open spec fn controller_pairs(c: Controller) -> Seq<(u8, Seq<u8>)> {
    name_table_pairs(c, 0, 0) + name_table_pairs(c, segment_id::SHORT_NAMES_FIRST, 1)
        + name_table_pairs(c, segment_id::INPUT_LABEL_FIRST, 2) + name_table_pairs(
        c,
        segment_id::OUTPUT_LABEL_FIRST,
        3,
    ) + seq![
        (segment_id::MIDI_CHANNEL, seq![c.midi_channel & 0x7F]),
        (
            segment_id::INCLUDE_IN_TRAILS,
            seq![(trails_bits(c.include_in_trails) % 128) as u8, (trails_bits(c.include_in_trails) / 128) as u8],
        ),
        (segment_id::DEVICE_ID, seq![c.device_id & 0x7F]),
        (segment_id::INPUT_SPLIT, seq![flag_byte(c.input_split)]),
        (segment_id::LOOP_BYPASS_PERSIST, seq![flag_byte(c.loop_bypass_persistent)]),
    ]
}

/// Every folded name of a controller is shorter than 128 bytes.
pub open spec fn controller_names_fit(c: Controller) -> bool {
    forall|i: int, f: int|
        0 <= i < 14 && 0 <= f < 4 ==> (#[trigger] spec_ascii_fold(
            connector_field(connector_at(c.connectors, i), f),
        )).len() < 128
}

proof fn lemma_fold_bytes_small(s: Seq<char>)
    ensures
        forall|j: int| 0 <= j < spec_ascii_fold(s).len() ==> #[trigger] spec_ascii_fold(s)[j] < 128,
{
    let kept = nfkd_chars(s).filter(kept_by_fold());
    assert forall|j: int| 0 <= j < spec_ascii_fold(s).len() implies #[trigger] spec_ascii_fold(
        s,
    )[j] < 128 by {
        let c = kept[j];
        assert(spec_ascii_fold(s)[j] == fold_byte(c));
        if (c as u32) < 128 {
            assert(((c as u32) as u8) == (c as u32));
        }
    }
}

proof fn lemma_trails_bytes(t: IncludeInTrails)
    ensures
        0 <= trails_bits(t) < 1024,
        (trails_bits(t) / 128) < 8,
{
}

proof fn lemma_trails_bitmap_roundtrip(t: IncludeInTrails)
    ensures
        trails_of_bits(
            trails_bitmap_of(
                seq![(trails_bits(t) % 128) as u8, (trails_bits(t) / 128) as u8],
            ),
        ) == t,
{
    lemma_trails_bytes(t);
    let b0 = t.a_tip;
    let b1 = t.a_ring;
    let b2 = t.b_tip;
    let b3 = t.b_ring;
    let b4 = t.c_tip;
    let b5 = t.c_ring;
    let b6 = t.d_tip;
    let b7 = t.d_ring;
    let b8 = t.e_tip;
    let b9 = t.e_ring;
    let x: u16 = trails_bits(t) as u16;
    assert(x as int == trails_bits(t));
    assert(x == (if b0 { 1u16 } else { 0u16 }) + (if b1 { 2u16 } else { 0u16 }) + (if b2 { 4u16 } else { 0u16 })
        + (if b3 { 8u16 } else { 0u16 }) + (if b4 { 16u16 } else { 0u16 }) + (if b5 { 32u16 } else { 0u16 })
        + (if b6 { 64u16 } else { 0u16 }) + (if b7 { 128u16 } else { 0u16 }) + (if b8 { 256u16 } else { 0u16 })
        + (if b9 { 512u16 } else { 0u16 }));
    let hi: u8 = (x / 128) as u8;
    let lo: u8 = (x % 128) as u8;
    let y: u16 = ((hi as u16) << 7u16) | (lo as u16);
    assert(
        (y & 1 != 0) == b0 && (y & 2 != 0) == b1 && (y & 4 != 0) == b2 && (y & 8 != 0) == b3
        && (y & 16 != 0) == b4 && (y & 32 != 0) == b5 && (y & 64 != 0) == b6 && (y & 128 != 0) == b7
        && (y & 256 != 0) == b8 && (y & 512 != 0) == b9
    ) by (bit_vector)
        requires
            x == (if b0 { 1u16 } else { 0u16 }) + (if b1 { 2u16 } else { 0u16 }) + (if b2 { 4u16 } else { 0u16 })
                + (if b3 { 8u16 } else { 0u16 }) + (if b4 { 16u16 } else { 0u16 }) + (if b5 { 32u16 } else { 0u16 })
                + (if b6 { 64u16 } else { 0u16 }) + (if b7 { 128u16 } else { 0u16 }) + (if b8 { 256u16 } else { 0u16 })
                + (if b9 { 512u16 } else { 0u16 }),
            hi == (x / 128) as u8,
            lo == (x % 128) as u8,
            y == ((hi as u16) << 7u16) | (lo as u16),
    ;
    assert(hi == (trails_bits(t) / 128) as u8);
    assert(lo == (trails_bits(t) % 128) as u8);
    assert(trails_bitmap_of(seq![(trails_bits(t) % 128) as u8, (trails_bits(t) / 128) as u8]) == y);
}

/// A controller-settings write reads back as its own pairs, when every
/// folded name is shorter than 128 bytes.
pub proof fn lemma_controller_write_segments(c: Controller)
    requires
        controller_names_fit(c),
    ensures
        spec_segments(spec_encode_controller(crate::device::spec_ml10x(), c)) == Ok::<
            Seq<(u8, Seq<u8>)>,
            SysexError,
        >(controller_pairs(c)),
{
    let ds = controller_pairs(c);
    lemma_trails_bytes(c.include_in_trails);
    let mc = c.midi_channel;
    let di = c.device_id;
    assert((mc & 0x7F) < 128 && (di & 0x7F) < 128) by (bit_vector);
    assert(seven_bit_pairs(ds)) by {
        assert forall|k: int| 0 <= k < ds.len() implies {
            &&& (#[trigger] ds[k]).0 < 128
            &&& ds[k].1.len() < 128
            &&& forall|j: int| 0 <= j < ds[k].1.len() ==> ds[k].1[j] < 128
        } by {
            if k < 56 {
                let i = k % 14;
                let f = k / 14;
                assert(ds[k].1 == spec_ascii_fold(connector_field(connector_at(c.connectors, i), f)));
                lemma_fold_bytes_small(connector_field(connector_at(c.connectors, i), f));
            }
        }
    }
    assert(encoded_segments(ds) =~= controller_segments(c));
    lemma_masked_identity(ds);
    let header = spec_header(
        crate::device::spec_ml10x(),
        seq![6u8, 1u8, 0u8, 0u8, 0u8, 0u8, 0u8, 0u8],
    );
    lemma_segments_of_built_frame(header, ds);
}

proof fn lemma_controller_lookup(c: Controller, k: int)
    requires
        0 <= k < controller_pairs(c).len(),
    ensures
        lookup_segment(controller_pairs(c), controller_pairs(c)[k].0) == Some(
            controller_pairs(c)[k].1,
        ),
{
    let ds = controller_pairs(c);
    assert forall|j: int| k < j < ds.len() implies (#[trigger] ds[j]).0 != ds[k].0 by {}
    lemma_lookup_last(ds, ds[k].0, k);
}

/// Reading back a controller-settings write gives back the MIDI channel and
/// device id (when below 128), the two switches, the include-in-trails
/// flags, and each name as its folded bytes read back, provided every
/// folded name is shorter than 128 bytes.
pub proof fn lemma_controller_roundtrip(c: Controller, q: Controller)
    requires
        controller_names_fit(c),
        decoded_controller_is(q, controller_pairs(c)),
    ensures
        spec_segments(spec_encode_controller(crate::device::spec_ml10x(), c)) == Ok::<
            Seq<(u8, Seq<u8>)>,
            SysexError,
        >(controller_pairs(c)),
        c.midi_channel < 128 ==> q.midi_channel == c.midi_channel,
        c.device_id < 128 ==> q.device_id == c.device_id,
        q.input_split == c.input_split,
        q.loop_bypass_persistent == c.loop_bypass_persistent,
        q.include_in_trails == c.include_in_trails,
        forall|i: int, f: int|
            0 <= i < 14 && 0 <= f < 4 ==> #[trigger] connector_field(connector_at(q.connectors, i), f)
                == spec_ascii_name(
                spec_ascii_fold(connector_field(connector_at(c.connectors, i), f)),
            ),
{
    let ds = controller_pairs(c);
    lemma_controller_write_segments(c);
    lemma_controller_lookup(c, 56);
    lemma_controller_lookup(c, 57);
    lemma_controller_lookup(c, 58);
    lemma_controller_lookup(c, 59);
    lemma_controller_lookup(c, 60);
    if c.midi_channel < 128 {
        lemma_mask7_small(c.midi_channel);
    }
    if c.device_id < 128 {
        lemma_mask7_small(c.device_id);
    }
    lemma_trails_bitmap_roundtrip(c.include_in_trails);
    assert forall|i: int, f: int| 0 <= i < 14 && 0 <= f < 4 implies #[trigger] connector_field(
        connector_at(q.connectors, i),
        f,
    ) == spec_ascii_name(spec_ascii_fold(connector_field(connector_at(c.connectors, i), f))) by {
        let k = 14 * f + i;
        lemma_controller_lookup(c, k);
        assert(ds[k] == (
            (if f == 0 { i } else if f == 1 { 48 + i } else if f == 2 { 64 + i } else { 80 + i }) as u8,
            spec_ascii_fold(connector_field(connector_at(c.connectors, i), f)),
        ));
        assert(crate::decode::decoded_connector_is(connector_at(q.connectors, i), ds, i));
    }
}

/// A name that reads back as itself from a controller message: 7-bit
/// ASCII, shorter than 128 characters, not ending in a space or NUL.
pub open spec fn name_reads_back(s: Seq<char>) -> bool {
    &&& s.len() < 128
    &&& is_ascii_text(s)
    &&& s.len() > 0 ==> (s.last() as u32) != 0x20 && (s.last() as u32) != 0
}

/// Every one of the 56 connector names of `c` reads back as itself.
pub open spec fn controller_names_read_back(c: Controller) -> bool {
    forall|i: int, f: int|
        0 <= i < 14 && 0 <= f < 4 ==> #[trigger] name_reads_back(
            connector_field(connector_at(c.connectors, i), f),
        )
}

/// Settings `q` are settings `c` read back: every field the same, the UUID
/// empty (the device sends it in a message of its own).
pub open spec fn controller_read_back_is(q: Controller, c: Controller) -> bool {
    &&& q.uuid@ == Seq::<char>::empty()
    &&& q.midi_channel == c.midi_channel
    &&& q.device_id == c.device_id
    &&& q.input_split == c.input_split
    &&& q.loop_bypass_persistent == c.loop_bypass_persistent
    &&& q.include_in_trails == c.include_in_trails
    &&& forall|i: int, f: int|
        0 <= i < 14 && 0 <= f < 4 ==> #[trigger] connector_field(connector_at(q.connectors, i), f)
            == connector_field(connector_at(c.connectors, i), f)
}

proof fn lemma_ascii_name_folds_back(s: Seq<char>)
    requires
        name_reads_back(s),
    ensures
        s.map_values(|c: char| fold_byte(c)).len() < 128,
        spec_ascii_name(s.map_values(|c: char| fold_byte(c))) == s,
{
    let b = s.map_values(|c: char| fold_byte(c));
    assert forall|i: int| 0 <= i < b.len() implies (#[trigger] b[i]) as u32 == s[i] as u32 by {
        assert((s[i] as u32) < 128);
        assert(s[i] as u32 == (s[i] as u32) as u8);
    }
    if s.len() > 0 {
        let n = s.len() - 1;
        assert(b[n] as u32 == s[n] as u32);
        assert(b[n] != 0x20);
        assert(b[n] != 0);
    }
    assert(ascii_trim_end(b, b.len() as int) == b.len());
    assert(b.take(b.len() as int) =~= b);
    let r = b.map_values(|x: u8| byte_char(x));
    assert forall|i: int| 0 <= i < s.len() implies #[trigger] r[i] == s[i] by {
        assert((s[i] as u32) < 128);
        assert(b[i] < 128);
        assert(byte_char(b[i]) == b[i] as char);
        lemma_char_of_byte(s[i], b[i]);
        assert(r[i] == byte_char(b[i]));
    }
    assert(r =~= s);
}

/// Whether one name fits a segment once folded; a name that reads back
/// (see [`name_reads_back`]) fits and reads back as itself.
fn check_name(name: &str) -> (r: bool)
    ensures
        r == (spec_ascii_fold(name@).len() < 128),
        name_reads_back(name@) ==> r && spec_ascii_name(spec_ascii_fold(name@)) == name@,
{
    let folded = ascii_fold_bytes(name);
    proof {
        if name_reads_back(name@) {
            lemma_ascii_name_folds_back(name@);
        }
    }
    folded.len() < 128
}

/// Whether name `f` of connector `i` of `c` fits a segment once folded.
pub open spec fn name_fits_segment(c: Controller, i: int, f: int) -> bool {
    spec_ascii_fold(connector_field(connector_at(c.connectors, i), f)).len() < 128
}

/// Folds the 56 connector names of `c` and tells whether each fits a
/// segment, which is when its write reads back as its own segments. When
/// every name is plain ASCII that reads back (see [`name_reads_back`]) and
/// the MIDI channel and device id are below 128, decoding the write gives
/// `c` back, field for field, with an empty UUID.
pub fn check_controller_names(c: &Controller) -> (r: bool)
    ensures
        r == controller_names_fit(*c),
        r ==> spec_segments(spec_encode_controller(crate::device::spec_ml10x(), *c)) == Ok::<
            Seq<(u8, Seq<u8>)>,
            SysexError,
        >(controller_pairs(*c)),
        controller_names_read_back(*c) ==> r,
        controller_names_read_back(*c) && c.midi_channel < 128 && c.device_id < 128 ==> forall|
            q: Controller,
        |
            #![trigger decoded_controller_is(q, controller_pairs(*c))]
            decoded_controller_is(q, controller_pairs(*c)) ==> controller_read_back_is(q, *c),
{
    let mut ok = true;
    let mut i: usize = 0;
    while i < 14
        invariant
            i <= 14,
            ok == (forall|j: int, f: int| 0 <= j < i && 0 <= f < 4 ==> #[trigger] name_fits_segment(*c, j, f)),
            forall|j: int, f: int|
                0 <= j < i && 0 <= f < 4 && #[trigger] name_reads_back(
                    connector_field(connector_at(c.connectors, j), f),
                ) ==> spec_ascii_name(spec_ascii_fold(connector_field(connector_at(c.connectors, j), f)))
                    == connector_field(connector_at(c.connectors, j), f) && name_fits_segment(*c, j, f),
        decreases 14 - i,
    {
        let conn = connector_ref(&c.connectors, i);
        let a = check_name(field_str(conn, 0));
        let b = check_name(field_str(conn, 1));
        let d = check_name(field_str(conn, 2));
        let e = check_name(field_str(conn, 3));
        let here = a && b && d && e;
        proof {
            assert(here == (forall|f: int| 0 <= f < 4 ==> #[trigger] name_fits_segment(*c, i as int, f))) by {
                if !here {
                    if !a {
                        assert(!name_fits_segment(*c, i as int, 0));
                    } else if !b {
                        assert(!name_fits_segment(*c, i as int, 1));
                    } else if !d {
                        assert(!name_fits_segment(*c, i as int, 2));
                    } else {
                        assert(!name_fits_segment(*c, i as int, 3));
                    }
                }
            }
            if !ok {
                let (j0, f0) = choose|j: int, f: int| 0 <= j < i && 0 <= f < 4 && !#[trigger] name_fits_segment(*c, j, f);
                assert(!name_fits_segment(*c, j0, f0));
            }
        }
        ok = ok && here;
        i += 1;
    }
    assert(ok == controller_names_fit(*c)) by {
        if ok {
            assert forall|j: int, f: int| 0 <= j < 14 && 0 <= f < 4 implies #[trigger] spec_ascii_fold(
                connector_field(connector_at(c.connectors, j), f),
            ).len() < 128 by {
                assert(name_fits_segment(*c, j, f));
            }
        } else {
            let (j0, f0) = choose|j: int, f: int| 0 <= j < 14 && 0 <= f < 4 && !#[trigger] name_fits_segment(*c, j, f);
            assert(!(spec_ascii_fold(connector_field(connector_at(c.connectors, j0), f0)).len() < 128));
        }
    }
    proof {
        if ok {
            lemma_controller_write_segments(*c);
        }
        if controller_names_read_back(*c) {
            assert forall|j: int, f: int| 0 <= j < 14 && 0 <= f < 4 implies #[trigger] name_fits_segment(*c, j, f) by {
                assert(name_reads_back(connector_field(connector_at(c.connectors, j), f)));
            }
            assert(ok);
            if c.midi_channel < 128 && c.device_id < 128 {
                assert forall|q: Controller|
                    #![trigger decoded_controller_is(q, controller_pairs(*c))]
                    decoded_controller_is(q, controller_pairs(*c)) implies controller_read_back_is(q, *c) by {
                    lemma_controller_roundtrip(*c, q);
                    assert forall|j: int, f: int| 0 <= j < 14 && 0 <= f < 4 implies #[trigger] connector_field(
                        connector_at(q.connectors, j),
                        f,
                    ) == connector_field(connector_at(c.connectors, j), f) by {
                        assert(name_reads_back(connector_field(connector_at(c.connectors, j), f)));
                    }
                }
            }
        }
    }
    ok
}

} // verus!
