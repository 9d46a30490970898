//! Decode device messages into the in-memory model.
//!
//! Used to turn captured device responses into presets and controller
//! settings, and as the reader side of the encoder's round trip.
use vstd::prelude::*;

use std::collections::HashMap;

use crate::device::segment_id;
use crate::device::{
    groupnumber_to_slug, lemma_connector_slugs_distinct, lemma_groupnumber_value_inverse,
    slug_text, GROUPNUMBER_TO_VALUE, UNROUTED,
};
use crate::presets::{
    connector_at, connector_of_value, lemma_value_roundtrip, Connection, Connector, ConnectorSlug,
    Connectors, Controller, IncludeInTrails, Preset, PresetBody, SimpleHop, Spillover,
    SpilloverTarget,
};
use crate::sysex::{
    decode_ascii_name, iter_segments, segment_list_view, segments_result_view, spec_ascii_name,
    spec_segments, SysexError,
};

pub mod hop_order;

use self::hop_order::{hop_order, lemma_hop_order_permutation, spec_hop_order, HopPair};

verus! {

#[derive(Debug, Clone, PartialEq, Eq)]
pub enum DecodeError {
    /// SysEx framing error.
    Sysex(SysexError),
    /// Message too short for header lookup (its length in bytes).
    HeaderTooShort(usize),
}

// ---------------------------------------------------------------------------
// Spillover
// ---------------------------------------------------------------------------

/// The spillover target of a j2 value byte; unknown values mean Nothing.
pub open spec fn spillover_of_byte(raw: u8) -> SpilloverTarget {
    if raw == 127 {
        SpilloverTarget::Nothing
    } else if raw == 2 {
        SpilloverTarget::InputTip
    } else if raw == 3 {
        SpilloverTarget::InputRing
    } else if raw == 1 {
        SpilloverTarget::ATip
    } else if raw == 0 {
        SpilloverTarget::ARing
    } else if raw == 15 {
        SpilloverTarget::BTip
    } else if raw == 4 {
        SpilloverTarget::BRing
    } else if raw == 11 {
        SpilloverTarget::CTip
    } else if raw == 6 {
        SpilloverTarget::CRing
    } else if raw == 13 {
        SpilloverTarget::DTip
    } else if raw == 12 {
        SpilloverTarget::DRing
    } else if raw == 9 {
        SpilloverTarget::ETip
    } else if raw == 10 {
        SpilloverTarget::ERing
    } else {
        SpilloverTarget::Nothing
    }
}

/// The spillover target a segment's data stands for. READ form is 2 bytes
/// `[is_set, value]` (`[0, _]` is Nothing); WRITE form is the j2 byte alone.
pub open spec fn spec_decode_spillover(d: Seq<u8>) -> SpilloverTarget {
    if d.len() == 0 {
        SpilloverTarget::Nothing
    } else if d.len() == 1 {
        spillover_of_byte(d[0])
    } else if d[0] == 0 {
        spillover_of_byte(127)
    } else {
        spillover_of_byte(d[1])
    }
}

/// Map a spillover segment's data to a `SpilloverTarget`.
pub fn decode_spillover(seg_data: &[u8]) -> (r: SpilloverTarget)
    ensures
        r == spec_decode_spillover(seg_data@),
{
    if seg_data.len() == 0 {
        return SpilloverTarget::Nothing;
    }
    let raw = if seg_data.len() == 1 {
        seg_data[0]
    } else if seg_data[0] == 0 {
        127
    } else {
        seg_data[1]
    };
    if raw == 127 {
        SpilloverTarget::Nothing
    } else if raw == 2 {
        SpilloverTarget::InputTip
    } else if raw == 3 {
        SpilloverTarget::InputRing
    } else if raw == 1 {
        SpilloverTarget::ATip
    } else if raw == 0 {
        SpilloverTarget::ARing
    } else if raw == 15 {
        SpilloverTarget::BTip
    } else if raw == 4 {
        SpilloverTarget::BRing
    } else if raw == 11 {
        SpilloverTarget::CTip
    } else if raw == 6 {
        SpilloverTarget::CRing
    } else if raw == 13 {
        SpilloverTarget::DTip
    } else if raw == 12 {
        SpilloverTarget::DRing
    } else if raw == 9 {
        SpilloverTarget::ETip
    } else if raw == 10 {
        SpilloverTarget::ERing
    } else {
        SpilloverTarget::Nothing
    }
}

// ---------------------------------------------------------------------------
// Segment lookup and connectors
// ---------------------------------------------------------------------------

/// The data of the last segment with id `id`, if any (a later segment with
/// the same id replaces an earlier one).
pub open spec fn lookup_segment(segs: Seq<(u8, Seq<u8>)>, id: u8) -> Option<Seq<u8>>
    decreases segs.len(),
{
    if segs.len() == 0 {
        None
    } else if segs.last().0 == id {
        Some(segs.last().1)
    } else {
        lookup_segment(segs.drop_last(), id)
    }
}

/// The data of segment `id`, or no bytes when there is none.
pub open spec fn segment_or_empty(segs: Seq<(u8, Seq<u8>)>, id: u8) -> Seq<u8> {
    match lookup_segment(segs, id) {
        Some(d) => d,
        None => Seq::empty(),
    }
}

fn find_segment(segs: &Vec<(u8, Vec<u8>)>, id: u8) -> (r: Option<&Vec<u8>>)
    ensures
        match lookup_segment(segment_list_view(segs@), id) {
            Some(d) => r matches Some(v) && v@ == d,
            None => r is None,
        },
{
    let ghost sv = segment_list_view(segs@);
    let mut i = segs.len();
    assert(sv.take(i as int) =~= sv);
    while i > 0
        invariant
            i <= segs@.len(),
            sv == segment_list_view(segs@),
            lookup_segment(sv, id) == lookup_segment(sv.take(i as int), id),
        decreases i,
    {
        proof {
            assert(sv.take(i as int).drop_last() =~= sv.take(i as int - 1));
        }
        if segs[i - 1].0 == id {
            return Some(&segs[i - 1].1);
        }
        i -= 1;
    }
    None
}

fn segment_slice<'a>(segs: &'a Vec<(u8, Vec<u8>)>, id: u8, empty: &'a Vec<u8>) -> (r: &'a [u8])
    requires
        empty@.len() == 0,
    ensures
        r@ == segment_or_empty(segment_list_view(segs@), id),
{
    match find_segment(segs, id) {
        Some(v) => v.as_slice(),
        None => {
            assert(empty@ =~= Seq::<u8>::empty());
            empty.as_slice()
        },
    }
}

/// The connector with groupNumber `gn` (0..13).
pub open spec fn connector_of_gn(gn: u8) -> ConnectorSlug {
    connector_of_value(GROUPNUMBER_TO_VALUE@[gn as int] as int)
}

fn groupnumber_to_slug_checked(gn: u8) -> (r: Option<&'static str>)
    ensures
        gn < 14 ==> (r matches Some(s) && s@ == slug_text(GROUPNUMBER_TO_VALUE@[gn as int] as int)),
        gn >= 14 ==> r is None,
{
    if gn >= 14 {
        return None;
    }
    Some(groupnumber_to_slug(gn))
}

fn connector_from_gn(gn: u8) -> (r: Option<ConnectorSlug>)
    ensures
        gn < 14 ==> r == Some(connector_of_gn(gn)),
        gn >= 14 ==> r is None,
{
    let slug = match groupnumber_to_slug_checked(gn) {
        Some(s) => s,
        None => {
            return None;
        },
    };
    let r = ConnectorSlug::from_slug(slug);
    proof {
        lemma_groupnumber_value_inverse();
        lemma_connector_slugs_distinct();
        let v = GROUPNUMBER_TO_VALUE@[gn as int] as int;
        lemma_value_roundtrip(connector_of_value(v));
        assert(0 <= v < 14);
        assert(connector_of_value(v).spec_value() == v);
        match r {
            Some(c) => {
                lemma_value_roundtrip(c);
                assert(slug_text(c.spec_value() as int) == slug_text(v));
            },
            None => {
                assert(slug_text(v) == slug@);
            },
        }
    }
    r
}

// ---------------------------------------------------------------------------
// Presets
// ---------------------------------------------------------------------------

/// The Advanced connections found among segments 0..k-1, in id order: a
/// 1-byte segment with id = target gn and data = source gn (below 14).
pub open spec fn advanced_raw(segs: Seq<(u8, Seq<u8>)>, k: int) -> Seq<Connection>
    decreases k,
{
    if k <= 0 {
        Seq::empty()
    } else {
        let prev = advanced_raw(segs, k - 1);
        let id = (k - 1) as u8;
        match lookup_segment(segs, id) {
            Some(d) => if d.len() == 1 && d[0] < 14 {
                prev.push(
                    Connection {
                        from_connector: connector_of_gn(d[0]),
                        to_connector: connector_of_gn(id),
                    },
                )
            } else {
                prev
            },
            None => prev,
        }
    }
}

/// The Simple hops found among segments 0..k-1, in id order: a segment of at
/// least 3 bytes `<from_gn> <to_gn> <bypass>` with `to_gn` not the unrouted
/// sentinel and both gns below 14.
pub open spec fn simple_raw(segs: Seq<(u8, Seq<u8>)>, k: int) -> Seq<SimpleHop>
    decreases k,
{
    if k <= 0 {
        Seq::empty()
    } else {
        let prev = simple_raw(segs, k - 1);
        let id = (k - 1) as u8;
        match lookup_segment(segs, id) {
            Some(d) => if d.len() >= 3 && d[1] != UNROUTED && d[0] < 14 && d[1] < 14 {
                prev.push(
                    SimpleHop {
                        from_connector: connector_of_gn(d[0]),
                        to_connector: connector_of_gn(d[1]),
                        bypass: d[2] != 0,
                    },
                )
            } else {
                prev
            },
            None => prev,
        }
    }
}

/// The (from, to) pairs of a list of connections.
pub open spec fn connection_pairs(cs: Seq<Connection>) -> Seq<HopPair> {
    cs.map_values(|c: Connection| (c.from_connector, c.to_connector))
}

/// The (from, to) pairs of a chain.
pub open spec fn chain_pairs(chain: Seq<SimpleHop>) -> Seq<HopPair> {
    chain.map_values(|h: SimpleHop| (h.from_connector, h.to_connector))
}

/// `xs` listed in the order given by the indices of `order`.
pub open spec fn reorder<T>(xs: Seq<T>, order: Seq<usize>) -> Seq<T> {
    order.map_values(|i: usize| xs[i as int])
}

/// The decoded Advanced connections, in reading order.
pub open spec fn decoded_connections(segs: Seq<(u8, Seq<u8>)>) -> Seq<Connection> {
    let raw = advanced_raw(segs, 14);
    reorder(raw, spec_hop_order(connection_pairs(raw)))
}

/// The decoded Simple chain, in reading order.
pub open spec fn decoded_chain(segs: Seq<(u8, Seq<u8>)>) -> Seq<SimpleHop> {
    let raw = simple_raw(segs, 14);
    reorder(raw, spec_hop_order(chain_pairs(raw)))
}

/// Whether a preset message is in Advanced form: P2 = 2 (Advanced WRITE) or
/// P5 > 0 (READ with the Advanced flag).
pub open spec fn is_advanced_message(m: Seq<u8>) -> bool {
    m[7] == 2 || m[10] > 0
}

/// The preset a message with segments `segs` decodes to.
pub open spec fn decoded_preset_is(
    p: Preset,
    m: Seq<u8>,
    segs: Seq<(u8, Seq<u8>)>,
    bank: u8,
    number: u8,
) -> bool {
    &&& p.bank == bank
    &&& p.number == number
    &&& p.name@ == spec_ascii_name(segment_or_empty(segs, segment_id::PRESET_NAME))
    &&& p.spillover == (Spillover {
        output_tip: spec_decode_spillover(segment_or_empty(segs, segment_id::SPILLOVER_OUTPUT_TIP)),
        output_ring: spec_decode_spillover(
            segment_or_empty(segs, segment_id::SPILLOVER_OUTPUT_RING),
        ),
    })
    &&& if is_advanced_message(m) {
        p.body matches PresetBody::Advanced { connections } && connections@ == decoded_connections(
            segs,
        )
    } else {
        p.body matches PresetBody::Simple { chain } && chain@ == decoded_chain(segs)
    }
}

fn reorder_connections(xs: &Vec<Connection>, order: &Vec<usize>) -> (r: Vec<Connection>)
    requires
        forall|k: int| 0 <= k < order@.len() ==> (#[trigger] order@[k]) < xs@.len(),
    ensures
        r@ == reorder(xs@, order@),
{
    let mut out: Vec<Connection> = Vec::new();
    let mut k: usize = 0;
    while k < order.len()
        invariant
            k <= order@.len(),
            forall|q: int| 0 <= q < order@.len() ==> (#[trigger] order@[q]) < xs@.len(),
            out@ == reorder(xs@, order@).take(k as int),
        decreases order@.len() - k,
    {
        let i = order[k];
        out.push(xs[i]);
        proof {
            assert(reorder(xs@, order@).take(k as int + 1) =~= reorder(xs@, order@).take(
                k as int,
            ).push(xs@[i as int]));
        }
        k += 1;
    }
    assert(reorder(xs@, order@).take(order@.len() as int) =~= reorder(xs@, order@));
    out
}

fn reorder_hops(xs: &Vec<SimpleHop>, order: &Vec<usize>) -> (r: Vec<SimpleHop>)
    requires
        forall|k: int| 0 <= k < order@.len() ==> (#[trigger] order@[k]) < xs@.len(),
    ensures
        r@ == reorder(xs@, order@),
{
    let mut out: Vec<SimpleHop> = Vec::new();
    let mut k: usize = 0;
    while k < order.len()
        invariant
            k <= order@.len(),
            forall|q: int| 0 <= q < order@.len() ==> (#[trigger] order@[q]) < xs@.len(),
            out@ == reorder(xs@, order@).take(k as int),
        decreases order@.len() - k,
    {
        let i = order[k];
        out.push(xs[i]);
        proof {
            assert(reorder(xs@, order@).take(k as int + 1) =~= reorder(xs@, order@).take(
                k as int,
            ).push(xs@[i as int]));
        }
        k += 1;
    }
    assert(reorder(xs@, order@).take(order@.len() as int) =~= reorder(xs@, order@));
    out
}

fn decode_advanced_connections(segments: &Vec<(u8, Vec<u8>)>) -> (r: Vec<Connection>)
    ensures
        r@ == decoded_connections(segment_list_view(segments@)),
{
    let ghost sv = segment_list_view(segments@);
    let mut connections: Vec<Connection> = Vec::new();
    let mut id: u8 = 0;
    while id < 14
        invariant
            id <= 14,
            sv == segment_list_view(segments@),
            connections@ == advanced_raw(sv, id as int),
        decreases 14 - id,
    {
        match find_segment(segments, id) {
            Some(data) => {
                if data.len() == 1 {
                    let source_gn = data[0];
                    match (connector_from_gn(source_gn), connector_from_gn(id)) {
                        (Some(fc), Some(tc)) => {
                            connections.push(Connection { from_connector: fc, to_connector: tc });
                        },
                        _ => {},
                    }
                }
            },
            None => {},
        }
        id += 1;
    }
    let mut pairs: Vec<HopPair> = Vec::new();
    let mut k: usize = 0;
    while k < connections.len()
        invariant
            k <= connections@.len(),
            pairs@ == connection_pairs(connections@).take(k as int),
        decreases connections@.len() - k,
    {
        let c = connections[k];
        pairs.push((c.from_connector, c.to_connector));
        proof {
            assert(connection_pairs(connections@).take(k as int + 1) =~= connection_pairs(
                connections@,
            ).take(k as int).push((c.from_connector, c.to_connector)));
        }
        k += 1;
    }
    assert(connection_pairs(connections@).take(connections@.len() as int) =~= connection_pairs(
        connections@,
    ));
    let order = hop_order(pairs.as_slice());
    proof {
        lemma_hop_order_permutation(pairs@);
    }
    reorder_connections(&connections, &order)
}

fn decode_simple_chain(segments: &Vec<(u8, Vec<u8>)>) -> (r: Vec<SimpleHop>)
    ensures
        r@ == decoded_chain(segment_list_view(segments@)),
{
    let ghost sv = segment_list_view(segments@);
    let mut chain: Vec<SimpleHop> = Vec::new();
    let mut id: u8 = 0;
    while id < 14
        invariant
            id <= 14,
            sv == segment_list_view(segments@),
            chain@ == simple_raw(sv, id as int),
        decreases 14 - id,
    {
        match find_segment(segments, id) {
            Some(data) => {
                if data.len() >= 3 {
                    let from_gn = data[0];
                    let to_gn = data[1];
                    let bypass_flag = data[2];
                    if to_gn != UNROUTED {
                        match (connector_from_gn(from_gn), connector_from_gn(to_gn)) {
                            (Some(fc), Some(tc)) => {
                                chain.push(
                                    SimpleHop {
                                        from_connector: fc,
                                        to_connector: tc,
                                        bypass: bypass_flag != 0,
                                    },
                                );
                            },
                            _ => {},
                        }
                    }
                }
            },
            None => {},
        }
        id += 1;
    }
    let mut pairs: Vec<HopPair> = Vec::new();
    let mut k: usize = 0;
    while k < chain.len()
        invariant
            k <= chain@.len(),
            pairs@ == chain_pairs(chain@).take(k as int),
        decreases chain@.len() - k,
    {
        let h = chain[k];
        pairs.push((h.from_connector, h.to_connector));
        proof {
            assert(chain_pairs(chain@).take(k as int + 1) =~= chain_pairs(chain@).take(
                k as int,
            ).push((h.from_connector, h.to_connector)));
        }
        k += 1;
    }
    assert(chain_pairs(chain@).take(chain@.len() as int) =~= chain_pairs(chain@));
    let order = hop_order(pairs.as_slice());
    proof {
        lemma_hop_order_permutation(pairs@);
    }
    reorder_hops(&chain, &order)
}

/// Turn a preset-data message into a `Preset`.
///
/// Handles three formats: READ from the device (P1 = 6, P2 = 0, P5 flags
/// Advanced) with 3-byte connection records; Simple WRITE (P2 = 0) with 2-
/// or 3-byte records at segments 0..13; Advanced WRITE (P2 = 2) with 1-byte
/// segments whose id is the target's gn and whose data byte is the source's
/// gn. Hops come out in reading order (see [`hop_order`]).
pub fn decode_preset(message: &[u8], bank: u8, number: u8) -> (r: Result<Preset, DecodeError>)
    ensures
        message@.len() <= 10 ==> r == Err::<Preset, DecodeError>(
            DecodeError::HeaderTooShort(message@.len() as usize),
        ),
        message@.len() > 10 ==> match spec_segments(message@) {
            Err(e) => r == Err::<Preset, DecodeError>(DecodeError::Sysex(e)),
            Ok(segs) => r matches Ok(p) && decoded_preset_is(p, message@, segs, bank, number),
        },
{
    if message.len() <= 10 {
        return Err(DecodeError::HeaderTooShort(message.len()));
    }
    let segments = match iter_segments(message) {
        Ok(s) => s,
        Err(e) => {
            return Err(DecodeError::Sysex(e));
        },
    };
    let p2 = message[7];
    let p5 = message[10];
    let advanced_flag = p2 == 2 || p5 > 0;
    let empty: Vec<u8> = Vec::new();
    let name = decode_ascii_name(segment_slice(&segments, segment_id::PRESET_NAME, &empty));
    let spillover = Spillover {
        output_tip: decode_spillover(
            segment_slice(&segments, segment_id::SPILLOVER_OUTPUT_TIP, &empty),
        ),
        output_ring: decode_spillover(
            segment_slice(&segments, segment_id::SPILLOVER_OUTPUT_RING, &empty),
        ),
    };
    let body = if advanced_flag {
        PresetBody::Advanced { connections: decode_advanced_connections(&segments) }
    } else {
        PresetBody::Simple { chain: decode_simple_chain(&segments) }
    };
    Ok(Preset { bank, number, name, spillover, body })
}

// ---------------------------------------------------------------------------
// Preset names
// ---------------------------------------------------------------------------

/// The name map a names dump with segments `segs` decodes to: one entry per
/// segment id up to 127, holding the name of the last segment with that id.
pub open spec fn names_map_is(m: Map<u8, String>, segs: Seq<(u8, Seq<u8>)>) -> bool {
    &&& forall|id: u8|
        #[trigger] m.contains_key(id) <==> (id <= 127 && lookup_segment(segs, id) is Some)
    &&& forall|id: u8|
        #[trigger] m.contains_key(id) ==> m[id]@ == spec_ascii_name(
            lookup_segment(segs, id)->Some_0,
        )
}

/// Parse an inbound f1 = 6, f2 = 2 message ("all preset names for the
/// current bank") into a map from preset number to name.
pub fn decode_preset_names(message: &[u8]) -> (r: Result<HashMap<u8, String>, DecodeError>)
    ensures
        match spec_segments(message@) {
            Err(e) => r == Err::<HashMap<u8, String>, DecodeError>(DecodeError::Sysex(e)),
            Ok(segs) => r matches Ok(m) && names_map_is(m@, segs),
        },
{
    broadcast use vstd::std_specs::hash::group_hash_axioms;

    let segments = match iter_segments(message) {
        Ok(s) => s,
        Err(e) => {
            return Err(DecodeError::Sysex(e));
        },
    };
    let ghost sv = segment_list_view(segments@);
    let mut out: HashMap<u8, String> = HashMap::new();
    let mut k: usize = 0;
    while k < segments.len()
        invariant
            k <= segments@.len(),
            sv == segment_list_view(segments@),
            names_map_is(out@, sv.take(k as int)),
        decreases segments@.len() - k,
    {
        let seg_id = segments[k].0;
        proof {
            assert(sv.take(k as int + 1).drop_last() =~= sv.take(k as int));
            assert(sv.take(k as int + 1).last() == sv[k as int]);
        }
        if seg_id <= 127 {
            let name = decode_ascii_name(segments[k].1.as_slice());
            out.insert(seg_id, name);
        }
        k += 1;
    }
    assert(sv.take(segments@.len() as int) =~= sv);
    Ok(out)
}

// ---------------------------------------------------------------------------
// Controller settings
// ---------------------------------------------------------------------------

/// A name segment's text, or the empty name when the segment is absent.
pub open spec fn name_or_blank(segs: Seq<(u8, Seq<u8>)>, id: u8) -> Seq<char> {
    match lookup_segment(segs, id) {
        Some(d) => spec_ascii_name(d),
        None => Seq::empty(),
    }
}

/// The first data byte of segment `id`, or 0 when it is absent or empty.
pub open spec fn first_byte_or_zero(segs: Seq<(u8, Seq<u8>)>, id: u8) -> u8 {
    match lookup_segment(segs, id) {
        Some(d) => if d.len() > 0 {
            d[0]
        } else {
            0
        },
        None => 0,
    }
}

/// Whether the first data byte of segment `id` is set (false when absent
/// or empty).
pub open spec fn flag_set(segs: Seq<(u8, Seq<u8>)>, id: u8) -> bool {
    match lookup_segment(segs, id) {
        Some(d) => d.len() > 0 && d[0] != 0,
        None => false,
    }
}

/// The include-in-trails flags of a bitmap: bit i for the i-th loop.
pub open spec fn trails_of_bits(bits: u16) -> IncludeInTrails {
    IncludeInTrails {
        a_tip: bits & 1 != 0,
        a_ring: bits & 2 != 0,
        b_tip: bits & 4 != 0,
        b_ring: bits & 8 != 0,
        c_tip: bits & 16 != 0,
        c_ring: bits & 32 != 0,
        d_tip: bits & 64 != 0,
        d_ring: bits & 128 != 0,
        e_tip: bits & 256 != 0,
        e_ring: bits & 512 != 0,
    }
}

/// The bitmap carried by a trails segment: `(data[1] << 7) | data[0]`,
/// the low seven bits first.
pub open spec fn trails_bitmap_of(d: Seq<u8>) -> u16 {
    ((d[1] as u16) << 7u16) | (d[0] as u16)
}

/// The include-in-trails flags of a controller message (all off when the
/// segment is absent or shorter than 2 bytes).
pub open spec fn decoded_trails(segs: Seq<(u8, Seq<u8>)>) -> IncludeInTrails {
    match lookup_segment(segs, segment_id::INCLUDE_IN_TRAILS) {
        Some(d) => if d.len() >= 2 {
            trails_of_bits(trails_bitmap_of(d))
        } else {
            trails_of_bits(0)
        },
        None => trails_of_bits(0),
    }
}

/// The four names of connector `i` in a controller message.
pub open spec fn decoded_connector_is(c: Connector, segs: Seq<(u8, Seq<u8>)>, i: int) -> bool {
    &&& c.name@ == name_or_blank(segs, i as u8)
    &&& c.short_name@ == name_or_blank(segs, (segment_id::SHORT_NAMES_FIRST + i) as u8)
    &&& c.input_name@ == name_or_blank(segs, (segment_id::INPUT_LABEL_FIRST + i) as u8)
    &&& c.output_name@ == name_or_blank(segs, (segment_id::OUTPUT_LABEL_FIRST + i) as u8)
}

/// The controller settings a message with segments `segs` decodes to.
pub open spec fn decoded_controller_is(c: Controller, segs: Seq<(u8, Seq<u8>)>) -> bool {
    &&& c.uuid@ == Seq::<char>::empty()
    &&& forall|i: int|
        0 <= i < 14 ==> decoded_connector_is(#[trigger] connector_at(c.connectors, i), segs, i)
    &&& c.midi_channel == first_byte_or_zero(segs, segment_id::MIDI_CHANNEL)
    &&& c.include_in_trails == decoded_trails(segs)
    &&& c.device_id == first_byte_or_zero(segs, segment_id::DEVICE_ID)
    &&& c.input_split == flag_set(segs, segment_id::INPUT_SPLIT)
    &&& c.loop_bypass_persistent == flag_set(segs, segment_id::LOOP_BYPASS_PERSIST)
}

fn name_of_segment(segs: &Vec<(u8, Vec<u8>)>, id: u8) -> (r: String)
    ensures
        r@ == name_or_blank(segment_list_view(segs@), id),
{
    match find_segment(segs, id) {
        Some(data) => decode_ascii_name(data.as_slice()),
        None => String::new(),
    }
}

fn decoded_connector(segs: &Vec<(u8, Vec<u8>)>, i: u8) -> (r: Connector)
    requires
        i < 14,
    ensures
        decoded_connector_is(r, segment_list_view(segs@), i as int),
{
    Connector {
        name: name_of_segment(segs, i),
        short_name: name_of_segment(segs, segment_id::SHORT_NAMES_FIRST + i),
        input_name: name_of_segment(segs, segment_id::INPUT_LABEL_FIRST + i),
        output_name: name_of_segment(segs, segment_id::OUTPUT_LABEL_FIRST + i),
    }
}

fn first_byte(segs: &Vec<(u8, Vec<u8>)>, id: u8) -> (r: u8)
    ensures
        r == first_byte_or_zero(segment_list_view(segs@), id),
{
    match find_segment(segs, id) {
        Some(b) => if b.len() > 0 {
            b[0]
        } else {
            0
        },
        None => 0,
    }
}

fn flag_of(segs: &Vec<(u8, Vec<u8>)>, id: u8) -> (r: bool)
    ensures
        r == flag_set(segment_list_view(segs@), id),
{
    match find_segment(segs, id) {
        Some(b) => b.len() > 0 && b[0] != 0,
        None => false,
    }
}

fn trails_from_bits(bits: u16) -> (r: IncludeInTrails)
    ensures
        r == trails_of_bits(bits),
{
    IncludeInTrails {
        a_tip: bits & 1 != 0,
        a_ring: bits & 2 != 0,
        b_tip: bits & 4 != 0,
        b_ring: bits & 8 != 0,
        c_tip: bits & 16 != 0,
        c_ring: bits & 32 != 0,
        d_tip: bits & 64 != 0,
        d_ring: bits & 128 != 0,
        e_tip: bits & 256 != 0,
        e_ring: bits & 512 != 0,
    }
}

fn trails_of(segs: &Vec<(u8, Vec<u8>)>) -> (r: IncludeInTrails)
    ensures
        r == decoded_trails(segment_list_view(segs@)),
{
    match find_segment(segs, segment_id::INCLUDE_IN_TRAILS) {
        Some(b) => if b.len() >= 2 {
            let bits: u16 = ((b[1] as u16) << 7u16) | (b[0] as u16);
            trails_from_bits(bits)
        } else {
            trails_from_bits(0)
        },
        None => trails_from_bits(0),
    }
}

/// Turn an inbound f1 = 6, f2 = 1 controller-data message into a `Controller`.
pub fn decode_controller(message: &[u8]) -> (r: Result<Controller, DecodeError>)
    ensures
        match spec_segments(message@) {
            Err(e) => r == Err::<Controller, DecodeError>(DecodeError::Sysex(e)),
            Ok(segs) => r matches Ok(c) && decoded_controller_is(c, segs),
        },
{
    let segments = match iter_segments(message) {
        Ok(s) => s,
        Err(e) => {
            return Err(DecodeError::Sysex(e));
        },
    };
    let connectors = Connectors {
        a_tip: decoded_connector(&segments, 0),
        a_ring: decoded_connector(&segments, 1),
        b_tip: decoded_connector(&segments, 2),
        b_ring: decoded_connector(&segments, 3),
        c_tip: decoded_connector(&segments, 4),
        c_ring: decoded_connector(&segments, 5),
        d_tip: decoded_connector(&segments, 6),
        d_ring: decoded_connector(&segments, 7),
        e_tip: decoded_connector(&segments, 8),
        e_ring: decoded_connector(&segments, 9),
        input_tip: decoded_connector(&segments, 10),
        input_ring: decoded_connector(&segments, 11),
        output_tip: decoded_connector(&segments, 12),
        output_ring: decoded_connector(&segments, 13),
    };
    let ctrl = Controller {
        uuid: String::new(),
        midi_channel: first_byte(&segments, segment_id::MIDI_CHANNEL),
        device_id: first_byte(&segments, segment_id::DEVICE_ID),
        input_split: flag_of(&segments, segment_id::INPUT_SPLIT),
        loop_bypass_persistent: flag_of(&segments, segment_id::LOOP_BYPASS_PERSIST),
        include_in_trails: trails_of(&segments),
        connectors,
    };
    Ok(ctrl)
}

} // verus!
