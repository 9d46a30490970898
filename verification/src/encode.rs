//! Encode presets and controller settings to SysEx bytes.
//!
//! Inverse of `decode`. The format matches what the official editor emits
//! when the user clicks Save.
use vstd::prelude::*;

use unicode_normalization::UnicodeNormalization;

use crate::device::{
    lemma_connector_slugs_distinct, lemma_groupnumber_value_inverse, ml10x, slug_text,
    slug_to_groupnumber, spec_ml10x, DeviceProfile, UNROUTED, VALUE_TO_GROUPNUMBER,
};
use crate::device::segment_id;
use crate::presets::{
    connector_at, lemma_value_roundtrip, Connection, Connector, Connectors, Controller,
    ConnectorSlug, IncludeInTrails, Preset, PresetBody, SimpleHop, Spillover, SpilloverTarget,
};
use crate::sysex::{
    build_header_with, bytes_result_view, encode_segment, frame_with, segment_views, spec_frame,
    spec_frame_with, spec_header, spec_segment, SysexError,
};
use crate::text::chars_of;

verus! {

#[derive(Debug, Clone, PartialEq, Eq)]
pub enum EncodeError {
    /// Unknown connector slug.
    UnknownConnector(String),
    /// SysEx framing error.
    Sysex(SysexError),
}

// ---------------------------------------------------------------------------
// Spillover and connector numbering
// ---------------------------------------------------------------------------

/// The spillover byte the editor writes for each target (a scrambled table,
/// not a linear one).
pub open spec fn spec_spillover_write_byte(target: SpilloverTarget) -> u8 {
    match target {
        SpilloverTarget::Nothing => 127,
        SpilloverTarget::InputTip => 2,
        SpilloverTarget::InputRing => 3,
        SpilloverTarget::ATip => 1,
        SpilloverTarget::ARing => 0,
        SpilloverTarget::BTip => 15,
        SpilloverTarget::BRing => 4,
        SpilloverTarget::CTip => 11,
        SpilloverTarget::CRing => 6,
        SpilloverTarget::DTip => 13,
        SpilloverTarget::DRing => 12,
        SpilloverTarget::ETip => 9,
        SpilloverTarget::ERing => 10,
    }
}

/// Spillover WRITE-form byte mapping (the editor's `j2` dropdown).
pub fn spillover_write_byte(target: SpilloverTarget) -> (r: u8)
    ensures
        r == spec_spillover_write_byte(target),
{
    match target {
        SpilloverTarget::Nothing => 127,
        SpilloverTarget::InputTip => 2,
        SpilloverTarget::InputRing => 3,
        SpilloverTarget::ATip => 1,
        SpilloverTarget::ARing => 0,
        SpilloverTarget::BTip => 15,
        SpilloverTarget::BRing => 4,
        SpilloverTarget::CTip => 11,
        SpilloverTarget::CRing => 6,
        SpilloverTarget::DTip => 13,
        SpilloverTarget::DRing => 12,
        SpilloverTarget::ETip => 9,
        SpilloverTarget::ERing => 10,
    }
}

/// The groupNumber of a connector.
pub open spec fn group_number(c: ConnectorSlug) -> u8 {
    VALUE_TO_GROUPNUMBER@[c.spec_value() as int]
}

/// The groupNumber of the connector named `slug`, or `UnknownConnector`.
fn gn_of(slug: &str) -> (r: Result<u8, EncodeError>)
    ensures
        r matches Ok(gn) ==> exists|v: int|
            0 <= v < 14 && slug_text(v) == slug@ && gn == VALUE_TO_GROUPNUMBER@[v],
        r matches Err(e) ==> e matches EncodeError::UnknownConnector(s) && s@ == slug@,
        r is Err <==> forall|v: int| 0 <= v < 14 ==> slug_text(v) != slug@,
{
    match slug_to_groupnumber(slug) {
        Some(gn) => Ok(gn),
        None => Err(EncodeError::UnknownConnector(String::from_str(slug))),
    }
}

/// The groupNumber of a connector, looked up by its slug.
fn connector_gn(c: ConnectorSlug) -> (r: u8)
    ensures
        r == group_number(c),
        r < 14,
{
    let slug = c.slug();
    proof {
        lemma_connector_slugs_distinct();
        lemma_groupnumber_value_inverse();
        lemma_value_roundtrip(c);
        assert(slug_text(c.spec_value() as int) == slug@);
    }
    match gn_of(slug) {
        Ok(gn) => gn,
        Err(_) => {
            proof {
                assert(false);
            }
            0
        },
    }
}

// ---------------------------------------------------------------------------
// Names
// ---------------------------------------------------------------------------

/// The byte a name character becomes on the wire in a preset name: itself
/// when ASCII, `?` otherwise.
pub open spec fn name_byte(c: char) -> u8 {
    if (c as u32) < 128 {
        (c as u32) as u8
    } else {
        63u8
    }
}

/// The end of `b.take(end)` once trailing spaces are dropped.
pub open spec fn trailing_space_end(b: Seq<u8>, end: int) -> int
    decreases end,
{
    if end > 0 && end <= b.len() && b[end - 1] == 0x20 {
        trailing_space_end(b, end - 1)
    } else {
        end
    }
}

/// A name as preset-name bytes: each character through [`name_byte`],
/// trailing spaces dropped, then cut to `max_len` bytes.
pub open spec fn spec_ascii_trim_right(s: Seq<char>, max_len: int) -> Seq<u8> {
    let b = s.map_values(|c: char| name_byte(c));
    let e = trailing_space_end(b, b.len() as int);
    if e > max_len {
        b.take(max_len)
    } else {
        b.take(e)
    }
}

proof fn lemma_trailing_space_end_bounds(b: Seq<u8>, end: int)
    requires
        0 <= end <= b.len(),
    ensures
        0 <= trailing_space_end(b, end) <= end,
    decreases end,
{
    if end > 0 && b[end - 1] == 0x20 {
        lemma_trailing_space_end_bounds(b, end - 1);
    }
}

fn ascii_trim_right(s: &str, max_len: usize) -> (r: Vec<u8>)
    ensures
        r@ == spec_ascii_trim_right(s@, max_len as int),
{
    let chars = chars_of(s);
    let ghost b = s@.map_values(|c: char| name_byte(c));
    let mut bytes: Vec<u8> = Vec::new();
    let mut i: usize = 0;
    while i < chars.len()
        invariant
            i <= chars.len(),
            chars@ == s@,
            b == s@.map_values(|c: char| name_byte(c)),
            bytes@ == b.take(i as int),
        decreases chars.len() - i,
    {
        let c = chars[i];
        let v = c as u32;
        let byte: u8 = if v < 128 {
            v as u8
        } else {
            63
        };
        bytes.push(byte);
        proof {
            assert(b.take(i as int + 1) =~= b.take(i as int).push(byte));
        }
        i += 1;
    }
    assert(b.take(chars.len() as int) =~= b);
    let mut end = bytes.len();
    proof {
        lemma_trailing_space_end_bounds(b, b.len() as int);
    }
    while end > 0 && bytes[end - 1] == 0x20
        invariant
            end <= b.len(),
            bytes@ == b.take(end as int),
            trailing_space_end(b, end as int) == trailing_space_end(b, b.len() as int),
        decreases end,
    {
        bytes.pop();
        end -= 1;
        assert(bytes@ =~= b.take(end as int));
    }
    if bytes.len() > max_len {
        bytes.truncate(max_len);
        assert(bytes@ =~= b.take(max_len as int));
    }
    bytes
}

/// Unicode compatibility decomposition (NFKD) of a character sequence, as
/// computed by the `unicode-normalization` crate.
pub uninterp spec fn nfkd_chars(s: Seq<char>) -> Seq<char>;

/// Whether every character of `s` is 7-bit ASCII.
pub open spec fn is_ascii_text(s: Seq<char>) -> bool {
    forall|i: int| 0 <= i < s.len() ==> (#[trigger] s[i] as u32) < 128
}

/// NFKD-decomposes a string.
///
/// Trusted: calls `UnicodeNormalization::nfkd` of `unicode-normalization`
/// on the string and collects the characters it yields. The contract names
/// the result (`nfkd_chars` of the input characters), since the
/// decomposition tables are not restated here, and states the one fact the
/// crate's source gives plainly: 7-bit ASCII never decomposes (each ASCII
/// character is emitted as itself, with combining class 0, so nothing is
/// reordered), hence an all-ASCII string comes back unchanged.
#[verifier::external_body]
fn nfkd_string(s: &str) -> (r: String)
    ensures
        r@ == nfkd_chars(s@),
        is_ascii_text(s@) ==> r@ == s@,
{
    s.nfkd().collect::<String>()
}

/// Combining-mark ranges dropped after decomposition: U+0300..036F,
/// U+1AB0..1AFF, U+1DC0..1DFF, U+20D0..20FF and U+FE20..FE2F.
pub open spec fn spec_is_combining_mark(c: char) -> bool {
    let v = c as u32;
    (0x0300 <= v <= 0x036F) || (0x1AB0 <= v <= 0x1AFF) || (0x1DC0 <= v <= 0x1DFF) || (0x20D0 <= v
        <= 0x20FF) || (0xFE20 <= v <= 0xFE2F)
}

fn is_combining_mark(c: char) -> (r: bool)
    ensures
        r == spec_is_combining_mark(c),
{
    let v = c as u32;
    (0x0300 <= v && v <= 0x036F) || (0x1AB0 <= v && v <= 0x1AFF) || (0x1DC0 <= v && v <= 0x1DFF)
        || (0x20D0 <= v && v <= 0x20FF) || (0xFE20 <= v && v <= 0xFE2F)
}

/// The characters kept by folding: everything but combining marks.
pub open spec fn kept_by_fold() -> spec_fn(char) -> bool {
    |c: char| !spec_is_combining_mark(c)
}

/// The byte a kept character folds to: itself when ASCII, `?` otherwise.
pub open spec fn fold_byte(c: char) -> u8 {
    if (c as u32) < 128 {
        (c as u32) as u8
    } else {
        63u8
    }
}

/// Folding of already-decomposed text: combining marks dropped, then each
/// character through [`fold_byte`].
pub open spec fn spec_fold_decomposed(s: Seq<char>) -> Seq<u8> {
    s.filter(kept_by_fold()).map_values(|c: char| fold_byte(c))
}

/// The 7-bit ASCII bytes of a name: NFKD-decomposed, then folded.
pub open spec fn spec_ascii_fold(s: Seq<char>) -> Seq<u8> {
    spec_fold_decomposed(nfkd_chars(s))
}

/// Folds NFKD-decomposed text to 7-bit ASCII: combining marks are dropped,
/// ASCII characters kept, anything else becomes `?`.
pub fn fold_decomposed(decomposed: &str) -> (r: Vec<u8>)
    ensures
        r@ == spec_fold_decomposed(decomposed@),
{
    let chars = chars_of(decomposed);
    let ghost s = decomposed@;
    let mut out: Vec<u8> = Vec::new();
    let mut i: usize = 0;
    while i < chars.len()
        invariant
            i <= chars.len(),
            chars@ == s,
            out@ == s.take(i as int).filter(kept_by_fold()).map_values(|c: char| fold_byte(c)),
        decreases chars.len() - i,
    {
        let c = chars[i];
        proof {
            reveal_with_fuel(Seq::filter, 1);
            assert(s.take(i as int + 1).drop_last() =~= s.take(i as int));
            assert(s.take(i as int + 1).last() == c);
        }
        if !is_combining_mark(c) {
            let v = c as u32;
            let byte: u8 = if v < 128 {
                v as u8
            } else {
                63
            };
            let masked = byte & 0x7F;
            assert(masked == byte) by (bit_vector)
                requires
                    masked == byte & 0x7F,
                    byte < 128,
            ;
            out.push(masked);
            proof {
                let f = s.take(i as int).filter(kept_by_fold());
                assert(s.take(i as int + 1).filter(kept_by_fold()) == f.push(c));
                assert(f.push(c).map_values(|c: char| fold_byte(c)) =~= f.map_values(
                    |c: char| fold_byte(c),
                ).push(fold_byte(c)));
            }
        } else {
            proof {
                assert(s.take(i as int + 1).filter(kept_by_fold()) == s.take(i as int).filter(
                    kept_by_fold(),
                ));
            }
        }
        i += 1;
    }
    assert(s.take(chars.len() as int) =~= s);
    out
}

/// NFKD-fold a string and produce a 7-bit ASCII byte sequence: decompose,
/// drop combining marks, keep ASCII characters; anything still non-ASCII
/// becomes `?`.
pub fn ascii_fold_bytes(s: &str) -> (r: Vec<u8>)
    ensures
        r@ == spec_ascii_fold(s@),
        is_ascii_text(s@) ==> r@ == s@.map_values(|c: char| fold_byte(c)),
{
    let decomposed = nfkd_string(s);
    proof {
        if is_ascii_text(s@) {
            lemma_ascii_all_kept(s@);
        }
    }
    fold_decomposed(decomposed.as_str())
}

/// ASCII text holds no combining mark, so folding keeps all of it.
proof fn lemma_ascii_all_kept(s: Seq<char>)
    requires
        is_ascii_text(s),
    ensures
        s.filter(kept_by_fold()) == s,
    decreases s.len(),
{
    reveal_with_fuel(Seq::filter, 1);
    if s.len() > 0 {
        let t = s.drop_last();
        assert forall|i: int| 0 <= i < t.len() implies (#[trigger] t[i] as u32) < 128 by {
            assert(t[i] == s[i]);
        }
        lemma_ascii_all_kept(t);
        assert((s.last() as u32) < 128);
        assert(kept_by_fold()(s.last()));
        assert(s.filter(kept_by_fold()) =~= t.filter(kept_by_fold()).push(s.last()));
        assert(t.push(s.last()) =~= s);
    } else {
        assert(s.filter(kept_by_fold()) =~= s);
    }
}

// ---------------------------------------------------------------------------
// Presets
// ---------------------------------------------------------------------------

/// The two connectors never used as the FROM side of a chain hop (Input
/// Ring, gn 1, and Output Tip, gn 2) are left out; the other 12 are listed
/// in the order the device expects unrouted segments.
pub const FIXED_FROMABLE_ORDER: [u8; 12] = [4, 9, 5, 10, 6, 11, 7, 12, 8, 13, 3, 0];

/// The chain of a Simple body (empty for an Advanced one).
pub open spec fn chain_of(p: Preset) -> Seq<SimpleHop> {
    match p.body {
        PresetBody::Simple { chain } => chain@,
        PresetBody::Advanced { .. } => Seq::empty(),
    }
}

/// The connections of an Advanced body (empty for a Simple one).
pub open spec fn connections_of(p: Preset) -> Seq<Connection> {
    match p.body {
        PresetBody::Advanced { connections } => connections@,
        PresetBody::Simple { .. } => Seq::empty(),
    }
}

/// Index of the last hop in `chain` that leaves the connector with
/// groupNumber `g`, or -1 when none does.
pub open spec fn last_hop_from(chain: Seq<SimpleHop>, g: u8) -> int
    decreases chain.len(),
{
    if chain.len() == 0 {
        -1
    } else if group_number(chain.last().from_connector) == g {
        chain.len() - 1
    } else {
        last_hop_from(chain.drop_last(), g)
    }
}

/// Connectors of the fixed order that no hop of `chain` leaves.
pub open spec fn is_unrouted(chain: Seq<SimpleHop>) -> spec_fn(u8) -> bool {
    |g: u8| last_hop_from(chain, g) < 0
}

/// The unrouted connectors of a chain, in the fixed order.
pub open spec fn unrouted_groups(chain: Seq<SimpleHop>) -> Seq<u8> {
    FIXED_FROMABLE_ORDER@.filter(is_unrouted(chain))
}

/// The segment `<gn> 7F` for a connector with no outgoing hop.
pub open spec fn unrouted_segment(g: u8) -> Seq<u8> {
    spec_segment(g, seq![g, UNROUTED])
}

/// The data `<from_gn> <to_gn> <bypass>` for a connector, taken from the last
/// hop of `chain` that leaves it.
pub open spec fn hop_data(chain: Seq<SimpleHop>, g: u8) -> Seq<u8> {
    let h = chain[last_hop_from(chain, g)];
    seq![
        g,
        group_number(h.to_connector),
        if h.bypass {
            1u8
        } else {
            0u8
        },
    ]
}

/// The segment carrying [`hop_data`] for a connector.
pub open spec fn hop_segment(chain: Seq<SimpleHop>, g: u8) -> Seq<u8> {
    spec_segment(g, hop_data(chain, g))
}

/// The routing segments of a Simple preset: unrouted connectors first in
/// the fixed order, then one segment per hop in chain order.
pub open spec fn simple_route_segments(chain: Seq<SimpleHop>) -> Seq<Seq<u8>> {
    unrouted_groups(chain).map_values(|g: u8| unrouted_segment(g)) + chain.map_values(
        |h: SimpleHop| hop_segment(chain, group_number(h.from_connector)),
    )
}

/// The two spillover segments (ids 16 and 17).
pub open spec fn spillover_segments(s: Spillover) -> Seq<Seq<u8>> {
    seq![
        spec_segment(segment_id::SPILLOVER_OUTPUT_TIP, seq![spec_spillover_write_byte(s.output_tip)]),
        spec_segment(segment_id::SPILLOVER_OUTPUT_RING, seq![spec_spillover_write_byte(s.output_ring)]),
    ]
}

/// The preset-name segment (id 32): at most 12 bytes.
pub open spec fn name_segment(name: Seq<char>) -> Seq<u8> {
    spec_segment(segment_id::PRESET_NAME, spec_ascii_trim_right(name, 12))
}

/// All segments of a Simple preset write.
pub open spec fn simple_segments(p: Preset) -> Seq<Seq<u8>> {
    simple_route_segments(chain_of(p)) + spillover_segments(p.spillover) + seq![
        spec_segment(segment_id::SIMPLE_FLAG_20, seq![0u8]),
        name_segment(p.name@),
    ]
}

/// The segment for one Advanced connection: id = target gn, data = source gn.
pub open spec fn connection_segment(c: Connection) -> Seq<u8> {
    spec_segment(group_number(c.to_connector), seq![group_number(c.from_connector)])
}

/// All segments of an Advanced preset write.
pub open spec fn advanced_segments(p: Preset) -> Seq<Seq<u8>> {
    connections_of(p).map_values(|c: Connection| connection_segment(c)) + spillover_segments(
        p.spillover,
    ) + seq![
        spec_segment(segment_id::ADV_FLAG_18, seq![0u8]),
        spec_segment(segment_id::ADV_FLAG_19, seq![0u8, 0u8, 0u8]),
        name_segment(p.name@),
    ]
}

/// The function bytes of a preset write: P1 = 6, P2 = the mode (0 Simple,
/// 2 Advanced), P3/P4 = preset number and bank, or the "save to current"
/// sentinel 127/0.
pub open spec fn write_header_bytes(p: Preset, p2: u8, save_to_current: bool) -> Seq<u8> {
    if save_to_current {
        seq![6u8, p2, 0x7Fu8, 0u8, 0u8, 0u8, 0u8, 0u8]
    } else {
        seq![6u8, p2, p.number & 0x7F, p.bank & 0x7F, 0u8, 0u8, 0u8, 0u8]
    }
}

/// The bytes of a Simple-mode preset write.
pub open spec fn spec_encode_simple(device: DeviceProfile, p: Preset, save_to_current: bool) -> Seq<
    u8,
> {
    spec_frame(spec_header(device, write_header_bytes(p, 0, save_to_current)) + simple_segments(
        p,
    ).flatten())
}

/// The bytes of an Advanced-mode preset write.
pub open spec fn spec_encode_advanced(device: DeviceProfile, p: Preset, save_to_current: bool) -> Seq<
    u8,
> {
    spec_frame(spec_header(device, write_header_bytes(p, 2, save_to_current)) + advanced_segments(
        p,
    ).flatten())
}

fn segment1(segment_id: u8, a: u8) -> (r: Vec<u8>)
    ensures
        r@ == spec_segment(segment_id, seq![a]),
{
    let d = [a];
    assert(d@ =~= seq![a]);
    encode_segment(segment_id, d.as_slice())
}

fn segment2(segment_id: u8, a: u8, b: u8) -> (r: Vec<u8>)
    ensures
        r@ == spec_segment(segment_id, seq![a, b]),
{
    let d = [a, b];
    assert(d@ =~= seq![a, b]);
    encode_segment(segment_id, d.as_slice())
}

fn segment3(segment_id: u8, a: u8, b: u8, c: u8) -> (r: Vec<u8>)
    ensures
        r@ == spec_segment(segment_id, seq![a, b, c]),
{
    let d = [a, b, c];
    assert(d@ =~= seq![a, b, c]);
    encode_segment(segment_id, d.as_slice())
}

fn push_segment(segments: &mut Vec<Vec<u8>>, seg: Vec<u8>)
    ensures
        segment_views(final(segments)@) == segment_views(old(segments)@).push(seg@),
{
    segments.push(seg);
    assert(segment_views(segments@) =~= segment_views(old(segments)@).push(seg@));
}

proof fn lemma_last_hop_from_bounds(chain: Seq<SimpleHop>, g: u8)
    ensures
        -1 <= last_hop_from(chain, g) < chain.len(),
        last_hop_from(chain, g) >= 0 ==> group_number(
            chain[last_hop_from(chain, g)].from_connector,
        ) == g,
    decreases chain.len(),
{
    if chain.len() > 0 {
        lemma_last_hop_from_bounds(chain.drop_last(), g);
    }
}

proof fn lemma_last_hop_from_covers(chain: Seq<SimpleHop>, k: int)
    requires
        0 <= k < chain.len(),
    ensures
        last_hop_from(chain, group_number(chain[k].from_connector)) >= k,
    decreases chain.len(),
{
    if k < chain.len() - 1 {
        lemma_last_hop_from_covers(chain.drop_last(), k);
    }
}

/// What `last_hop_from` picks: -1 when no hop leaves the connector,
/// otherwise the index of a hop leaving it after which no hop leaves it.
pub proof fn lemma_last_hop_from_spec(chain: Seq<SimpleHop>, g: u8)
    ensures
        -1 <= last_hop_from(chain, g) < chain.len(),
        last_hop_from(chain, g) >= 0 ==> group_number(
            chain[last_hop_from(chain, g)].from_connector,
        ) == g,
        forall|i: int|
            last_hop_from(chain, g) < i < chain.len() ==> group_number(
                (#[trigger] chain[i]).from_connector,
            ) != g,
    decreases chain.len(),
{
    if chain.len() > 0 {
        lemma_last_hop_from_spec(chain.drop_last(), g);
        if group_number(chain.last().from_connector) != g {
            assert forall|i: int| last_hop_from(chain, g) < i < chain.len() implies group_number(
                (#[trigger] chain[i]).from_connector,
            ) != g by {
                if i < chain.len() - 1 {
                    assert(chain.drop_last()[i] == chain[i]);
                }
            }
        }
    }
}

/// The index of the last hop of `chain` that leaves groupNumber `g`.
fn last_hop_index(chain: &[SimpleHop], g: u8) -> (r: Option<usize>)
    ensures
        last_hop_from(chain@, g) < 0 ==> r is None,
        last_hop_from(chain@, g) >= 0 ==> r == Some(last_hop_from(chain@, g) as usize),
{
    let mut i = chain.len();
    assert(chain@.take(i as int) =~= chain@);
    while i > 0
        invariant
            i <= chain@.len(),
            last_hop_from(chain@, g) == last_hop_from(chain@.take(i as int), g),
        decreases i,
    {
        let h = chain[i - 1];
        let from_gn = connector_gn(h.from_connector);
        proof {
            assert(chain@.take(i as int).last() == h);
            assert(chain@.take(i as int).drop_last() =~= chain@.take(i as int - 1));
        }
        if from_gn == g {
            return Some(i - 1);
        }
        i -= 1;
    }
    None
}

/// Common tail of both preset kinds: the two spillover segments.
fn push_spillover_segments(segments: &mut Vec<Vec<u8>>, spillover: Spillover)
    ensures
        segment_views(final(segments)@) == segment_views(old(segments)@) + spillover_segments(
            spillover,
        ),
{
    let tip = spillover_write_byte(spillover.output_tip);
    let ring = spillover_write_byte(spillover.output_ring);
    push_segment(segments, segment1(segment_id::SPILLOVER_OUTPUT_TIP, tip));
    push_segment(segments, segment1(segment_id::SPILLOVER_OUTPUT_RING, ring));
    assert(segment_views(segments@) =~= segment_views(old(segments)@) + spillover_segments(
        spillover,
    ));
}

fn write_slot(preset: &Preset, save_to_current: bool) -> (r: (u8, u8))
    ensures
        save_to_current ==> r == (0x7Fu8, 0u8),
        !save_to_current ==> r == (preset.number & 0x7F, preset.bank & 0x7F),
{
    if save_to_current {
        (0x7F, 0)
    } else {
        (preset.number & 0x7F, preset.bank & 0x7F)
    }
}

proof fn lemma_mask_idempotent(x: u8)
    ensures
        (x & 0x7F) & 0x7F == x & 0x7F,
        0x7Fu8 & 0x7F == 0x7Fu8,
        6u8 & 0x7F == 6u8,
        2u8 & 0x7F == 2u8,
        1u8 & 0x7F == 1u8,
        0u8 & 0x7F == 0u8,
{
    assert((x & 0x7F) & 0x7F == x & 0x7F) by (bit_vector);
    assert(0x7Fu8 & 0x7F == 0x7Fu8) by (bit_vector);
    assert(6u8 & 0x7F == 6u8) by (bit_vector);
    assert(2u8 & 0x7F == 2u8) by (bit_vector);
    assert(1u8 & 0x7F == 1u8) by (bit_vector);
    assert(0u8 & 0x7F == 0u8) by (bit_vector);
}

/// Frames `segments` after a header built from `device` and the function
/// bytes `p1`..`p8`.
fn frame_segments(
    device: DeviceProfile,
    p1: u8,
    p2: u8,
    p3: u8,
    p4: u8,
    p5: u8,
    p6: u8,
    p7: u8,
    p8: u8,
    segments: &Vec<Vec<u8>>,
) -> (r: Result<Vec<u8>, EncodeError>)
    ensures
        r matches Ok(v) && v@ == spec_frame(
            spec_header(device, seq![p1, p2, p3, p4, p5, p6, p7, p8]) + segment_views(
                segments@,
            ).flatten(),
        ),
{
    let header = build_header_with(device, p1, p2, p3, p4, p5, p6, p7, p8);
    let framed = frame_with(device, header.as_slice(), segments.as_slice());
    match framed {
        Ok(v) => Ok(v),
        Err(e) => {
            proof {
                assert(bytes_result_view(framed) == spec_frame_with(
                    device,
                    header@,
                    segment_views(segments@),
                ));
                assert(false);
            }
            Err(EncodeError::Sysex(e))
        },
    }
}

/// Build a Simple-mode preset write message.
///
/// Chain hops become 3-byte segments `<from_gn> <to_gn> <bypass>`;
/// connectors not appearing as the FROM side of any hop emit 2-byte
/// "unrouted" segments `<gn> 7F`, first, in a fixed order. For a connector
/// left by several hops, the last such hop wins. `save_to_current` uses the
/// editor's P3 = 127 sentinel ("save to the currently selected preset").
pub fn encode_simple_preset_with(device: DeviceProfile, preset: &Preset, save_to_current: bool) -> (r:
    Result<Vec<u8>, EncodeError>)
    ensures
        r matches Ok(v) && v@ == spec_encode_simple(device, *preset, save_to_current),
{
    let empty: Vec<SimpleHop> = Vec::new();
    let chain: &[SimpleHop] = match &preset.body {
        PresetBody::Simple { chain } => chain.as_slice(),
        PresetBody::Advanced { .. } => empty.as_slice(),
    };
    assert(chain@ == chain_of(*preset));
    let (p3, p4) = write_slot(preset, save_to_current);
    let mut segments: Vec<Vec<u8>> = Vec::new();
    let ghost c = chain@;
    // Unrouted connectors, in the fixed order.
    let mut k: usize = 0;
    while k < 12
        invariant
            k <= 12,
            c == chain@,
            segment_views(segments@) == FIXED_FROMABLE_ORDER@.take(k as int).filter(
                is_unrouted(c),
            ).map_values(|g: u8| unrouted_segment(g)),
        decreases 12 - k,
    {
        let g = FIXED_FROMABLE_ORDER[k];
        let ghost before = FIXED_FROMABLE_ORDER@.take(k as int).filter(is_unrouted(c));
        proof {
            reveal_with_fuel(Seq::filter, 1);
            assert(FIXED_FROMABLE_ORDER@.take(k as int + 1).drop_last() =~= FIXED_FROMABLE_ORDER@.take(
                k as int,
            ));
            assert(FIXED_FROMABLE_ORDER@.take(k as int + 1).last() == g);
        }
        match last_hop_index(chain, g) {
            None => {
                push_segment(&mut segments, segment2(g, g, UNROUTED));
                proof {
                    assert(FIXED_FROMABLE_ORDER@.take(k as int + 1).filter(is_unrouted(c))
                        == before.push(g));
                    assert(before.push(g).map_values(|g: u8| unrouted_segment(g)) =~= before.map_values(
                        |g: u8| unrouted_segment(g),
                    ).push(unrouted_segment(g)));
                }
            },
            Some(_) => {
                proof {
                    assert(FIXED_FROMABLE_ORDER@.take(k as int + 1).filter(is_unrouted(c))
                        == before);
                }
            },
        }
        k += 1;
    }
    assert(FIXED_FROMABLE_ORDER@.take(12) =~= FIXED_FROMABLE_ORDER@);
    let ghost unrouted_part = segment_views(segments@);
    // Routed connectors, in chain order.
    let mut j: usize = 0;
    while j < chain.len()
        invariant
            j <= chain@.len(),
            c == chain@,
            unrouted_part == unrouted_groups(c).map_values(|g: u8| unrouted_segment(g)),
            segment_views(segments@) == unrouted_part + c.take(j as int).map_values(
                |h: SimpleHop| hop_segment(c, group_number(h.from_connector)),
            ),
        decreases chain@.len() - j,
    {
        let hop = chain[j];
        let g = connector_gn(hop.from_connector);
        proof {
            lemma_last_hop_from_covers(c, j as int);
            lemma_last_hop_from_bounds(c, g);
        }
        let last = match last_hop_index(chain, g) {
            Some(idx) => idx,
            None => {
                proof {
                    assert(false);
                }
                j
            },
        };
        let h = chain[last];
        let to_gn = connector_gn(h.to_connector);
        let bypass: u8 = if h.bypass {
            1
        } else {
            0
        };
        push_segment(&mut segments, segment3(g, g, to_gn, bypass));
        proof {
            assert(c.take(j as int + 1) =~= c.take(j as int).push(hop));
            assert(c.take(j as int + 1).map_values(
                |h: SimpleHop| hop_segment(c, group_number(h.from_connector)),
            ) =~= c.take(j as int).map_values(
                |h: SimpleHop| hop_segment(c, group_number(h.from_connector)),
            ).push(hop_segment(c, g)));
            assert(seq![g, to_gn, bypass] == seq![
                g,
                group_number(h.to_connector),
                if h.bypass {
                    1u8
                } else {
                    0u8
                },
            ]);
        }
        j += 1;
    }
    assert(c.take(chain@.len() as int) =~= c);
    push_spillover_segments(&mut segments, preset.spillover);
    push_segment(&mut segments, segment1(segment_id::SIMPLE_FLAG_20, 0));
    let name_bytes = ascii_trim_right(preset.name.as_str(), 12);
    push_segment(&mut segments, encode_segment(segment_id::PRESET_NAME, name_bytes.as_slice()));
    proof {
        assert(segment_views(segments@) =~= simple_segments(*preset));
        lemma_mask_idempotent(preset.number);
        lemma_mask_idempotent(preset.bank);
    }
    let r = frame_segments(device, 6, 0, p3, p4, 0, 0, 0, 0, &segments);
    proof {
        assert(seq![6u8, 0u8, p3, p4, 0u8, 0u8, 0u8, 0u8] =~= write_header_bytes(
            *preset,
            0,
            save_to_current,
        ));
    }
    r
}

/// [`encode_simple_preset_with`] for the ML10X profile.
pub fn encode_simple_preset(preset: &Preset, save_to_current: bool) -> (r: Result<
    Vec<u8>,
    EncodeError,
>)
    ensures
        r matches Ok(v) && v@ == spec_encode_simple(spec_ml10x(), *preset, save_to_current),
{
    encode_simple_preset_with(ml10x(), preset, save_to_current)
}

/// Build an Advanced-mode preset write message (P2 = 2): per connection one
/// 1-byte segment with id = target gn and data = source gn, then the
/// spillover segments, the Advanced-only segments 18 and 19, and the name.
pub fn encode_advanced_preset_with(
    device: DeviceProfile,
    preset: &Preset,
    save_to_current: bool,
) -> (r: Result<Vec<u8>, EncodeError>)
    ensures
        r matches Ok(v) && v@ == spec_encode_advanced(device, *preset, save_to_current),
{
    let empty: Vec<Connection> = Vec::new();
    let connections: &[Connection] = match &preset.body {
        PresetBody::Advanced { connections } => connections.as_slice(),
        PresetBody::Simple { .. } => empty.as_slice(),
    };
    assert(connections@ == connections_of(*preset));
    let (p3, p4) = write_slot(preset, save_to_current);
    let mut segments: Vec<Vec<u8>> = Vec::new();
    let ghost cs = connections@;
    let mut j: usize = 0;
    while j < connections.len()
        invariant
            j <= connections@.len(),
            cs == connections@,
            segment_views(segments@) == cs.take(j as int).map_values(
                |c: Connection| connection_segment(c),
            ),
        decreases connections@.len() - j,
    {
        let conn = connections[j];
        let from_gn = connector_gn(conn.from_connector);
        let to_gn = connector_gn(conn.to_connector);
        push_segment(&mut segments, segment1(to_gn, from_gn));
        proof {
            assert(cs.take(j as int + 1) =~= cs.take(j as int).push(conn));
            assert(cs.take(j as int + 1).map_values(|c: Connection| connection_segment(c))
                =~= cs.take(j as int).map_values(|c: Connection| connection_segment(c)).push(
                connection_segment(conn),
            ));
        }
        j += 1;
    }
    assert(cs.take(connections@.len() as int) =~= cs);
    push_spillover_segments(&mut segments, preset.spillover);
    push_segment(&mut segments, segment1(segment_id::ADV_FLAG_18, 0));
    push_segment(&mut segments, segment3(segment_id::ADV_FLAG_19, 0, 0, 0));
    let name_bytes = ascii_trim_right(preset.name.as_str(), 12);
    push_segment(&mut segments, encode_segment(segment_id::PRESET_NAME, name_bytes.as_slice()));
    proof {
        assert(segment_views(segments@) =~= advanced_segments(*preset));
        lemma_mask_idempotent(preset.number);
        lemma_mask_idempotent(preset.bank);
    }
    let r = frame_segments(device, 6, 2, p3, p4, 0, 0, 0, 0, &segments);
    proof {
        assert(seq![6u8, 2u8, p3, p4, 0u8, 0u8, 0u8, 0u8] =~= write_header_bytes(
            *preset,
            2,
            save_to_current,
        ));
    }
    r
}

/// [`encode_advanced_preset_with`] for the ML10X profile.
pub fn encode_advanced_preset(preset: &Preset, save_to_current: bool) -> (r: Result<
    Vec<u8>,
    EncodeError,
>)
    ensures
        r matches Ok(v) && v@ == spec_encode_advanced(spec_ml10x(), *preset, save_to_current),
{
    encode_advanced_preset_with(ml10x(), preset, save_to_current)
}

/// The bytes [`encode_preset`] writes for a preset: Simple or Advanced
/// according to its body.
pub open spec fn spec_encode_preset(p: Preset, save_to_current: bool) -> Seq<u8> {
    match p.body {
        PresetBody::Simple { .. } => spec_encode_simple(spec_ml10x(), p, save_to_current),
        PresetBody::Advanced { .. } => spec_encode_advanced(spec_ml10x(), p, save_to_current),
    }
}

/// Dispatch to the right encoder based on `preset.body`.
pub fn encode_preset(preset: &Preset, save_to_current: bool) -> (r: Result<Vec<u8>, EncodeError>)
    ensures
        r matches Ok(v) && v@ == spec_encode_preset(*preset, save_to_current),
{
    match &preset.body {
        PresetBody::Simple { .. } => encode_simple_preset(preset, save_to_current),
        PresetBody::Advanced { .. } => encode_advanced_preset(preset, save_to_current),
    }
}

// ---------------------------------------------------------------------------
// Controller settings
// ---------------------------------------------------------------------------

/// One of the four names of a connector: 0 long name, 1 short name,
/// 2 input-side label, 3 output-side label.
pub open spec fn connector_field(c: Connector, field: int) -> Seq<char> {
    if field == 0 {
        c.name@
    } else if field == 1 {
        c.short_name@
    } else if field == 2 {
        c.input_name@
    } else {
        c.output_name@
    }
}

/// The 14 name segments of one name kind: ids `base + value`, data the
/// folded name.
pub open spec fn name_table_segments(c: Connectors, base: u8, field: int) -> Seq<Seq<u8>> {
    Seq::new(
        14,
        |i: int| spec_segment((base + i) as u8, spec_ascii_fold(connector_field(connector_at(c, i), field))),
    )
}

/// `w` when `b` holds, else 0.
pub open spec fn weight_if(b: bool, w: int) -> int {
    if b {
        w
    } else {
        0
    }
}

/// The include-in-trails bitmap: bit i set for the i-th loop in value order.
pub open spec fn trails_bits(t: IncludeInTrails) -> int {
    weight_if(t.a_tip, 1) + weight_if(t.a_ring, 2) + weight_if(t.b_tip, 4) + weight_if(t.b_ring, 8)
        + weight_if(t.c_tip, 16) + weight_if(t.c_ring, 32) + weight_if(t.d_tip, 64) + weight_if(
        t.d_ring,
        128,
    ) + weight_if(t.e_tip, 256) + weight_if(t.e_ring, 512)
}

/// A boolean as the device stores it: 127 for true, 0 for false.
pub open spec fn flag_byte(b: bool) -> u8 {
    if b {
        0x7F
    } else {
        0
    }
}

/// All segments of a controller-settings write, in the editor's order.
pub open spec fn controller_segments(c: Controller) -> Seq<Seq<u8>> {
    name_table_segments(c.connectors, 0, 0) + name_table_segments(
        c.connectors,
        segment_id::SHORT_NAMES_FIRST,
        1,
    ) + name_table_segments(c.connectors, segment_id::INPUT_LABEL_FIRST, 2) + name_table_segments(
        c.connectors,
        segment_id::OUTPUT_LABEL_FIRST,
        3,
    ) + seq![
        spec_segment(segment_id::MIDI_CHANNEL, seq![c.midi_channel & 0x7F]),
        spec_segment(
            segment_id::INCLUDE_IN_TRAILS,
            seq![(trails_bits(c.include_in_trails) % 128) as u8, (trails_bits(c.include_in_trails) / 128) as u8],
        ),
        spec_segment(segment_id::DEVICE_ID, seq![c.device_id & 0x7F]),
        spec_segment(segment_id::INPUT_SPLIT, seq![flag_byte(c.input_split)]),
        spec_segment(segment_id::LOOP_BYPASS_PERSIST, seq![flag_byte(c.loop_bypass_persistent)]),
    ]
}

/// The bytes of a controller-settings write.
pub open spec fn spec_encode_controller(device: DeviceProfile, c: Controller) -> Seq<u8> {
    spec_frame(spec_header(device, seq![6u8, 1u8, 0u8, 0u8, 0u8, 0u8, 0u8, 0u8]) + controller_segments(
        c,
    ).flatten())
}

/// The connector entry at value position `i`.
pub(crate) fn connector_ref(c: &Connectors, i: usize) -> (r: &Connector)
    requires
        i < 14,
    ensures
        *r == connector_at(*c, i as int),
{
    if i == 0 {
        &c.a_tip
    } else if i == 1 {
        &c.a_ring
    } else if i == 2 {
        &c.b_tip
    } else if i == 3 {
        &c.b_ring
    } else if i == 4 {
        &c.c_tip
    } else if i == 5 {
        &c.c_ring
    } else if i == 6 {
        &c.d_tip
    } else if i == 7 {
        &c.d_ring
    } else if i == 8 {
        &c.e_tip
    } else if i == 9 {
        &c.e_ring
    } else if i == 10 {
        &c.input_tip
    } else if i == 11 {
        &c.input_ring
    } else if i == 12 {
        &c.output_tip
    } else {
        &c.output_ring
    }
}

pub(crate) fn field_str(c: &Connector, field: usize) -> (r: &str)
    requires
        field < 4,
    ensures
        r@ == connector_field(*c, field as int),
{
    if field == 0 {
        c.name.as_str()
    } else if field == 1 {
        c.short_name.as_str()
    } else if field == 2 {
        c.input_name.as_str()
    } else {
        c.output_name.as_str()
    }
}

fn push_name_table(segments: &mut Vec<Vec<u8>>, c: &Connectors, base: u8, field: usize)
    requires
        base <= 80,
        field < 4,
    ensures
        segment_views(final(segments)@) == segment_views(old(segments)@) + name_table_segments(
            *c,
            base,
            field as int,
        ),
{
    let ghost start = segment_views(segments@);
    let mut i: usize = 0;
    while i < 14
        invariant
            i <= 14,
            base <= 80,
            field < 4,
            segment_views(segments@) == start + name_table_segments(*c, base, field as int).take(
                i as int,
            ),
        decreases 14 - i,
    {
        let conn = connector_ref(c, i);
        let folded = ascii_fold_bytes(field_str(conn, field));
        push_segment(segments, encode_segment(base + (i as u8), folded.as_slice()));
        proof {
            assert(name_table_segments(*c, base, field as int).take(i as int + 1) =~= name_table_segments(
                *c,
                base,
                field as int,
            ).take(i as int).push(name_table_segments(*c, base, field as int)[i as int]));
        }
        i += 1;
    }
    assert(name_table_segments(*c, base, field as int).take(14) =~= name_table_segments(
        *c,
        base,
        field as int,
    ));
}

fn bit_weight(flag: bool, w: u16) -> (r: u16)
    ensures
        r as int == weight_if(flag, w as int),
{
    if flag {
        w
    } else {
        0
    }
}

fn trails_bitmap(t: IncludeInTrails) -> (r: u16)
    ensures
        r as int == trails_bits(t),
        r < 1024,
{
    bit_weight(t.a_tip, 1) + bit_weight(t.a_ring, 2) + bit_weight(t.b_tip, 4) + bit_weight(
        t.b_ring,
        8,
    ) + bit_weight(t.c_tip, 16) + bit_weight(t.c_ring, 32) + bit_weight(t.d_tip, 64) + bit_weight(
        t.d_ring,
        128,
    ) + bit_weight(t.e_tip, 256) + bit_weight(t.e_ring, 512)
}

/// Build the message the editor sends when the user clicks Save in
/// Controller Settings: the four 14-entry name tables (ids 0.., 48..,
/// 64.., 80..), then MIDI channel, include-in-trails bitmap (high 7 bits,
/// low 7 bits), device id, input split and loop-bypass persistence.
pub fn encode_controller_with(device: DeviceProfile, controller: &Controller) -> (r: Result<
    Vec<u8>,
    EncodeError,
>)
    ensures
        r matches Ok(v) && v@ == spec_encode_controller(device, *controller),
{
    let mut segments: Vec<Vec<u8>> = Vec::new();
    push_name_table(&mut segments, &controller.connectors, 0, 0);
    push_name_table(&mut segments, &controller.connectors, segment_id::SHORT_NAMES_FIRST, 1);
    push_name_table(&mut segments, &controller.connectors, segment_id::INPUT_LABEL_FIRST, 2);
    push_name_table(&mut segments, &controller.connectors, segment_id::OUTPUT_LABEL_FIRST, 3);
    push_segment(
        &mut segments,
        segment1(segment_id::MIDI_CHANNEL, controller.midi_channel & 0x7F),
    );
    let bits = trails_bitmap(controller.include_in_trails);
    let hi = (bits / 128) as u8;
    let lo = (bits % 128) as u8;
    push_segment(&mut segments, segment2(segment_id::INCLUDE_IN_TRAILS, lo, hi));
    push_segment(
        &mut segments,
        segment1(segment_id::DEVICE_ID, controller.device_id & 0x7F),
    );
    let split: u8 = if controller.input_split {
        0x7F
    } else {
        0
    };
    push_segment(&mut segments, segment1(segment_id::INPUT_SPLIT, split));
    let persist: u8 = if controller.loop_bypass_persistent {
        0x7F
    } else {
        0
    };
    push_segment(&mut segments, segment1(segment_id::LOOP_BYPASS_PERSIST, persist));
    assert(segment_views(segments@) =~= controller_segments(*controller));
    let r = frame_segments(device, 6, 1, 0, 0, 0, 0, 0, 0, &segments);
    r
}

/// [`encode_controller_with`] for the ML10X profile.
pub fn encode_controller(controller: &Controller) -> (r: Result<Vec<u8>, EncodeError>)
    ensures
        r matches Ok(v) && v@ == spec_encode_controller(spec_ml10x(), *controller),
{
    encode_controller_with(ml10x(), controller)
}

// ---------------------------------------------------------------------------
// Navigation and requests
// ---------------------------------------------------------------------------

/// A segment-less message with function bytes `0, p2, arg, 0, ...`.
pub open spec fn spec_request(device: DeviceProfile, p2: u8, arg: u8) -> Seq<u8> {
    spec_frame(spec_header(device, seq![0u8, p2, arg & 0x7F, 0u8, 0u8, 0u8, 0u8, 0u8]))
}

fn request_with(device: DeviceProfile, p2: u8, arg: u8) -> (r: Result<Vec<u8>, EncodeError>)
    ensures
        r matches Ok(v) && v@ == spec_request(device, p2, arg),
{
    let segments: Vec<Vec<u8>> = Vec::new();
    let r = frame_segments(device, 0, p2, arg & 0x7F, 0, 0, 0, 0, 0, &segments);
    proof {
        assert(segment_views(segments@).flatten() =~= Seq::<u8>::empty());
        assert(spec_header(device, seq![0u8, p2, arg & 0x7F, 0u8, 0u8, 0u8, 0u8, 0u8]) + Seq::<
            u8,
        >::empty() =~= spec_header(device, seq![0u8, p2, arg & 0x7F, 0u8, 0u8, 0u8, 0u8, 0u8]));
    }
    r
}

/// The message the editor sends when the user clicks a bank button
/// (P2 = 22, P3 = bank). Selecting a bank resets the device's current
/// preset to preset 0 of that bank.
pub fn encode_select_bank_with(device: DeviceProfile, bank: u8) -> (r: Result<Vec<u8>, EncodeError>)
    ensures
        r matches Ok(v) && v@ == spec_request(device, 22, bank),
{
    request_with(device, 22, bank)
}

/// [`encode_select_bank_with`] for the ML10X profile.
pub fn encode_select_bank(bank: u8) -> (r: Result<Vec<u8>, EncodeError>)
    ensures
        r matches Ok(v) && v@ == spec_request(spec_ml10x(), 22, bank),
{
    encode_select_bank_with(ml10x(), bank)
}

/// The message the editor sends when the user clicks a preset button in
/// the current bank (P2 = 18, P3 = preset).
pub fn encode_select_preset_with(device: DeviceProfile, preset: u8) -> (r: Result<
    Vec<u8>,
    EncodeError,
>)
    ensures
        r matches Ok(v) && v@ == spec_request(device, 18, preset),
{
    request_with(device, 18, preset)
}

/// [`encode_select_preset_with`] for the ML10X profile.
pub fn encode_select_preset(preset: u8) -> (r: Result<Vec<u8>, EncodeError>)
    ensures
        r matches Ok(v) && v@ == spec_request(spec_ml10x(), 18, preset),
{
    encode_select_preset_with(ml10x(), preset)
}

/// Ask the device for the preset-names dump of one bank (P2 = 64).
pub fn encode_request_preset_names_with(device: DeviceProfile, bank: u8) -> (r: Result<
    Vec<u8>,
    EncodeError,
>)
    ensures
        r matches Ok(v) && v@ == spec_request(device, 64, bank),
{
    request_with(device, 64, bank)
}

/// [`encode_request_preset_names_with`] for the ML10X profile.
pub fn encode_request_preset_names(bank: u8) -> (r: Result<Vec<u8>, EncodeError>)
    ensures
        r matches Ok(v) && v@ == spec_request(spec_ml10x(), 64, bank),
{
    encode_request_preset_names_with(ml10x(), bank)
}

/// The two-message sequence that moves the device's current-preset pointer
/// to (bank, preset): bank first, preset second.
pub fn encode_navigate_to(bank: u8, preset: u8) -> (r: Result<(Vec<u8>, Vec<u8>), EncodeError>)
    ensures
        r matches Ok(pair) && pair.0@ == spec_request(spec_ml10x(), 22, bank) && pair.1@
            == spec_request(spec_ml10x(), 18, preset),
{
    let b = match encode_select_bank(bank) {
        Ok(v) => v,
        Err(e) => {
            return Err(e);
        },
    };
    let p = match encode_select_preset(preset) {
        Ok(v) => v,
        Err(e) => {
            return Err(e);
        },
    };
    Ok((b, p))
}

} // verus!
