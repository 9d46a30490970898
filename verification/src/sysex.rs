//! SysEx framing for the ML10X.
//!
//! A frame is:
//!
//! ```text
//! [F0]                              SysEx start
//! [00 21 24]                        Morningstar manufacturer ID
//! [model_byte]                      0x07 for ML10X
//! [0]                               version
//! [P1 P2 P3 P4 P5 P6 P7 P8]         8 function-code bytes
//! [0 0]                             two reserved bytes (always zero outbound)
//! [data segments ...]               each segment: 7F <id> <len> <bytes>
//! [checksum]                        XOR of bytes 0..N-3 masked to 7 bits
//! [F7]                              SysEx end
//! ```
use vstd::prelude::*;

use crate::device::{spec_ml10x, ml10x, DeviceProfile, HEADER_LENGTH, SEGMENT_LEAD_IN};
use crate::text::{byte_char, push_bytes_as_chars, push_char};

verus! {

pub const SOX: u8 = 0xF0;

pub const EOX: u8 = 0xF7;

#[derive(Debug, Clone, Copy, PartialEq, Eq)]
pub enum SysexError {
    /// Frame is too short to have a checksum.
    TooShortForChecksum,
    /// Message too short (its length in bytes).
    MessageTooShort(usize),
    /// Not a SysEx message (missing F0/F7 delimiters).
    MissingDelimiters,
    WrongManufacturer { expected: [u8; 3], actual: [u8; 3] },
    WrongModelByte { expected: u8, actual: u8 },
    BadChecksum { expected: u8, actual: u8 },
    BadHeaderLength { expected: usize, actual: usize },
    HeaderDeviceMismatch { header: u8, device: u8 },
    LengthFieldMismatch { declared: usize, actual: usize, msb: u8, lsb: u8 },
    SegmentTruncated { offset: usize, declared: usize, available: usize },
}

// ---------------------------------------------------------------------------
// Checksum
// ---------------------------------------------------------------------------

/// XOR of the first `n` bytes of `s` (0 for `n <= 0`).
pub open spec fn xor_prefix(s: Seq<u8>, n: int) -> u8
    decreases n,
{
    if n <= 0 {
        0
    } else {
        xor_prefix(s, n - 1) ^ s[n - 1]
    }
}

/// The checksum of a frame: XOR of every byte except the last two
/// (checksum slot and F7), masked to 7 bits.
pub open spec fn spec_checksum(frame: Seq<u8>) -> u8 {
    xor_prefix(frame, frame.len() - 2) & 0x7F
}

proof fn lemma_xor_zero(x: u8)
    ensures
        0u8 ^ x == x,
{
    assert(0u8 ^ x == x) by (bit_vector);
}

/// XOR of every byte except the checksum byte and the trailing F7, masked
/// to 7 bits. The first byte (F0) is included.
pub fn checksum(frame_bytes: &[u8]) -> (r: Result<u8, SysexError>)
    ensures
        frame_bytes@.len() < 3 ==> r == Err::<u8, SysexError>(SysexError::TooShortForChecksum),
        frame_bytes@.len() >= 3 ==> r == Ok::<u8, SysexError>(spec_checksum(frame_bytes@)),
{
    if frame_bytes.len() < 3 {
        return Err(SysexError::TooShortForChecksum);
    }
    let mut acc = frame_bytes[0];
    proof {
        lemma_xor_zero(frame_bytes@[0]);
        assert(xor_prefix(frame_bytes@, 1) == xor_prefix(frame_bytes@, 0) ^ frame_bytes@[0]);
    }
    let end = frame_bytes.len() - 2;
    let mut i: usize = 1;
    while i < end
        invariant
            1 <= i <= end,
            end == frame_bytes@.len() - 2,
            acc == xor_prefix(frame_bytes@, i as int),
        decreases end - i,
    {
        acc = acc ^ frame_bytes[i];
        i += 1;
    }
    Ok(acc & 0x7F)
}

// ---------------------------------------------------------------------------
// Header
// ---------------------------------------------------------------------------

/// The 16 header bytes for `device` with function bytes `p` (each masked to
/// 7 bits) and zero length bytes.
pub open spec fn spec_header(device: DeviceProfile, p: Seq<u8>) -> Seq<u8> {
    seq![
        SOX,
        device.manufacturer_id@[0],
        device.manufacturer_id@[1],
        device.manufacturer_id@[2],
        device.model_byte,
        0u8,
        p[0] & 0x7F,
        p[1] & 0x7F,
        p[2] & 0x7F,
        p[3] & 0x7F,
        p[4] & 0x7F,
        p[5] & 0x7F,
        p[6] & 0x7F,
        p[7] & 0x7F,
        0u8,
        0u8,
    ]
}

/// Construct the 16-byte SysEx header, masking each function byte to 7 bits.
pub fn build_header_with(
    device: DeviceProfile,
    p1: u8,
    p2: u8,
    p3: u8,
    p4: u8,
    p5: u8,
    p6: u8,
    p7: u8,
    p8: u8,
) -> (r: [u8; 16])
    ensures
        r@ == spec_header(device, seq![p1, p2, p3, p4, p5, p6, p7, p8]),
{
    let h: [u8; 16] = [
        SOX,
        device.manufacturer_id[0],
        device.manufacturer_id[1],
        device.manufacturer_id[2],
        device.model_byte,
        0,
        p1 & 0x7F,
        p2 & 0x7F,
        p3 & 0x7F,
        p4 & 0x7F,
        p5 & 0x7F,
        p6 & 0x7F,
        p7 & 0x7F,
        p8 & 0x7F,
        0,
        0,
    ];
    assert(h@ =~= spec_header(device, seq![p1, p2, p3, p4, p5, p6, p7, p8]));
    h
}

/// [`build_header_with`] for the ML10X profile.
pub fn build_header(p1: u8, p2: u8, p3: u8, p4: u8, p5: u8, p6: u8, p7: u8, p8: u8) -> (r: [u8;
    16])
    ensures
        r@ == spec_header(spec_ml10x(), seq![p1, p2, p3, p4, p5, p6, p7, p8]),
{
    build_header_with(ml10x(), p1, p2, p3, p4, p5, p6, p7, p8)
}

// ---------------------------------------------------------------------------
// Segments and frames
// ---------------------------------------------------------------------------

/// A byte masked to its low 7 bits.
pub open spec fn mask7(b: u8) -> u8 {
    b & 0x7F
}

/// The wire form of a data segment: `7F <id> <len> <data...>`, with the id,
/// the length and every payload byte masked to 7 bits.
pub open spec fn spec_segment(segment_id: u8, data: Seq<u8>) -> Seq<u8> {
    seq![SEGMENT_LEAD_IN, segment_id & 0x7F, (data.len() % 128) as u8] + data.map_values(
        |b: u8| mask7(b),
    )
}

/// A data segment is `7F <id> <len> <data...>` with all payload bytes
/// masked to 7 bits.
pub fn encode_segment(segment_id: u8, data: &[u8]) -> (r: Vec<u8>)
    ensures
        r@ == spec_segment(segment_id, data@),
{
    let mut out: Vec<u8> = Vec::new();
    out.push(SEGMENT_LEAD_IN);
    out.push(segment_id & 0x7F);
    let n = data.len();
    let len_byte = (n as u8) & 0x7F;
    assert(len_byte == (n % 128) as u8) by (bit_vector)
        requires
            len_byte == (n as u8) & 0x7F,
    ;
    out.push(len_byte);
    let mut i: usize = 0;
    while i < data.len()
        invariant
            i <= data.len(),
            out@ == seq![SEGMENT_LEAD_IN, segment_id & 0x7F, (data@.len() % 128) as u8]
                + data@.take(i as int).map_values(|b: u8| mask7(b)),
        decreases data.len() - i,
    {
        let b = data[i];
        out.push(b & 0x7F);
        proof {
            assert(data@.take(i as int + 1) =~= data@.take(i as int).push(b));
            assert(data@.take(i as int + 1).map_values(|b: u8| mask7(b)) =~= data@.take(
                i as int,
            ).map_values(|b: u8| mask7(b)).push(mask7(b)));
        }
        i += 1;
    }
    assert(data@.take(data.len() as int) =~= data@);
    out
}

/// The byte views of a list of segments.
pub open spec fn segment_views(segments: Seq<Vec<u8>>) -> Seq<Seq<u8>> {
    segments.map_values(|v: Vec<u8>| v@)
}

/// A complete frame around `content` (header and segments): the content,
/// its checksum, and F7.
pub open spec fn spec_frame(content: Seq<u8>) -> Seq<u8> {
    content + seq![xor_prefix(content, content.len() as int) & 0x7F, EOX]
}

/// What [`frame_with`] returns for `header` and `segments`.
pub open spec fn spec_frame_with(device: DeviceProfile, header: Seq<u8>, segments: Seq<Seq<u8>>) -> Result<
    Seq<u8>,
    SysexError,
> {
    if header.len() != HEADER_LENGTH {
        Err(SysexError::BadHeaderLength { expected: HEADER_LENGTH, actual: header.len() as usize })
    } else if header[4] != device.model_byte {
        Err(SysexError::HeaderDeviceMismatch { header: header[4], device: device.model_byte })
    } else {
        Ok(spec_frame(header + segments.flatten()))
    }
}

/// The view of a `Result` holding bytes.
pub open spec fn bytes_result_view(r: Result<Vec<u8>, SysexError>) -> Result<Seq<u8>, SysexError> {
    match r {
        Ok(v) => Ok(v@),
        Err(e) => Err(e),
    }
}

proof fn lemma_xor_prefix_extend(s: Seq<u8>, t: Seq<u8>, n: int)
    requires
        0 <= n <= s.len(),
        s.len() <= t.len(),
        forall|i: int| 0 <= i < s.len() ==> s[i] == t[i],
    ensures
        xor_prefix(s, n) == xor_prefix(t, n),
    decreases n,
{
    if n > 0 {
        lemma_xor_prefix_extend(s, t, n - 1);
    }
}

/// Wrap an already-built header and body segments into a complete SysEx
/// message including checksum and EOX.
pub fn frame_with(device: DeviceProfile, header: &[u8], segments: &[Vec<u8>]) -> (r: Result<
    Vec<u8>,
    SysexError,
>)
    ensures
        bytes_result_view(r) == spec_frame_with(device, header@, segment_views(segments@)),
{
    if header.len() != HEADER_LENGTH {
        return Err(SysexError::BadHeaderLength { expected: HEADER_LENGTH, actual: header.len() });
    }
    if header[4] != device.model_byte {
        return Err(SysexError::HeaderDeviceMismatch { header: header[4], device: device.model_byte });
    }
    let ghost segs = segment_views(segments@);
    let mut body: Vec<u8> = Vec::new();
    let mut k: usize = 0;
    while k < header.len()
        invariant
            k <= header.len(),
            body@ == header@.take(k as int),
        decreases header.len() - k,
    {
        body.push(header[k]);
        proof {
            assert(header@.take(k as int + 1) =~= header@.take(k as int).push(header@[k as int]));
        }
        k += 1;
    }
    assert(header@.take(header.len() as int) =~= header@);
    let mut j: usize = 0;
    while j < segments.len()
        invariant
            j <= segments.len(),
            segs == segment_views(segments@),
            body@ == header@ + segs.take(j as int).flatten(),
        decreases segments.len() - j,
    {
        let seg = &segments[j];
        let ghost before = body@;
        let mut m: usize = 0;
        while m < seg.len()
            invariant
                m <= seg.len(),
                body@ == before + seg@.take(m as int),
            decreases seg.len() - m,
        {
            body.push(seg[m]);
            proof {
                assert(seg@.take(m as int + 1) =~= seg@.take(m as int).push(seg@[m as int]));
            }
            m += 1;
        }
        proof {
            assert(seg@.take(seg.len() as int) =~= seg@);
            assert(segs.take(j as int + 1) =~= segs.take(j as int).push(segs[j as int]));
            segs.take(j as int).lemma_flatten_push(segs[j as int]);
        }
        j += 1;
    }
    assert(segs.take(segments.len() as int) =~= segs);
    let ghost content = body@;
    body.push(0);
    body.push(EOX);
    let sum = match checksum(body.as_slice()) {
        Ok(s) => s,
        Err(_) => {
            return Err(SysexError::TooShortForChecksum);
        },
    };
    proof {
        assert(body@.len() - 2 == content.len());
        lemma_xor_prefix_extend(content, body@, content.len() as int);
    }
    let n = body.len();
    body.set(n - 2, sum);
    assert(body@ =~= spec_frame(content));
    Ok(body)
}

/// [`frame_with`] for the ML10X profile.
pub fn frame(header: &[u8], segments: &[Vec<u8>]) -> (r: Result<Vec<u8>, SysexError>)
    ensures
        bytes_result_view(r) == spec_frame_with(spec_ml10x(), header@, segment_views(segments@)),
{
    frame_with(ml10x(), header, segments)
}

// ---------------------------------------------------------------------------
// Parsing
// ---------------------------------------------------------------------------

/// Parsed SysEx header fields.
#[derive(Copy, Clone, Debug, Eq, PartialEq, Structural)]
pub struct HeaderInfo {
    pub model_id: u8,
    pub version_id: u8,
    pub p1: u8,
    pub p2: u8,
    pub p3: u8,
    pub p4: u8,
    pub p5: u8,
    pub p6: u8,
    pub p7: u8,
    pub p8: u8,
    pub declared_length: usize,
    pub is_last_chunk: bool,
}

/// The length packed into header bytes 14 and 15:
/// `((msb & 0x3F) << 7) | (lsb & 0x7F)`.
pub open spec fn declared_length_of(msb: u8, lsb: u8) -> int {
    (msb & 0x3F) as int * 128 + (lsb & 0x7F) as int
}

/// The header fields of a message that passed the framing checks.
pub open spec fn header_info_of(m: Seq<u8>) -> HeaderInfo {
    HeaderInfo {
        model_id: m[4],
        version_id: m[5],
        p1: m[6],
        p2: m[7],
        p3: m[8],
        p4: m[9],
        p5: m[10],
        p6: m[11],
        p7: m[12],
        p8: m[13],
        declared_length: declared_length_of(m[14], m[15]) as usize,
        is_last_chunk: m[14] & 0x40 != 0,
    }
}

/// What [`parse_header_with`] returns: the checks in order (length,
/// delimiters, manufacturer, model, checksum, optionally the length field),
/// each with the error it raises.
pub open spec fn spec_parse_header(device: DeviceProfile, m: Seq<u8>, validate_length: bool) -> Result<
    HeaderInfo,
    SysexError,
> {
    if m.len() < HEADER_LENGTH + 2 {
        Err(SysexError::MessageTooShort(m.len() as usize))
    } else if m[0] != SOX || m.last() != EOX {
        Err(SysexError::MissingDelimiters)
    } else if m[1] != device.manufacturer_id@[0] || m[2] != device.manufacturer_id@[1] || m[3]
        != device.manufacturer_id@[2] {
        Err(
            SysexError::WrongManufacturer {
                expected: device.manufacturer_id,
                actual: [m[1], m[2], m[3]],
            },
        )
    } else if m[4] != device.model_byte {
        Err(SysexError::WrongModelByte { expected: device.model_byte, actual: m[4] })
    } else if m[m.len() - 2] != spec_checksum(m) {
        Err(SysexError::BadChecksum { expected: spec_checksum(m), actual: m[m.len() - 2] })
    } else if validate_length && declared_length_of(m[14], m[15]) != m.len() {
        Err(
            SysexError::LengthFieldMismatch {
                declared: declared_length_of(m[14], m[15]) as usize,
                actual: m.len() as usize,
                msb: m[14],
                lsb: m[15],
            },
        )
    } else {
        Ok(header_info_of(m))
    }
}

/// Validate a SysEx frame's framing and checksum and return its header fields.
pub fn parse_header_with(device: DeviceProfile, message: &[u8], validate_length: bool) -> (r:
    Result<HeaderInfo, SysexError>)
    ensures
        r == spec_parse_header(device, message@, validate_length),
{
    let n = message.len();
    if n < HEADER_LENGTH + 2 {
        return Err(SysexError::MessageTooShort(n));
    }
    if message[0] != SOX || message[n - 1] != EOX {
        return Err(SysexError::MissingDelimiters);
    }
    if message[1] != device.manufacturer_id[0] || message[2] != device.manufacturer_id[1]
        || message[3] != device.manufacturer_id[2] {
        let actual: [u8; 3] = [message[1], message[2], message[3]];
        return Err(SysexError::WrongManufacturer { expected: device.manufacturer_id, actual });
    }
    if message[4] != device.model_byte {
        return Err(SysexError::WrongModelByte { expected: device.model_byte, actual: message[4] });
    }
    let expected_sum = match checksum(message) {
        Ok(s) => s,
        Err(e) => {
            return Err(e);
        },
    };
    let actual_sum = message[n - 2];
    if actual_sum != expected_sum {
        return Err(SysexError::BadChecksum { expected: expected_sum, actual: actual_sum });
    }
    let msb = message[14];
    let lsb = message[15];
    let hi = msb & 0x3F;
    let lo = lsb & 0x7F;
    assert(hi <= 63 && lo <= 127) by (bit_vector)
        requires
            hi == msb & 0x3F,
            lo == lsb & 0x7F,
    ;
    let declared: usize = (hi as usize) * 128 + (lo as usize);
    let is_last_chunk = msb & 0x40 != 0;
    if validate_length && declared != n {
        return Err(SysexError::LengthFieldMismatch { declared, actual: n, msb, lsb });
    }
    Ok(
        HeaderInfo {
            model_id: message[4],
            version_id: message[5],
            p1: message[6],
            p2: message[7],
            p3: message[8],
            p4: message[9],
            p5: message[10],
            p6: message[11],
            p7: message[12],
            p8: message[13],
            declared_length: declared,
            is_last_chunk,
        },
    )
}

/// [`parse_header_with`] for the ML10X profile, without the length-field check.
pub fn parse_header(message: &[u8]) -> (r: Result<HeaderInfo, SysexError>)
    ensures
        r == spec_parse_header(spec_ml10x(), message@, false),
{
    parse_header_with(ml10x(), message, false)
}

/// The segments found in `m` from offset `i` up to `end` (where the
/// checksum begins): the walk stops at a byte that is not the `7F` lead-in
/// or when fewer than three bytes remain, and fails on a segment whose
/// declared length runs past `end`.
pub open spec fn segments_from(m: Seq<u8>, i: int, end: int) -> Result<
    Seq<(u8, Seq<u8>)>,
    SysexError,
>
    decreases end - i,
{
    if i < 0 || i >= end || end > m.len() {
        Ok(Seq::empty())
    } else if m[i] != SEGMENT_LEAD_IN || i + 2 >= end {
        Ok(Seq::empty())
    } else {
        let length = m[i + 2] as int;
        let data_start = i + 3;
        if data_start + length > end {
            Err(
                SysexError::SegmentTruncated {
                    offset: i as usize,
                    declared: length as usize,
                    available: (end - data_start) as usize,
                },
            )
        } else {
            match segments_from(m, data_start + length, end) {
                Ok(rest) => Ok(
                    seq![(m[i + 1], m.subrange(data_start, data_start + length))] + rest,
                ),
                Err(e) => Err(e),
            }
        }
    }
}

/// Where the segment area of a message ends: two bytes before its end
/// (saturating at 0).
pub open spec fn segments_end(m: Seq<u8>) -> int {
    if m.len() >= 2 {
        m.len() - 2
    } else {
        0
    }
}

/// The segments of a message, starting right after the 16-byte header.
pub open spec fn spec_segments(m: Seq<u8>) -> Result<Seq<(u8, Seq<u8>)>, SysexError> {
    segments_from(m, HEADER_LENGTH as int, segments_end(m))
}

/// The view of a list of segments.
pub open spec fn segment_list_view(v: Seq<(u8, Vec<u8>)>) -> Seq<(u8, Seq<u8>)> {
    v.map_values(|p: (u8, Vec<u8>)| (p.0, p.1@))
}

/// The view of a `Result` holding a list of segments.
pub open spec fn segments_result_view(r: Result<Vec<(u8, Vec<u8>)>, SysexError>) -> Result<
    Seq<(u8, Seq<u8>)>,
    SysexError,
> {
    match r {
        Ok(v) => Ok(segment_list_view(v@)),
        Err(e) => Err(e),
    }
}

spec fn prepend_segments(pre: Seq<(u8, Seq<u8>)>, r: Result<Seq<(u8, Seq<u8>)>, SysexError>) -> Result<
    Seq<(u8, Seq<u8>)>,
    SysexError,
> {
    match r {
        Ok(s) => Ok(pre + s),
        Err(e) => Err(e),
    }
}

fn copy_range(message: &[u8], from: usize, to: usize) -> (r: Vec<u8>)
    requires
        from <= to <= message@.len(),
    ensures
        r@ == message@.subrange(from as int, to as int),
{
    let mut out: Vec<u8> = Vec::new();
    let mut k = from;
    while k < to
        invariant
            from <= k <= to,
            to <= message@.len(),
            out@ == message@.subrange(from as int, k as int),
        decreases to - k,
    {
        out.push(message[k]);
        proof {
            assert(message@.subrange(from as int, k as int + 1) =~= message@.subrange(
                from as int,
                k as int,
            ).push(message@[k as int]));
        }
        k += 1;
    }
    out
}

proof fn lemma_prepend_step(
    pre: Seq<(u8, Seq<u8>)>,
    x: (u8, Seq<u8>),
    r: Result<Seq<(u8, Seq<u8>)>, SysexError>,
)
    ensures
        prepend_segments(
            pre,
            match r {
                Ok(rest) => Ok(seq![x] + rest),
                Err(e) => Err(e),
            },
        ) == prepend_segments(pre.push(x), r),
{
    match r {
        Ok(rest) => {
            assert(pre + (seq![x] + rest) =~= pre.push(x) + rest);
        },
        Err(e) => {},
    }
}

/// The (segment id, data) pairs of a SysEx message.
pub fn iter_segments(message: &[u8]) -> (r: Result<Vec<(u8, Vec<u8>)>, SysexError>)
    ensures
        segments_result_view(r) == spec_segments(message@),
{
    let mut out: Vec<(u8, Vec<u8>)> = Vec::new();
    let mut i: usize = HEADER_LENGTH;
    let end: usize = if message.len() >= 2 {
        message.len() - 2
    } else {
        0
    };
    let ghost m = message@;
    assert(segment_list_view(out@) =~= Seq::<(u8, Seq<u8>)>::empty());
    assert(Seq::<(u8, Seq<u8>)>::empty() + Seq::<(u8, Seq<u8>)>::empty() =~= Seq::<(u8, Seq<u8>)>::empty());
    while i < end
        invariant
            m == message@,
            end == segments_end(m),
            HEADER_LENGTH <= i,
            end <= m.len(),
            spec_segments(m) == prepend_segments(
                segment_list_view(out@),
                segments_from(m, i as int, end as int),
            ),
        decreases end - i,
    {
        if message[i] != SEGMENT_LEAD_IN || end - i <= 2 {
            assert(segment_list_view(out@) + Seq::<(u8, Seq<u8>)>::empty() =~= segment_list_view(out@));
            return Ok(out);
        }
        let seg_id = message[i + 1];
        let length = message[i + 2] as usize;
        let data_start = i + 3;
        if length > end - data_start {
            return Err(
                SysexError::SegmentTruncated {
                    offset: i,
                    declared: length,
                    available: end - data_start,
                },
            );
        }
        let data_end = data_start + length;
        let data = copy_range(message, data_start, data_end);
        let ghost before = segment_list_view(out@);
        let ghost x = (seg_id, m.subrange(data_start as int, data_end as int));
        out.push((seg_id, data));
        proof {
            assert(segment_list_view(out@) =~= before.push(x));
            lemma_prepend_step(before, x, segments_from(m, data_end as int, end as int));
        }
        i = data_end;
    }
    assert(segment_list_view(out@) + Seq::<(u8, Seq<u8>)>::empty() =~= segment_list_view(out@));
    Ok(out)
}

// ---------------------------------------------------------------------------
// Field decoders
// ---------------------------------------------------------------------------

/// The end of `s.take(end)` once trailing spaces and NULs are dropped.
pub open spec fn ascii_trim_end(s: Seq<u8>, end: int) -> int
    decreases end,
{
    if end > 0 && end <= s.len() && (s[end - 1] == 0x20 || s[end - 1] == 0) {
        ascii_trim_end(s, end - 1)
    } else {
        end
    }
}

/// A name field as text: trailing spaces and NULs removed, each remaining
/// byte decoded by [`byte_char`].
pub open spec fn spec_ascii_name(data: Seq<u8>) -> Seq<char> {
    data.take(ascii_trim_end(data, data.len() as int)).map_values(|b: u8| byte_char(b))
}

proof fn lemma_ascii_trim_end_bounds(s: Seq<u8>, end: int)
    requires
        0 <= end <= s.len(),
    ensures
        0 <= ascii_trim_end(s, end) <= end,
    decreases end,
{
    if end > 0 && (s[end - 1] == 0x20 || s[end - 1] == 0) {
        lemma_ascii_trim_end_bounds(s, end - 1);
    }
}

/// Connector and preset names are ASCII padded with spaces. Trailing spaces
/// (and NULs) are trimmed; a non-ASCII byte becomes U+FFFD.
pub fn decode_ascii_name(data: &[u8]) -> (r: String)
    ensures
        r@ == spec_ascii_name(data@),
{
    let mut end = data.len();
    while end > 0 && (data[end - 1] == 0x20 || data[end - 1] == 0)
        invariant
            end <= data@.len(),
            ascii_trim_end(data@, end as int) == ascii_trim_end(data@, data@.len() as int),
        decreases end,
    {
        end -= 1;
    }
    let mut out = String::new();
    let trimmed = slice_prefix(data, end);
    push_bytes_as_chars(&mut out, trimmed);
    assert(out@ =~= spec_ascii_name(data@));
    out
}

fn slice_prefix(data: &[u8], end: usize) -> (r: &[u8])
    requires
        end <= data@.len(),
    ensures
        r@ == data@.take(end as int),
{
    let r = data.split_at(end).0;
    r
}

/// The lowercase hex digits.
pub const HEX_DIGITS: [char; 16] = [
    '0',
    '1',
    '2',
    '3',
    '4',
    '5',
    '6',
    '7',
    '8',
    '9',
    'a',
    'b',
    'c',
    'd',
    'e',
    'f',
];

/// The hex digit of a byte's low nibble.
pub open spec fn nibble_char(b: u8) -> char {
    HEX_DIGITS@[(b & 0x0F) as int]
}

/// The hex digits of the low nibbles of `bytes`.
pub open spec fn nibble_text(bytes: Seq<u8>) -> Seq<char> {
    bytes.map_values(|b: u8| nibble_char(b))
}

/// The 8-4-4-4-12 UUID text of 32 nibble bytes.
pub open spec fn spec_uuid_text(data: Seq<u8>) -> Seq<char> {
    nibble_text(data.subrange(0, 8)) + seq!['-'] + nibble_text(data.subrange(8, 12)) + seq!['-']
        + nibble_text(data.subrange(12, 16)) + seq!['-'] + nibble_text(data.subrange(16, 20))
        + seq!['-'] + nibble_text(data.subrange(20, 32))
}

/// What [`decode_uuid_nibbles`] returns.
pub open spec fn spec_decode_uuid(data: Seq<u8>) -> Result<Seq<char>, SysexError> {
    if data.len() != 32 {
        Err(SysexError::MessageTooShort(data.len() as usize))
    } else {
        Ok(spec_uuid_text(data))
    }
}

/// The view of a `Result` holding a string.
pub open spec fn string_result_view(r: Result<String, SysexError>) -> Result<Seq<char>, SysexError> {
    match r {
        Ok(s) => Ok(s@),
        Err(e) => Err(e),
    }
}

fn push_nibbles(out: &mut String, data: &[u8], from: usize, to: usize)
    requires
        from <= to <= data@.len(),
    ensures
        final(out)@ == old(out)@ + nibble_text(data@.subrange(from as int, to as int)),
{
    let ghost start = out@;
    let mut k = from;
    while k < to
        invariant
            from <= k <= to,
            to <= data@.len(),
            out@ == start + nibble_text(data@.subrange(from as int, k as int)),
        decreases to - k,
    {
        let b = data[k];
        let d = b & 0x0F;
        assert(d < 16) by (bit_vector)
            requires
                d == b & 0x0F,
        ;
        push_char(out, HEX_DIGITS[d as usize]);
        proof {
            assert(data@.subrange(from as int, k as int + 1) =~= data@.subrange(
                from as int,
                k as int,
            ).push(b));
            assert(nibble_text(data@.subrange(from as int, k as int + 1)) =~= nibble_text(
                data@.subrange(from as int, k as int),
            ).push(nibble_char(b)));
        }
        k += 1;
    }
}

/// The controller UUID arrives as 32 bytes, each carrying one hex nibble in
/// its low 4 bits; it is formatted 8-4-4-4-12 with dashes.
pub fn decode_uuid_nibbles(data: &[u8]) -> (r: Result<String, SysexError>)
    ensures
        string_result_view(r) == spec_decode_uuid(data@),
{
    if data.len() != 32 {
        return Err(SysexError::MessageTooShort(data.len()));
    }
    let mut out = String::new();
    push_nibbles(&mut out, data, 0, 8);
    push_char(&mut out, '-');
    push_nibbles(&mut out, data, 8, 12);
    push_char(&mut out, '-');
    push_nibbles(&mut out, data, 12, 16);
    push_char(&mut out, '-');
    push_nibbles(&mut out, data, 16, 20);
    push_char(&mut out, '-');
    push_nibbles(&mut out, data, 20, 32);
    assert(out@ =~= spec_uuid_text(data@));
    Ok(out)
}

// ---------------------------------------------------------------------------
// Laws
// ---------------------------------------------------------------------------

/// The header fields that parsing gives back for a header built from
/// `device` and function bytes `p`.
pub open spec fn built_header_info(device: DeviceProfile, p: Seq<u8>) -> HeaderInfo {
    HeaderInfo {
        model_id: device.model_byte,
        version_id: 0,
        p1: p[0] & 0x7F,
        p2: p[1] & 0x7F,
        p3: p[2] & 0x7F,
        p4: p[3] & 0x7F,
        p5: p[4] & 0x7F,
        p6: p[5] & 0x7F,
        p7: p[6] & 0x7F,
        p8: p[7] & 0x7F,
        declared_length: 0,
        is_last_chunk: false,
    }
}

/// Parsing a frame built from a header of `device` with function bytes `p`
/// and any segments succeeds (delimiters, manufacturer, model and checksum
/// all check out) and gives back the device's model byte and the function
/// bytes masked to 7 bits.
pub proof fn lemma_parse_built_frame(device: DeviceProfile, p: Seq<u8>, segments: Seq<Seq<u8>>)
    requires
        p.len() == 8,
    ensures
        spec_parse_header(device, spec_frame(spec_header(device, p) + segments.flatten()), false)
            == Ok::<HeaderInfo, SysexError>(built_header_info(device, p)),
{
    let content = spec_header(device, p) + segments.flatten();
    let m = spec_frame(content);
    assert(m.len() == content.len() + 2);
    assert(content.len() >= 16);
    assert(m[0] == SOX);
    assert(m.last() == EOX);
    assert(m[m.len() - 2] == xor_prefix(content, content.len() as int) & 0x7F);
    lemma_xor_prefix_extend(content, m, content.len() as int);
    assert(spec_checksum(m) == m[m.len() - 2]);
    assert(0u8 & 0x3F == 0u8 && 0u8 & 0x7F == 0u8 && 0u8 & 0x40 == 0u8) by (bit_vector);
    assert(m[14] == 0u8 && m[15] == 0u8);
    assert(declared_length_of(m[14], m[15]) == 0);
    assert(header_info_of(m) == built_header_info(device, p));
}

/// The wire segments for a list of (id, data) pairs.
pub open spec fn encoded_segments(ds: Seq<(u8, Seq<u8>)>) -> Seq<Seq<u8>> {
    ds.map_values(|d: (u8, Seq<u8>)| spec_segment(d.0, d.1))
}

/// What a reader gets back for a list of (id, data) pairs: ids and data
/// bytes masked to 7 bits.
pub open spec fn masked_segments(ds: Seq<(u8, Seq<u8>)>) -> Seq<(u8, Seq<u8>)> {
    ds.map_values(|d: (u8, Seq<u8>)| (d.0 & 0x7F, d.1.map_values(|b: u8| mask7(b))))
}

proof fn lemma_walk_encoded(m: Seq<u8>, p: int, ds: Seq<(u8, Seq<u8>)>)
    requires
        0 <= p,
        forall|k: int| 0 <= k < ds.len() ==> (#[trigger] ds[k]).1.len() < 128,
        m.len() == p + encoded_segments(ds).flatten().len() + 2,
        m.subrange(p, p + encoded_segments(ds).flatten().len()) == encoded_segments(ds).flatten(),
    ensures
        segments_from(m, p, m.len() - 2) == Ok::<Seq<(u8, Seq<u8>)>, SysexError>(
            masked_segments(ds),
        ),
    decreases ds.len(),
{
    let end = m.len() - 2;
    let segs = encoded_segments(ds);
    if ds.len() == 0 {
        assert(segs =~= Seq::<Seq<u8>>::empty());
        assert(segs.flatten() =~= Seq::<u8>::empty());
        assert(masked_segments(ds) =~= Seq::<(u8, Seq<u8>)>::empty());
    } else {
        let d = ds[0];
        let rest = ds.drop_first();
        let seg = spec_segment(d.0, d.1);
        assert(segs[0] == seg);
        assert(segs.drop_first() =~= encoded_segments(rest));
        assert(segs.flatten() == seg + segs.drop_first().flatten());
        let flat_rest = encoded_segments(rest).flatten();
        let len = d.1.len();
        assert(len < 128);
        assert(len % 128 == len);
        assert(seg.len() == 3 + len);
        let q = p + 3 + len;
        let flat = segs.flatten();
        assert forall|j: int| 0 <= j < flat.len() implies m[p + j] == #[trigger] flat[j] by {
            assert(m.subrange(p, p + flat.len())[j] == m[p + j]);
        }
        assert(flat[0] == seg[0] && flat[1] == seg[1] && flat[2] == seg[2]);
        assert(m[p] == seg[0]);
        assert(m[p + 1] == seg[1]);
        assert(m[p + 2] == seg[2]);
        assert(m[p] == SEGMENT_LEAD_IN);
        assert(m[p + 2] as int == len);
        assert(m.subrange(p + 3, q) =~= d.1.map_values(|b: u8| mask7(b))) by {
            assert forall|j: int| 0 <= j < len implies #[trigger] m.subrange(p + 3, q)[j]
                == d.1.map_values(|b: u8| mask7(b))[j] by {
                assert(flat[3 + j] == seg[3 + j]);
                assert(m[p + 3 + j] == seg[3 + j]);
            }
        }
        assert(m.subrange(q, q + flat_rest.len()) =~= flat_rest) by {
            assert forall|j: int| 0 <= j < flat_rest.len() implies #[trigger] m.subrange(
                q,
                q + flat_rest.len(),
            )[j] == flat_rest[j] by {
                assert(flat[3 + len + j] == flat_rest[j]);
                assert(m[q + j] == flat[3 + len + j]);
            }
        }
        assert forall|k: int| 0 <= k < rest.len() implies (#[trigger] rest[k]).1.len() < 128 by {
            assert(rest[k] == ds[k + 1]);
        }
        lemma_walk_encoded(m, q, rest);
        assert(masked_segments(ds) =~= seq![(d.0 & 0x7F, d.1.map_values(|b: u8| mask7(b)))]
            + masked_segments(rest));
    }
}

/// Reading the segments of a frame gives back, in order, the (id, data)
/// pairs it was built from, ids and data masked to 7 bits, for any 16-byte
/// header and any segment payloads shorter than 128 bytes.
pub proof fn lemma_segments_of_built_frame(header: Seq<u8>, ds: Seq<(u8, Seq<u8>)>)
    requires
        header.len() == HEADER_LENGTH,
        forall|k: int| 0 <= k < ds.len() ==> (#[trigger] ds[k]).1.len() < 128,
    ensures
        spec_segments(spec_frame(header + encoded_segments(ds).flatten())) == Ok::<
            Seq<(u8, Seq<u8>)>,
            SysexError,
        >(masked_segments(ds)),
{
    let flat = encoded_segments(ds).flatten();
    let m = spec_frame(header + flat);
    assert(m.subrange(16, 16 + flat.len() as int) =~= flat);
    lemma_walk_encoded(m, 16, ds);
}

} // verus!
