//! MIDI port selection: resolving a user-given substring to exactly one
//! port, and the frame check done before sending. Opening ports and moving
//! bytes belong to the transport that owns them.
use vstd::prelude::*;

use crate::text::{chars_of, push_char};

verus! {

#[derive(Debug, Clone, PartialEq, Eq)]
pub enum MidiError {
    /// MIDI backend init failed.
    Init(String),
    /// No port of this direction has a name containing `needle`.
    NoPort { direction: &'static str, needle: String, available: String },
    /// More than one port of this direction has a name containing `needle`.
    AmbiguousPort { direction: &'static str, count: usize, needle: String, matches: String },
    /// The port could not be opened (the backend's message in `source`).
    Open { direction: &'static str, name: String, source: String },
    /// A message to send must be a complete SysEx (F0 ... F7).
    BadSysExFrame,
    /// Send failed.
    Send(String),
}

#[derive(Clone, Debug, Eq, PartialEq)]
pub struct PortInfo {
    pub name: String,
    /// "input" or "output".
    pub direction: &'static str,
}

/// `s` followed by spaces up to `width` characters.
pub open spec fn pad_right(s: Seq<char>, width: int) -> Seq<char> {
    if s.len() >= width {
        s
    } else {
        s + Seq::new((width - s.len()) as nat, |i: int| ' ')
    }
}

impl PortInfo {
    /// `direction` padded to 6 characters, a space, then the name.
    pub open spec fn spec_text(self) -> Seq<char> {
        pad_right(self.direction@, 6) + seq![' '] + self.name@
    }

    /// The port as one line: direction padded to 6 characters, then the name.
    pub fn to_text(&self) -> (r: String)
        ensures
            r@ == self.spec_text(),
    {
        let mut out = String::from_str(self.direction);
        let dir_len = chars_of(self.direction).len();
        let mut n = dir_len;
        while n < 6
            invariant
                dir_len == self.direction@.len(),
                dir_len <= n <= 6 || (n == dir_len && dir_len >= 6),
                out@ == self.direction@ + Seq::new((n - dir_len) as nat, |i: int| ' '),
            decreases 6 - n,
        {
            push_char(&mut out, ' ');
            n += 1;
            assert(out@ =~= self.direction@ + Seq::new((n - dir_len) as nat, |i: int| ' '));
        }
        if dir_len >= 6 {
            assert(out@ =~= self.direction@);
        }
        push_char(&mut out, ' ');
        out.append(self.name.as_str());
        assert(out@ =~= self.spec_text());
        out
    }
}

/// Lower-casing of text as `str::to_lowercase` does it.
pub uninterp spec fn lowercase(s: Seq<char>) -> Seq<char>;

/// Lower-cases a string.
///
/// Trusted: calls `str::to_lowercase`; the contract only names the result
/// (`lowercase` of the input characters), since the Unicode case tables are
/// not restated here.
#[verifier::external_body]
fn to_lower(s: &str) -> (r: String)
    ensures
        r@ == lowercase(s@),
{
    s.to_lowercase()
}

/// Whether `needle` occurs in `hay` as a contiguous run.
pub open spec fn contains_text(hay: Seq<char>, needle: Seq<char>) -> bool {
    exists|i: int|
        0 <= i && i + needle.len() <= hay.len() && #[trigger] hay.subrange(i, i + needle.len())
            == needle
}

fn matches_at(hay: &Vec<char>, needle: &Vec<char>, i: usize) -> (r: bool)
    requires
        i + needle@.len() <= hay@.len(),
    ensures
        r == (hay@.subrange(i as int, i + needle@.len()) == needle@),
{
    let hl = hay.len();
    let mut k: usize = 0;
    while k < needle.len()
        invariant
            hl == hay@.len(),
            k <= needle@.len(),
            i + needle@.len() <= hay@.len(),
            forall|q: int| 0 <= q < k ==> hay@[i + q] == needle@[q],
        decreases needle@.len() - k,
    {
        if hay[i + k] != needle[k] {
            assert(hay@.subrange(i as int, i + needle@.len())[k as int] != needle@[k as int]);
            return false;
        }
        k += 1;
    }
    assert(hay@.subrange(i as int, i + needle@.len()) =~= needle@);
    true
}

/// Whether `needle` occurs in `hay`.
fn text_contains(hay: &str, needle: &str) -> (r: bool)
    ensures
        r == contains_text(hay@, needle@),
{
    let h = chars_of(hay);
    let n = chars_of(needle);
    if n.len() > h.len() {
        return false;
    }
    let limit = h.len() - n.len();
    let mut i: usize = 0;
    loop
        invariant
            h@ == hay@,
            n@ == needle@,
            limit == h@.len() - n@.len(),
            i <= limit,
            forall|q: int| 0 <= q < i ==> #[trigger] h@.subrange(q, q + n@.len()) != n@,
        decreases limit - i,
    {
        if matches_at(&h, &n, i) {
            return true;
        }
        if i == limit {
            assert forall|q: int|
                0 <= q && q + needle@.len() <= hay@.len() implies #[trigger] hay@.subrange(
                q,
                q + needle@.len(),
            ) != needle@ by {
                assert(q <= i);
            }
            return false;
        }
        i += 1;
    }
}

/// The names of `names` separated by ", ".
pub open spec fn joined(names: Seq<Seq<char>>) -> Seq<char>
    decreases names.len(),
{
    if names.len() == 0 {
        Seq::empty()
    } else if names.len() == 1 {
        names[0]
    } else {
        joined(names.drop_last()) + ", "@ + names.last()
    }
}

/// The indices below `k` of the ports whose lower-cased name contains
/// `needle`.
pub open spec fn matching_ports(ports: Seq<PortInfo>, needle: Seq<char>, k: int) -> Seq<int>
    decreases k,
{
    if k <= 0 {
        Seq::empty()
    } else {
        matching_ports(ports, needle, k - 1) + if contains_text(
            lowercase(ports[k - 1].name@),
            needle,
        ) {
            seq![k - 1]
        } else {
            Seq::empty()
        }
    }
}

/// The direction word used in errors: that of the first port, or "MIDI".
pub open spec fn ports_direction(ports: Seq<PortInfo>) -> Seq<char> {
    if ports.len() > 0 {
        ports[0].direction@
    } else {
        "MIDI"@
    }
}

/// The list of port names shown when nothing matches.
pub open spec fn available_text(ports: Seq<PortInfo>) -> Seq<char> {
    if ports.len() == 0 {
        "(none enumerated)"@
    } else {
        joined(ports.map_values(|p: PortInfo| p.name@))
    }
}

fn join_names(ports: &[PortInfo], idx: &Vec<usize>) -> (r: String)
    requires
        forall|q: int| 0 <= q < idx@.len() ==> (#[trigger] idx@[q]) < ports@.len(),
    ensures
        r@ == joined(idx@.map_values(|i: usize| ports@[i as int].name@)),
{
    let ghost names = idx@.map_values(|i: usize| ports@[i as int].name@);
    let mut out = String::new();
    let mut k: usize = 0;
    while k < idx.len()
        invariant
            k <= idx@.len(),
            forall|q: int| 0 <= q < idx@.len() ==> (#[trigger] idx@[q]) < ports@.len(),
            names == idx@.map_values(|i: usize| ports@[i as int].name@),
            out@ == joined(names.take(k as int)),
        decreases idx@.len() - k,
    {
        proof {
            assert(names.take(k as int + 1).drop_last() =~= names.take(k as int));
        }
        if k > 0 {
            out.append(", ");
        }
        out.append(ports[idx[k]].name.as_str());
        proof {
            if k == 0 {
                assert(out@ =~= names.take(1)[0]);
            } else {
                assert(out@ =~= joined(names.take(k as int)) + ", "@ + names.take(k as int + 1).last());
            }
        }
        k += 1;
    }
    assert(names.take(idx@.len() as int) =~= names);
    out
}

/// The indices below `k` of the names that contain `needle`.
pub open spec fn matching_names(names: Seq<Seq<char>>, needle: Seq<char>, k: int) -> Seq<int>
    decreases k,
{
    if k <= 0 {
        Seq::empty()
    } else {
        matching_names(names, needle, k - 1) + if contains_text(names[k - 1], needle) {
            seq![k - 1]
        } else {
            Seq::empty()
        }
    }
}

/// The characters of each string.
pub open spec fn string_views(v: Seq<String>) -> Seq<Seq<char>> {
    v.map_values(|s: String| s@)
}

proof fn lemma_matching_lowered(ports: Seq<PortInfo>, lowered: Seq<Seq<char>>, needle: Seq<char>, k: int)
    requires
        0 <= k <= ports.len(),
        lowered.len() == ports.len(),
        forall|i: int| 0 <= i < ports.len() ==> #[trigger] lowered[i] == lowercase(ports[i].name@),
    ensures
        matching_names(lowered, needle, k) == matching_ports(ports, needle, k),
    decreases k,
{
    if k > 0 {
        lemma_matching_lowered(ports, lowered, needle, k - 1);
        assert(lowered[k - 1] == lowercase(ports[k - 1].name@));
    }
}

/// Resolve a substring to exactly one port, case-insensitively: the names
/// and the substring are lower-cased, then matched (see [`match_ports`]).
pub fn find_port<'a>(ports: &'a [PortInfo], substring: &str) -> (r: Result<&'a PortInfo, MidiError>)
    ensures
        ({
            let hits = matching_ports(ports@, lowercase(substring@), ports@.len() as int);
            &&& hits.len() == 1 ==> r == Ok::<&PortInfo, MidiError>(&ports@[hits[0]])
            &&& hits.len() == 0 ==> (r matches Err(MidiError::NoPort { direction, needle, available })
                && direction@ == ports_direction(ports@) && needle@ == substring@ && available@
                == available_text(ports@))
            &&& hits.len() > 1 ==> (r matches Err(
                MidiError::AmbiguousPort { direction, count, needle, matches },
            ) && direction@ == ports_direction(ports@) && count == hits.len() && needle@
                == substring@ && matches@ == joined(
                hits.map_values(|i: int| ports@[i].name@),
            ))
        }),
{
    let needle = to_lower(substring);
    let mut lowered: Vec<String> = Vec::new();
    let mut k: usize = 0;
    while k < ports.len()
        invariant
            k <= ports@.len(),
            lowered@.len() == k,
            forall|i: int| 0 <= i < k ==> #[trigger] lowered@[i]@ == lowercase(ports@[i].name@),
        decreases ports@.len() - k,
    {
        lowered.push(to_lower(ports[k].name.as_str()));
        k += 1;
    }
    proof {
        let lv = string_views(lowered@);
        assert forall|i: int| 0 <= i < ports@.len() implies #[trigger] lv[i] == lowercase(ports@[i].name@) by {
            assert(lv[i] == lowered@[i]@);
        }
        lemma_matching_lowered(ports@, lv, needle@, ports@.len() as int);
    }
    match_ports(ports, &lowered, needle.as_str(), substring)
}

/// Resolve a port from lower-cased names: `lowered_names[i]` stands for
/// the name of `ports[i]`, and the port whose lowered name contains
/// `lowered_needle` is the one, if it is the only one; `substring` is the
/// text as typed, for the errors.
pub fn match_ports<'a>(
    ports: &'a [PortInfo],
    lowered_names: &[String],
    lowered_needle: &str,
    substring: &str,
) -> (r: Result<&'a PortInfo, MidiError>)
    requires
        lowered_names@.len() == ports@.len(),
    ensures
        ({
            let hits = matching_names(string_views(lowered_names@), lowered_needle@, ports@.len() as int);
            &&& hits.len() == 1 ==> r == Ok::<&PortInfo, MidiError>(&ports@[hits[0]])
            &&& hits.len() == 0 ==> (r matches Err(MidiError::NoPort { direction, needle, available })
                && direction@ == ports_direction(ports@) && needle@ == substring@ && available@
                == available_text(ports@))
            &&& hits.len() > 1 ==> (r matches Err(
                MidiError::AmbiguousPort { direction, count, needle, matches },
            ) && direction@ == ports_direction(ports@) && count == hits.len() && needle@
                == substring@ && matches@ == joined(
                hits.map_values(|i: int| ports@[i].name@),
            ))
        }),
{
    let needle = lowered_needle;
    let ghost nl = lowered_needle@;
    let ghost lv = string_views(lowered_names@);
    let mut hits: Vec<usize> = Vec::new();
    let mut k: usize = 0;
    while k < ports.len()
        invariant
            k <= ports@.len(),
            needle@ == nl,
            lowered_names@.len() == ports@.len(),
            lv == string_views(lowered_names@),
            hits@.map_values(|i: usize| i as int) == matching_names(lv, nl, k as int),
            forall|q: int| 0 <= q < hits@.len() ==> (#[trigger] hits@[q]) < k,
        decreases ports@.len() - k,
    {
        let name = &lowered_names[k];
        assert(lv[k as int] == name@);
        if text_contains(name.as_str(), needle) {
            let ghost before = hits@;
            hits.push(k);
            assert(hits@.map_values(|i: usize| i as int) =~= before.map_values(|i: usize| i as int).push(
                k as int,
            ));
        }
        k += 1;
    }
    let ghost hv = matching_names(lv, nl, ports@.len() as int);
    assert(hits@.len() == hv.len());
    let direction: &'static str = if ports.len() > 0 {
        ports[0].direction
    } else {
        "MIDI"
    };
    if hits.len() == 0 {
        let available = if ports.len() == 0 {
            String::from_str("(none enumerated)")
        } else {
            let mut all: Vec<usize> = Vec::new();
            let mut j: usize = 0;
            while j < ports.len()
                invariant
                    j <= ports@.len(),
                    all@ == Seq::new(j as nat, |q: int| q as usize),
                decreases ports@.len() - j,
            {
                all.push(j);
                assert(all@ =~= Seq::new(j as nat + 1, |q: int| q as usize));
                j += 1;
            }
            let s = join_names(ports, &all);
            assert(all@.map_values(|i: usize| ports@[i as int].name@) =~= ports@.map_values(
                |p: PortInfo| p.name@,
            ));
            s
        };
        return Err(
            MidiError::NoPort { direction, needle: String::from_str(substring), available },
        );
    }
    if hits.len() == 1 {
        assert(hv[0] == hits@[0] as int);
        return Ok(&ports[hits[0]]);
    }
    let matches = join_names(ports, &hits);
    assert(hits@.map_values(|i: usize| ports@[i as int].name@) =~= hv.map_values(
        |i: int| ports@[i].name@,
    )) by {
        assert forall|q: int| 0 <= q < hits@.len() implies hits@[q] as int == hv[q] by {
            assert(hits@.map_values(|i: usize| i as int)[q] == hits@[q] as int);
        }
    }
    Err(
        MidiError::AmbiguousPort {
            direction,
            count: hits.len(),
            needle: String::from_str(substring),
            matches,
        },
    )
}

/// A message accepted for sending: non-empty, starting with F0 and ending
/// with F7.
pub open spec fn is_complete_sysex(m: Seq<u8>) -> bool {
    m.len() > 0 && m[0] == 0xF0 && m.last() == 0xF7
}

/// The check made before sending a message.
pub fn check_sysex_frame(message: &[u8]) -> (r: Result<(), MidiError>)
    ensures
        is_complete_sysex(message@) <==> r is Ok,
        r is Err ==> r == Err::<(), MidiError>(MidiError::BadSysExFrame),
{
    if message.len() == 0 || message[0] != 0xF0 || message[message.len() - 1] != 0xF7 {
        return Err(MidiError::BadSysExFrame);
    }
    Ok(())
}

/// Whether a port name looks like the ML10X: its lower-cased form
/// contains "ml10x" or "morningstar".
pub open spec fn spec_is_ml10x_port(name: Seq<char>) -> bool {
    contains_text(lowercase(name), "ml10x"@) || contains_text(lowercase(name), "morningstar"@)
}

/// Whether a port name looks like the ML10X (see [`spec_is_ml10x_port`]).
pub fn is_ml10x_port(name: &str) -> (r: bool)
    ensures
        r == spec_is_ml10x_port(name@),
{
    let n = to_lower(name);
    text_contains(n.as_str(), "ml10x") || text_contains(n.as_str(), "morningstar")
}

} // verus!
