//! Semantic validation of presets: the rules a JSON Schema cannot express,
//! derived from the ML10X manual and the official editor.
use vstd::prelude::*;

use crate::decode::hop_order::HopPair;
use crate::decode::{chain_pairs, connection_pairs};
use crate::device::lemma_connector_slugs_distinct;
use crate::presets::{
    connector_of_value, lemma_value_roundtrip, ConnectorSlug, Preset, PresetBody, SpilloverTarget,
};
use crate::text::push_char;

pub mod reach;

verus! {

#[derive(Copy, Clone, Debug, Eq, PartialEq, Structural)]
pub enum Severity {
    Error,
    Warning,
    Info,
}

impl Severity {
    pub open spec fn spec_as_str(self) -> Seq<char> {
        match self {
            Severity::Error => "error"@,
            Severity::Warning => "warning"@,
            Severity::Info => "info"@,
        }
    }

    /// The lowercase name of the severity.
    pub fn as_str(self) -> (r: &'static str)
        ensures
            r@ == self.spec_as_str(),
    {
        match self {
            Severity::Error => "error",
            Severity::Warning => "warning",
            Severity::Info => "info",
        }
    }
}

#[derive(Clone, Debug, PartialEq, Eq)]
pub struct Issue {
    pub severity: Severity,
    pub path: String,
    pub message: String,
}

/// An issue as plain values: (severity, path, message).
pub type IssueView = (Severity, Seq<char>, Seq<char>);

/// The view of an issue.
pub open spec fn issue_view(i: Issue) -> IssueView {
    (i.severity, i.path@, i.message@)
}

/// The views of a list of issues.
pub open spec fn issues_view(v: Seq<Issue>) -> Seq<IssueView> {
    v.map_values(|i: Issue| issue_view(i))
}

impl Issue {
    /// `[severity] path: message`.
    pub open spec fn spec_text(self) -> Seq<char> {
        seq!['['] + self.severity.spec_as_str() + "] "@ + self.path@ + ": "@ + self.message@
    }

    /// The issue as one line of text: `[severity] path: message`.
    pub fn to_text(&self) -> (r: String)
        ensures
            r@ == self.spec_text(),
    {
        let mut out = String::new();
        push_char(&mut out, '[');
        out.append(self.severity.as_str());
        out.append("] ");
        out.append(self.path.as_str());
        out.append(": ");
        out.append(self.message.as_str());
        out
    }
}

/// The outcome of validating a preset: blocking errors and advisory
/// warnings (an empty `errors` means the preset is safe to encode).
#[derive(Clone, Debug, PartialEq, Eq)]
pub struct ValidationReport {
    pub errors: Vec<Issue>,
    pub warnings: Vec<Issue>,
}

impl Default for ValidationReport {
    fn default() -> (r: Self)
        ensures
            r.errors@.len() == 0,
            r.warnings@.len() == 0,
    {
        ValidationReport { errors: Vec::new(), warnings: Vec::new() }
    }
}

/// Whether an issue blocks encoding.
pub open spec fn is_blocking() -> spec_fn(Issue) -> bool {
    |i: Issue| i.severity == Severity::Error
}

/// Whether an issue is advisory only.
pub open spec fn is_advisory() -> spec_fn(Issue) -> bool {
    |i: Issue| i.severity != Severity::Error
}

/// Sorts issues into a report: errors in one list, warnings and infos in
/// the other, each in their original order.
pub fn report_from_issues(issues: Vec<Issue>) -> (r: ValidationReport)
    ensures
        r.errors@ == issues@.filter(is_blocking()),
        r.warnings@ == issues@.filter(is_advisory()),
{
    let mut errors: Vec<Issue> = Vec::new();
    let mut warnings: Vec<Issue> = Vec::new();
    let ghost all = issues@;
    let n = issues.len();
    let mut k: usize = 0;
    while k < n
        invariant
            k <= n,
            n == all.len(),
            issues@ == all,
            errors@ == all.take(k as int).filter(is_blocking()),
            warnings@ == all.take(k as int).filter(is_advisory()),
        decreases n - k,
    {
        let issue = issue_copy(&issues[k]);
        proof {
            reveal_with_fuel(Seq::filter, 1);
            assert(all.take(k as int + 1).drop_last() =~= all.take(k as int));
        }
        if issue.severity == Severity::Error {
            errors.push(issue);
        } else {
            warnings.push(issue);
        }
        k += 1;
    }
    assert(all.take(n as int) =~= all);
    ValidationReport { errors, warnings }
}

fn issue_copy(i: &Issue) -> (r: Issue)
    ensures
        r == *i,
{
    Issue { severity: i.severity, path: i.path.clone(), message: i.message.clone() }
}

/// The issues that block encoding (severity Error), in order.
pub fn filter_blocking(issues: &[Issue]) -> (r: Vec<&Issue>)
    ensures
        r@.map_values(|i: &Issue| *i) == issues@.filter(is_blocking()),
{
    let mut out: Vec<&Issue> = Vec::new();
    let mut k: usize = 0;
    while k < issues.len()
        invariant
            k <= issues@.len(),
            out@.map_values(|i: &Issue| *i) == issues@.take(k as int).filter(is_blocking()),
        decreases issues@.len() - k,
    {
        let issue = &issues[k];
        proof {
            reveal_with_fuel(Seq::filter, 1);
            assert(issues@.take(k as int + 1).drop_last() =~= issues@.take(k as int));
        }
        if issue.severity == Severity::Error {
            let ghost before = out@;
            out.push(issue);
            proof {
                assert(out@.map_values(|i: &Issue| *i) =~= before.map_values(|i: &Issue| *i).push(
                    *issue,
                ));
            }
        }
        k += 1;
    }
    assert(issues@.take(issues@.len() as int) =~= issues@);
    out
}

// ---------------------------------------------------------------------------
// Text pieces
// ---------------------------------------------------------------------------

pub const DECIMAL_DIGITS: [char; 10] = ['0', '1', '2', '3', '4', '5', '6', '7', '8', '9'];

/// The decimal digits of `n`.
pub open spec fn decimal(n: nat) -> Seq<char>
    decreases n,
{
    if n < 10 {
        seq![DECIMAL_DIGITS@[n as int]]
    } else {
        decimal(n / 10).push(DECIMAL_DIGITS@[(n % 10) as int])
    }
}

pub(crate) fn push_decimal(out: &mut String, n: usize)
    ensures
        final(out)@ == old(out)@ + decimal(n as nat),
    decreases n,
{
    if n >= 10 {
        push_decimal(out, n / 10);
        push_char(out, DECIMAL_DIGITS[n % 10]);
        assert(final(out)@ =~= old(out)@ + decimal(n as nat)) by {
            assert(decimal(n as nat) == decimal((n / 10) as nat).push(DECIMAL_DIGITS@[(n % 10) as int]));
        }
    } else {
        push_char(out, DECIMAL_DIGITS[n]);
        assert(out@ =~= old(out)@ + decimal(n as nat));
    }
}

/// A slug in double quotes, as `{:?}` prints it.
pub open spec fn quoted(s: Seq<char>) -> Seq<char> {
    seq!['"'] + s + seq!['"']
}

fn push_quoted_slug(out: &mut String, c: ConnectorSlug)
    ensures
        final(out)@ == old(out)@ + quoted(c.spec_slug()),
{
    push_char(out, '"');
    out.append(c.slug());
    push_char(out, '"');
    assert(out@ =~= old(out)@ + quoted(c.spec_slug()));
}

// ---------------------------------------------------------------------------
// Document paths
// ---------------------------------------------------------------------------

/// `s` without its leading slashes.
pub open spec fn trim_leading_slashes(s: Seq<char>) -> Seq<char>
    decreases s.len(),
{
    if s.len() > 0 && s[0] == '/' {
        trim_leading_slashes(s.drop_first())
    } else {
        s
    }
}

/// The index of the first slash in `s`, or its length when there is none.
pub open spec fn first_slash(s: Seq<char>) -> int
    decreases s.len(),
{
    if s.len() == 0 {
        0
    } else if s[0] == '/' {
        0
    } else {
        1 + first_slash(s.drop_first())
    }
}

/// The parts of `s` between slashes (empty parts included).
pub open spec fn split_path(s: Seq<char>) -> Seq<Seq<char>>
    decreases s.len(),
{
    let i = first_slash(s);
    if i >= s.len() || i < 0 {
        seq![s]
    } else {
        proof {
            lemma_first_slash_bounds(s);
        }
        seq![s.take(i)] + split_path(s.skip(i + 1))
    }
}

/// `first_slash` is an index into `s` (or its length) and no slash comes
/// before it.
pub proof fn lemma_first_slash_bounds(s: Seq<char>)
    ensures
        0 <= first_slash(s) <= s.len(),
        first_slash(s) < s.len() ==> s[first_slash(s)] == '/',
        forall|j: int| 0 <= j < first_slash(s) ==> s[j] != '/',
    decreases s.len(),
{
    if s.len() > 0 && s[0] != '/' {
        lemma_first_slash_bounds(s.drop_first());
        assert forall|j: int| 0 <= j < first_slash(s) implies s[j] != '/' by {
            if j > 0 {
                assert(s[j] == s.drop_first()[j - 1]);
            }
        }
    }
}

/// Whether `c` is an ASCII digit.
pub open spec fn is_digit(c: char) -> bool {
    48 <= (c as u32) <= 57
}

/// Whether `d` is a non-empty run of ASCII digits.
pub open spec fn all_digits(d: Seq<char>) -> bool {
    d.len() > 0 && forall|i: int| 0 <= i < d.len() ==> #[trigger] is_digit(d[i])
}

/// The value of a run of ASCII digits.
pub open spec fn digits_value(d: Seq<char>) -> nat
    decreases d.len(),
{
    if d.len() == 0 {
        0
    } else {
        digits_value(d.drop_last()) * 10 + ((d.last() as u32) - 48) as nat
    }
}

/// The index a path part stands for, as `usize::from_str` reads it: an
/// optional `+` then digits, no larger than `usize::MAX`.
pub open spec fn parse_index(part: Seq<char>) -> Option<nat> {
    let d = if part.len() > 0 && part[0] == '+' {
        part.drop_first()
    } else {
        part
    };
    if all_digits(d) && digits_value(d) <= usize::MAX {
        Some(digits_value(d))
    } else {
        None
    }
}

/// Appends one path part: an index as `[n]`, a name after a dot.
pub open spec fn path_step(acc: Seq<char>, part: Seq<char>) -> Seq<char> {
    match parse_index(part) {
        Some(n) => acc + seq!['['] + decimal(n) + seq![']'],
        None => (if acc.len() > 0 {
            acc + seq!['.']
        } else {
            acc
        }) + part,
    }
}

/// The parts appended one by one to `acc`.
pub open spec fn render_parts(acc: Seq<char>, parts: Seq<Seq<char>>) -> Seq<char>
    decreases parts.len(),
{
    if parts.len() == 0 {
        acc
    } else {
        render_parts(path_step(acc, parts[0]), parts.drop_first())
    }
}

/// A JSON pointer as a readable path: `/preset/body/chain/0/from_connector`
/// reads `preset.body.chain[0].from_connector`; the root reads `(root)`.
pub open spec fn spec_format_path(s: Seq<char>) -> Seq<char> {
    if s.len() == 0 || s == seq!['/'] {
        "(root)"@
    } else {
        let r = render_parts(Seq::empty(), split_path(trim_leading_slashes(s)));
        if r.len() == 0 {
            "(root)"@
        } else {
            r
        }
    }
}

proof fn lemma_digits_value_prefix(d: Seq<char>, k: int)
    requires
        0 <= k <= d.len(),
    ensures
        digits_value(d.take(k)) <= digits_value(d),
    decreases d.len() - k,
{
    if k < d.len() {
        lemma_digits_value_prefix(d, k + 1);
        let t = d.take(k + 1);
        assert(t.drop_last() =~= d.take(k));
        assert(digits_value(t) == digits_value(d.take(k)) * 10 + ((t.last() as u32) - 48) as nat);
    } else {
        assert(d.take(k) =~= d);
    }
}

fn parse_part(part: &Vec<char>) -> (r: Option<usize>)
    ensures
        match parse_index(part@) {
            Some(n) => r == Some(n as usize),
            None => r is None,
        },
{
    let start: usize = if part.len() > 0 && part[0] == '+' {
        1
    } else {
        0
    };
    let ghost d = if part@.len() > 0 && part@[0] == '+' {
        part@.drop_first()
    } else {
        part@
    };
    assert(d =~= part@.skip(start as int));
    if start >= part.len() {
        return None;
    }
    let mut value: usize = 0;
    let mut i: usize = start;
    while i < part.len()
        invariant
            start <= i <= part@.len(),
            d == part@.skip(start as int),
            d == (if part@.len() > 0 && part@[0] == '+' {
                part@.drop_first()
            } else {
                part@
            }),
            value == digits_value(d.take(i - start)),
            forall|q: int| 0 <= q < i - start ==> #[trigger] is_digit(d[q]),
        decreases part@.len() - i,
    {
        let c = part[i];
        let code = c as u32;
        assert(d[i - start] == c);
        if code < 48 || code > 57 {
            assert(!is_digit(d[i - start]));
            assert(!all_digits(d));
            assert(parse_index(part@) is None);
            return None;
        }
        assert(is_digit(d[i - start]));
        proof {
            assert(d.take(i - start + 1).drop_last() =~= d.take(i - start));
            assert(d.take(i - start + 1).last() == c);
        }
        let digit = (code - 48) as usize;
        assert(digits_value(d.take(i - start + 1)) == value * 10 + digit);
        match value.checked_mul(10) {
            Some(v10) => match v10.checked_add(digit) {
                Some(v) => {
                    value = v;
                },
                None => {
                    proof {
                        lemma_digits_value_prefix(d, i - start + 1);
                        assert(digits_value(d) > usize::MAX);
                        assert(parse_index(part@) is None);
                    }
                    return None;
                },
            },
            None => {
                proof {
                    lemma_digits_value_prefix(d, i - start + 1);
                    assert(digits_value(d.take(i - start + 1)) >= digits_value(d.take(i - start)) * 10);
                    assert(digits_value(d) > usize::MAX);
                    assert(parse_index(part@) is None);
                }
                return None;
            },
        }
        i += 1;
    }
    assert(d.take(part@.len() - start) =~= d);
    Some(value)
}

/// The part of `s` starting at `pos`, and where it ends (the next slash,
/// or the end of `s`).
fn next_part(s: &Vec<char>, pos: usize) -> (r: (Vec<char>, usize))
    requires
        pos <= s@.len(),
    ensures
        r.1 == pos + first_slash(s@.skip(pos as int)),
        r.0@ == s@.skip(pos as int).take(first_slash(s@.skip(pos as int))),
{
    let ghost rest = s@.skip(pos as int);
    proof {
        lemma_first_slash_bounds(rest);
    }
    let mut end = pos;
    let mut part: Vec<char> = Vec::new();
    while end < s.len() && s[end] != '/'
        invariant
            pos <= end <= s@.len(),
            rest == s@.skip(pos as int),
            forall|j: int| pos <= j < end ==> s@[j] != '/',
            part@ == s@.subrange(pos as int, end as int),
        decreases s@.len() - end,
    {
        part.push(s[end]);
        assert(part@ =~= s@.subrange(pos as int, end as int + 1));
        end += 1;
    }
    assert(first_slash(rest) == end - pos) by {
        lemma_first_slash_bounds(rest);
        if first_slash(rest) < end - pos {
            assert(rest[first_slash(rest)] == s@[pos + first_slash(rest)]);
        }
        if first_slash(rest) > end - pos {
            assert(rest[end - pos] == s@[end as int]);
        }
    }
    assert(part@ =~= rest.take(end - pos));
    (part, end)
}

/// Appends one part to a rendered path (see [`path_step`]).
fn append_part(out: &mut String, part: &Vec<char>)
    ensures
        final(out)@ == path_step(old(out)@, part@),
{
    match parse_part(part) {
        Some(n) => {
            push_char(out, '[');
            push_decimal(out, n);
            push_char(out, ']');
            assert(out@ =~= path_step(old(out)@, part@));
        },
        None => {
            if !out.as_str().is_empty() {
                push_char(out, '.');
            }
            let ghost mid = out@;
            let mut q: usize = 0;
            while q < part.len()
                invariant
                    q <= part@.len(),
                    out@ == mid + part@.take(q as int),
                decreases part@.len() - q,
            {
                push_char(out, part[q]);
                assert(out@ =~= mid + part@.take(q as int + 1));
                q += 1;
            }
            assert(part@.take(part@.len() as int) =~= part@);
            assert(out@ =~= path_step(old(out)@, part@));
        },
    }
}

/// Render a JSON pointer such as `/preset/body/chain/0/from_connector` as
/// `preset.body.chain[0].from_connector`; the root renders as `(root)`.
pub fn format_path(pointer: &str) -> (r: String)
    ensures
        r@ == spec_format_path(pointer@),
{
    let s = crate::text::chars_of(pointer);
    if s.len() == 0 || (s.len() == 1 && s[0] == '/') {
        proof {
            if s@.len() == 1 {
                assert(s@ =~= seq!['/']);
            }
        }
        return String::from_str("(root)");
    }
    assert(s@ != seq!['/']);
    let mut pos: usize = 0;
    assert(s@.skip(0) =~= s@);
    while pos < s.len() && s[pos] == '/'
        invariant
            pos <= s@.len(),
            trim_leading_slashes(s@.skip(pos as int)) == trim_leading_slashes(s@),
        decreases s@.len() - pos,
    {
        assert(s@.skip(pos as int).drop_first() =~= s@.skip(pos as int + 1));
        pos += 1;
    }
    assert(trim_leading_slashes(s@.skip(pos as int)) == s@.skip(pos as int));
    let ghost total = render_parts(Seq::empty(), split_path(s@.skip(pos as int)));
    let mut out = String::new();
    // Walk the parts from the left; `pos` is where the next part starts.
    loop
        invariant_except_break
            pos <= s@.len(),
            render_parts(out@, split_path(s@.skip(pos as int))) == total,
        ensures
            out@ == total,
        decreases s@.len() - pos,
    {
        let ghost rest = s@.skip(pos as int);
        let ghost before = out@;
        let (part, end) = next_part(&s, pos);
        append_part(&mut out, &part);
        proof {
            lemma_first_slash_bounds(rest);
        }
        if end >= s.len() {
            proof {
                assert(split_path(rest) == seq![rest]);
                assert(rest =~= part@);
                assert(seq![rest].drop_first() =~= Seq::<Seq<char>>::empty());
                assert(render_parts(before, seq![rest]) == render_parts(
                    path_step(before, rest),
                    Seq::<Seq<char>>::empty(),
                ));
                assert(render_parts(path_step(before, rest), Seq::<Seq<char>>::empty())
                    == path_step(before, rest));
            }
            break;
        }
        proof {
            assert(split_path(rest) == seq![rest.take(end - pos)] + split_path(
                rest.skip(end - pos + 1),
            ));
            assert(rest.skip(end - pos + 1) =~= s@.skip(end as int + 1));
            assert((seq![rest.take(end - pos)] + split_path(rest.skip(end - pos + 1))).drop_first()
                =~= split_path(rest.skip(end - pos + 1)));
        }
        pos = end + 1;
    }
    if out.as_str().is_empty() {
        return String::from_str("(root)");
    }
    out
}

// ---------------------------------------------------------------------------
// Messages
// ---------------------------------------------------------------------------

pub open spec fn msg_output_source(f: ConnectorSlug) -> Seq<char> {
    quoted(f.spec_slug())
        + " is an output endpoint and cannot be a chain SOURCE. Signal flows TO outputs, never FROM them."@
}

pub open spec fn msg_input_destination(t: ConnectorSlug) -> Seq<char> {
    quoted(t.spec_slug())
        + " is an input endpoint and cannot be a chain DESTINATION. Signal flows FROM inputs, never TO them."@
}

pub open spec fn msg_self_loop(f: ConnectorSlug) -> Seq<char> {
    "hop loops back on itself ("@ + quoted(f.spec_slug()) + " -> "@ + quoted(f.spec_slug())
        + "); a connector can't be both source and destination of the same hop."@
}

pub open spec fn msg_duplicate(f: ConnectorSlug, t: ConnectorSlug) -> Seq<char> {
    "duplicate hop "@ + quoted(f.spec_slug()) + " -> "@ + quoted(t.spec_slug())
        + "; the second one has no effect."@
}

pub open spec fn msg_advanced_spillover() -> Seq<char> {
    "Advanced-mode presets do not persist spillover on this firmware. The device drops segments 16/17 on save; set to `nothing` or use Simple mode if you want trails across preset changes."@
}

pub open spec fn msg_no_path() -> Seq<char> {
    "no path from an input (input_tip / input_ring) reaches an output (output_tip / output_ring) \u{2014} no audio will flow."@
}

pub open spec fn msg_branch(c: ConnectorSlug, n: nat) -> Seq<char> {
    "Simple mode: "@ + quoted(c.spec_slug()) + " appears "@ + decimal(n)
        + " times as a `from_connector`, which would branch the signal. Switch to Advanced (`body.mode: advanced`) to allow branching."@
}

pub open spec fn msg_merge(c: ConnectorSlug, n: nat) -> Seq<char> {
    "Simple mode: "@ + quoted(c.spec_slug()) + " appears "@ + decimal(n)
        + " times as a `to_connector`, which would merge multiple signals. Switch to Advanced (`body.mode: advanced`) to allow merging."@
}

// ---------------------------------------------------------------------------
// The rules
// ---------------------------------------------------------------------------

/// The hops of a preset as (from, to) pairs.
pub open spec fn preset_hops(p: Preset) -> Seq<HopPair> {
    match p.body {
        PresetBody::Simple { chain } => chain_pairs(chain@),
        PresetBody::Advanced { connections } => connection_pairs(connections@),
    }
}

/// Where a preset's hop list lives in the document.
pub open spec fn hop_list_path(p: Preset) -> Seq<char> {
    match p.body {
        PresetBody::Simple { .. } => "preset.body.chain"@,
        PresetBody::Advanced { .. } => "preset.body.connections"@,
    }
}

/// The path of hop `i`: `<list>[i]`.
pub open spec fn hop_path(list: Seq<char>, i: nat) -> Seq<char> {
    list + seq!['['] + decimal(i) + seq![']']
}

/// The issues raised by hop `i`: an output as source, an input as
/// destination, a self-loop, a repeat of an earlier hop.
pub open spec fn hop_issues_at(list: Seq<char>, hops: Seq<HopPair>, i: int) -> Seq<IssueView> {
    let f = hops[i].0;
    let t = hops[i].1;
    let path = hop_path(list, i as nat);
    (if f.spec_is_output() {
        seq![(Severity::Error, path + ".from_connector"@, msg_output_source(f))]
    } else {
        Seq::empty()
    }) + (if t.spec_is_input() {
        seq![(Severity::Error, path + ".to_connector"@, msg_input_destination(t))]
    } else {
        Seq::empty()
    }) + (if f == t {
        seq![(Severity::Error, path, msg_self_loop(f))]
    } else {
        Seq::empty()
    }) + (if hops.take(i).contains(hops[i]) {
        seq![(Severity::Warning, path, msg_duplicate(f, t))]
    } else {
        Seq::empty()
    })
}

/// The issues raised by the first `k` hops, in order.
pub open spec fn hop_issues(list: Seq<char>, hops: Seq<HopPair>, k: int) -> Seq<IssueView>
    decreases k,
{
    if k <= 0 {
        Seq::empty()
    } else {
        hop_issues(list, hops, k - 1) + hop_issues_at(list, hops, k - 1)
    }
}

/// Advanced presets do not keep spillover: one warning per output whose
/// target is not Nothing.
pub open spec fn spillover_issues(p: Preset) -> Seq<IssueView> {
    if p.body is Advanced {
        (if p.spillover.output_tip != SpilloverTarget::Nothing {
            seq![(Severity::Warning, "preset.spillover.output_tip"@, msg_advanced_spillover())]
        } else {
            Seq::empty()
        }) + (if p.spillover.output_ring != SpilloverTarget::Nothing {
            seq![(Severity::Warning, "preset.spillover.output_ring"@, msg_advanced_spillover())]
        } else {
            Seq::empty()
        })
    } else {
        Seq::empty()
    }
}

/// The connectors (by value) reached from the inputs after one more
/// relaxation over the hops, considering hops `0..i` only.
pub open spec fn relax_upto(hops: Seq<HopPair>, prev: Seq<bool>, i: int) -> Seq<bool> {
    Seq::new(
        14,
        |v: int|
            prev[v] || exists|j: int|
                0 <= j < i && (#[trigger] hops[j]).1.spec_value() == v && prev[hops[j].0.spec_value() as int],
    )
}

/// The connectors (by value) reachable from Input Tip or Input Ring in at
/// most `k` hops.
pub open spec fn reach_rounds(hops: Seq<HopPair>, k: nat) -> Seq<bool>
    decreases k,
{
    if k == 0 {
        Seq::new(14, |v: int| v == 10 || v == 11)
    } else {
        relax_upto(hops, reach_rounds(hops, (k - 1) as nat), hops.len() as int)
    }
}

/// Whether some output is reachable from an input (14 rounds reach every
/// connector that is reachable at all, as there are 14 connectors; see
/// [`reach::lemma_reach_rounds_complete`]).
pub open spec fn output_reachable(hops: Seq<HopPair>) -> bool {
    reach_rounds(hops, 14)[12] || reach_rounds(hops, 14)[13]
}

/// A preset with hops but no input-to-output path gets a warning.
pub open spec fn path_issues(p: Preset) -> Seq<IssueView> {
    if preset_hops(p).len() > 0 && !output_reachable(preset_hops(p)) {
        seq![(Severity::Warning, hop_list_path(p), msg_no_path())]
    } else {
        Seq::empty()
    }
}

/// The connector values in alphabetical order of their slugs.
pub const SLUG_ORDER: [u8; 14] = [1, 0, 3, 2, 5, 4, 7, 6, 9, 8, 11, 10, 13, 12];

/// How many hops leave `c`.
pub open spec fn count_from(hops: Seq<HopPair>, c: ConnectorSlug) -> nat
    decreases hops.len(),
{
    if hops.len() == 0 {
        0
    } else {
        count_from(hops.drop_last(), c) + if hops.last().0 == c {
            1nat
        } else {
            0nat
        }
    }
}

/// How many hops lead to `c`.
pub open spec fn count_to(hops: Seq<HopPair>, c: ConnectorSlug) -> nat
    decreases hops.len(),
{
    if hops.len() == 0 {
        0
    } else {
        count_to(hops.drop_last(), c) + if hops.last().1 == c {
            1nat
        } else {
            0nat
        }
    }
}

/// Simple-mode branching errors for the first `k` connectors in slug order.
pub open spec fn branch_issues(hops: Seq<HopPair>, k: int) -> Seq<IssueView>
    decreases k,
{
    if k <= 0 {
        Seq::empty()
    } else {
        let c = connector_of_value(SLUG_ORDER@[k - 1] as int);
        branch_issues(hops, k - 1) + if count_from(hops, c) > 1 {
            seq![(Severity::Error, "preset.body.chain"@, msg_branch(c, count_from(hops, c)))]
        } else {
            Seq::empty()
        }
    }
}

/// Simple-mode merging errors for the first `k` connectors in slug order.
pub open spec fn merge_issues(hops: Seq<HopPair>, k: int) -> Seq<IssueView>
    decreases k,
{
    if k <= 0 {
        Seq::empty()
    } else {
        let c = connector_of_value(SLUG_ORDER@[k - 1] as int);
        merge_issues(hops, k - 1) + if count_to(hops, c) > 1 {
            seq![(Severity::Error, "preset.body.chain"@, msg_merge(c, count_to(hops, c)))]
        } else {
            Seq::empty()
        }
    }
}

/// Simple mode is linear: every connector left or entered by more than one
/// hop is an error.
pub open spec fn linearity_issues(p: Preset) -> Seq<IssueView> {
    if p.body is Simple {
        branch_issues(preset_hops(p), 14) + merge_issues(preset_hops(p), 14)
    } else {
        Seq::empty()
    }
}

/// All semantic issues of a preset, in the order they are reported.
pub open spec fn spec_semantic_issues(p: Preset) -> Seq<IssueView> {
    hop_issues(hop_list_path(p), preset_hops(p), preset_hops(p).len() as int) + spillover_issues(p)
        + path_issues(p) + linearity_issues(p)
}

fn push_issue(issues: &mut Vec<Issue>, severity: Severity, path: String, message: String)
    ensures
        issues_view(final(issues)@) == issues_view(old(issues)@).push((severity, path@, message@)),
{
    issues.push(Issue { severity, path, message });
    assert(issues_view(issues@) =~= issues_view(old(issues)@).push((severity, path@, message@)));
}

fn hop_pairs_of(p: &Preset) -> (r: Vec<HopPair>)
    ensures
        r@ == preset_hops(*p),
{
    let mut out: Vec<HopPair> = Vec::new();
    match &p.body {
        PresetBody::Simple { chain } => {
            let mut k: usize = 0;
            while k < chain.len()
                invariant
                    k <= chain@.len(),
                    out@ == chain_pairs(chain@).take(k as int),
                decreases chain@.len() - k,
            {
                out.push((chain[k].from_connector, chain[k].to_connector));
                assert(chain_pairs(chain@).take(k as int + 1) =~= out@);
                k += 1;
            }
            assert(chain_pairs(chain@).take(chain@.len() as int) =~= chain_pairs(chain@));
        },
        PresetBody::Advanced { connections } => {
            let mut k: usize = 0;
            while k < connections.len()
                invariant
                    k <= connections@.len(),
                    out@ == connection_pairs(connections@).take(k as int),
                decreases connections@.len() - k,
            {
                out.push((connections[k].from_connector, connections[k].to_connector));
                assert(connection_pairs(connections@).take(k as int + 1) =~= out@);
                k += 1;
            }
            assert(connection_pairs(connections@).take(connections@.len() as int)
                =~= connection_pairs(connections@));
        },
    }
    out
}

fn path_string(list: &str, i: usize) -> (r: String)
    ensures
        r@ == hop_path(list@, i as nat),
{
    let mut s = String::from_str(list);
    push_char(&mut s, '[');
    push_decimal(&mut s, i);
    push_char(&mut s, ']');
    assert(s@ =~= hop_path(list@, i as nat));
    s
}

fn contains_pair(hops: &Vec<HopPair>, end: usize, h: HopPair) -> (r: bool)
    requires
        end <= hops@.len(),
    ensures
        r == hops@.take(end as int).contains(h),
{
    let mut j: usize = 0;
    while j < end
        invariant
            j <= end <= hops@.len(),
            forall|q: int| 0 <= q < j ==> hops@[q] != h,
        decreases end - j,
    {
        if hops[j].0 == h.0 && hops[j].1 == h.1 {
            assert(hops@.take(end as int)[j as int] == h);
            return true;
        }
        j += 1;
    }
    assert forall|q: int| 0 <= q < end implies hops@.take(end as int)[q] != h by {}
    false
}

fn push_hop_issues(issues: &mut Vec<Issue>, list: &str, hops: &Vec<HopPair>, i: usize)
    requires
        i < hops@.len(),
    ensures
        issues_view(final(issues)@) == issues_view(old(issues)@) + hop_issues_at(
            list@,
            hops@,
            i as int,
        ),
{
    let ghost start = issues_view(issues@);
    let f = hops[i].0;
    let t = hops[i].1;
    let ghost path = hop_path(list@, i as nat);
    let ghost x1: Seq<IssueView> = if f.spec_is_output() {
        seq![(Severity::Error, path + ".from_connector"@, msg_output_source(f))]
    } else {
        Seq::empty()
    };
    let ghost x2: Seq<IssueView> = if t.spec_is_input() {
        seq![(Severity::Error, path + ".to_connector"@, msg_input_destination(t))]
    } else {
        Seq::empty()
    };
    let ghost x3: Seq<IssueView> = if f == t {
        seq![(Severity::Error, path, msg_self_loop(f))]
    } else {
        Seq::empty()
    };
    let ghost x4: Seq<IssueView> = if hops@.take(i as int).contains(hops@[i as int]) {
        seq![(Severity::Warning, path, msg_duplicate(f, t))]
    } else {
        Seq::empty()
    };
    if f.is_output() {
        let mut p = path_string(list, i);
        p.append(".from_connector");
        let mut m = String::new();
        push_quoted_slug(&mut m, f);
        m.append(
            " is an output endpoint and cannot be a chain SOURCE. Signal flows TO outputs, never FROM them.",
        );
        push_issue(issues, Severity::Error, p, m);
    }
    assert(issues_view(issues@) =~= start + x1);
    if t.is_input() {
        let mut p = path_string(list, i);
        p.append(".to_connector");
        let mut m = String::new();
        push_quoted_slug(&mut m, t);
        m.append(
            " is an input endpoint and cannot be a chain DESTINATION. Signal flows FROM inputs, never TO them.",
        );
        push_issue(issues, Severity::Error, p, m);
    }
    assert(issues_view(issues@) =~= start + x1 + x2);
    if f == t {
        let p = path_string(list, i);
        let mut m = String::from_str("hop loops back on itself (");
        push_quoted_slug(&mut m, f);
        m.append(" -> ");
        push_quoted_slug(&mut m, f);
        m.append("); a connector can't be both source and destination of the same hop.");
        push_issue(issues, Severity::Error, p, m);
    }
    assert(issues_view(issues@) =~= start + x1 + x2 + x3);
    if contains_pair(hops, i, (f, t)) {
        let p = path_string(list, i);
        let mut m = String::from_str("duplicate hop ");
        push_quoted_slug(&mut m, f);
        m.append(" -> ");
        push_quoted_slug(&mut m, t);
        m.append("; the second one has no effect.");
        push_issue(issues, Severity::Warning, p, m);
    }
    assert(issues_view(issues@) =~= start + x1 + x2 + x3 + x4);
    assert(hop_issues_at(list@, hops@, i as int) == x1 + x2 + x3 + x4);
}

fn relax(hops: &Vec<HopPair>, prev: &Vec<bool>) -> (r: Vec<bool>)
    requires
        prev@.len() == 14,
    ensures
        r@ == relax_upto(hops@, prev@, hops@.len() as int),
{
    let mut next: Vec<bool> = Vec::new();
    let mut v: usize = 0;
    while v < 14
        invariant
            v <= 14,
            prev@.len() == 14,
            next@ == prev@.take(v as int),
        decreases 14 - v,
    {
        next.push(prev[v]);
        assert(prev@.take(v as int + 1) =~= next@);
        v += 1;
    }
    assert(prev@.take(14) =~= prev@);
    assert(next@ =~= relax_upto(hops@, prev@, 0));
    let mut i: usize = 0;
    while i < hops.len()
        invariant
            i <= hops@.len(),
            prev@.len() == 14,
            next@ == relax_upto(hops@, prev@, i as int),
        decreases hops@.len() - i,
    {
        let f = hops[i].0.value() as usize;
        let t = hops[i].1.value() as usize;
        let ghost before = next@;
        if prev[f] {
            next.set(t, true);
        }
        assert forall|w: int| 0 <= w < 14 implies #[trigger] next@[w] == relax_upto(
            hops@,
            prev@,
            i as int + 1,
        )[w] by {
            if prev@[w] || exists|j: int|
                0 <= j < i as int + 1 && (#[trigger] hops@[j]).1.spec_value() == w
                    && prev@[hops@[j].0.spec_value() as int] {
                if !prev@[w] && !(exists|j: int|
                    0 <= j < i && (#[trigger] hops@[j]).1.spec_value() == w
                        && prev@[hops@[j].0.spec_value() as int]) {
                    let j = choose|j: int|
                        0 <= j < i as int + 1 && (#[trigger] hops@[j]).1.spec_value() == w
                            && prev@[hops@[j].0.spec_value() as int];
                    assert(j == i);
                }
            }
            if w == t && prev@[f as int] {
                assert(hops@[i as int].1.spec_value() == w);
            }
        }
        assert(next@ =~= relax_upto(hops@, prev@, i as int + 1));
        i += 1;
    }
    next
}

fn outputs_reachable(hops: &Vec<HopPair>) -> (r: bool)
    ensures
        r == output_reachable(hops@),
{
    let mut reached: Vec<bool> = Vec::new();
    let mut v: usize = 0;
    while v < 14
        invariant
            v <= 14,
            reached@ == Seq::new(v as nat, |w: int| w == 10 || w == 11),
        decreases 14 - v,
    {
        reached.push(v == 10 || v == 11);
        assert(reached@ =~= Seq::new(v as nat + 1, |w: int| w == 10 || w == 11));
        v += 1;
    }
    let mut k: usize = 0;
    while k < 14
        invariant
            k <= 14,
            reached@ == reach_rounds(hops@, k as nat),
            reached@.len() == 14,
        decreases 14 - k,
    {
        reached = relax(hops, &reached);
        k += 1;
    }
    reached[12] || reached[13]
}

fn count_hops(hops: &Vec<HopPair>, c: ConnectorSlug, from_side: bool) -> (r: usize)
    ensures
        from_side ==> r == count_from(hops@, c),
        !from_side ==> r == count_to(hops@, c),
        r <= hops@.len(),
{
    let mut n: usize = 0;
    let mut j: usize = 0;
    while j < hops.len()
        invariant
            j <= hops@.len(),
            n <= j,
            from_side ==> n == count_from(hops@.take(j as int), c),
            !from_side ==> n == count_to(hops@.take(j as int), c),
        decreases hops@.len() - j,
    {
        proof {
            assert(hops@.take(j as int + 1).drop_last() =~= hops@.take(j as int));
        }
        let end = if from_side {
            hops[j].0
        } else {
            hops[j].1
        };
        if end == c {
            n += 1;
        }
        j += 1;
    }
    assert(hops@.take(hops@.len() as int) =~= hops@);
    n
}

/// The linearity error, if any, for the connector at slug position `k`.
pub open spec fn linearity_step(hops: Seq<HopPair>, k: int, from_side: bool) -> Seq<IssueView> {
    let c = connector_of_value(SLUG_ORDER@[k] as int);
    if from_side {
        if count_from(hops, c) > 1 {
            seq![(Severity::Error, "preset.body.chain"@, msg_branch(c, count_from(hops, c)))]
        } else {
            Seq::empty()
        }
    } else {
        if count_to(hops, c) > 1 {
            seq![(Severity::Error, "preset.body.chain"@, msg_merge(c, count_to(hops, c)))]
        } else {
            Seq::empty()
        }
    }
}

fn linearity_message(c: ConnectorSlug, n: usize, from_side: bool) -> (r: String)
    ensures
        from_side ==> r@ == msg_branch(c, n as nat),
        !from_side ==> r@ == msg_merge(c, n as nat),
{
    let mut m = String::from_str("Simple mode: ");
    push_quoted_slug(&mut m, c);
    m.append(" appears ");
    push_decimal(&mut m, n);
    if from_side {
        m.append(
            " times as a `from_connector`, which would branch the signal. Switch to Advanced (`body.mode: advanced`) to allow branching.",
        );
    } else {
        m.append(
            " times as a `to_connector`, which would merge multiple signals. Switch to Advanced (`body.mode: advanced`) to allow merging.",
        );
    }
    proof {
        if from_side {
            assert(m@ =~= msg_branch(c, n as nat));
        } else {
            assert(m@ =~= msg_merge(c, n as nat));
        }
    }
    m
}

fn push_linearity_step(issues: &mut Vec<Issue>, hops: &Vec<HopPair>, k: usize, from_side: bool)
    requires
        k < 14,
    ensures
        issues_view(final(issues)@) == issues_view(old(issues)@) + linearity_step(
            hops@,
            k as int,
            from_side,
        ),
{
    let c = match ConnectorSlug::from_value(SLUG_ORDER[k]) {
        Some(c) => c,
        None => {
            proof {
                assert(false);
            }
            ConnectorSlug::ATip
        },
    };
    let n = count_hops(hops, c, from_side);
    if n > 1 {
        let m = linearity_message(c, n, from_side);
        push_issue(issues, Severity::Error, String::from_str("preset.body.chain"), m);
    }
    assert(issues_view(issues@) =~= issues_view(old(issues)@) + linearity_step(
        hops@,
        k as int,
        from_side,
    ));
}

fn push_linearity_issues(issues: &mut Vec<Issue>, hops: &Vec<HopPair>, from_side: bool)
    ensures
        from_side ==> issues_view(final(issues)@) == issues_view(old(issues)@) + branch_issues(
            hops@,
            14,
        ),
        !from_side ==> issues_view(final(issues)@) == issues_view(old(issues)@) + merge_issues(
            hops@,
            14,
        ),
{
    let ghost start = issues_view(issues@);
    let mut k: usize = 0;
    while k < 14
        invariant
            k <= 14,
            from_side ==> issues_view(issues@) == start + branch_issues(hops@, k as int),
            !from_side ==> issues_view(issues@) == start + merge_issues(hops@, k as int),
        decreases 14 - k,
    {
        let ghost before = issues_view(issues@);
        push_linearity_step(issues, hops, k, from_side);
        proof {
            if from_side {
                assert(branch_issues(hops@, k as int + 1) == branch_issues(hops@, k as int)
                    + linearity_step(hops@, k as int, true));
                assert(issues_view(issues@) =~= start + branch_issues(hops@, k as int + 1));
            } else {
                assert(merge_issues(hops@, k as int + 1) == merge_issues(hops@, k as int)
                    + linearity_step(hops@, k as int, false));
                assert(issues_view(issues@) =~= start + merge_issues(hops@, k as int + 1));
            }
        }
        k += 1;
    }
}

/// Check the rules JSON Schema cannot express and return the issues in
/// order: per hop (output as source, input as destination, self-loop,
/// duplicate), then spillover in Advanced mode, then the input-to-output
/// path, then Simple-mode branching and merging (connectors in slug order).
pub fn validate_preset_semantics(preset: &Preset) -> (r: Vec<Issue>)
    ensures
        issues_view(r@) == spec_semantic_issues(*preset),
{
    let mut issues: Vec<Issue> = Vec::new();
    let hops = hop_pairs_of(preset);
    let is_simple = match &preset.body {
        PresetBody::Simple { .. } => true,
        PresetBody::Advanced { .. } => false,
    };
    let list: &str = if is_simple {
        "preset.body.chain"
    } else {
        "preset.body.connections"
    };
    assert(list@ == hop_list_path(*preset));
    let mut i: usize = 0;
    while i < hops.len()
        invariant
            i <= hops@.len(),
            hops@ == preset_hops(*preset),
            list@ == hop_list_path(*preset),
            issues_view(issues@) == hop_issues(list@, hops@, i as int),
        decreases hops@.len() - i,
    {
        push_hop_issues(&mut issues, list, &hops, i);
        i += 1;
    }
    let ghost after_hops = issues_view(issues@);
    if !is_simple {
        if preset.spillover.output_tip != SpilloverTarget::Nothing {
            push_issue(
                &mut issues,
                Severity::Warning,
                String::from_str("preset.spillover.output_tip"),
                String::from_str(
                    "Advanced-mode presets do not persist spillover on this firmware. The device drops segments 16/17 on save; set to `nothing` or use Simple mode if you want trails across preset changes.",
                ),
            );
        }
        if preset.spillover.output_ring != SpilloverTarget::Nothing {
            push_issue(
                &mut issues,
                Severity::Warning,
                String::from_str("preset.spillover.output_ring"),
                String::from_str(
                    "Advanced-mode presets do not persist spillover on this firmware. The device drops segments 16/17 on save; set to `nothing` or use Simple mode if you want trails across preset changes.",
                ),
            );
        }
    }
    assert(issues_view(issues@) =~= after_hops + spillover_issues(*preset));
    let ghost after_spill = issues_view(issues@);
    if hops.len() > 0 && !outputs_reachable(&hops) {
        push_issue(
            &mut issues,
            Severity::Warning,
            String::from_str(list),
            String::from_str(
                "no path from an input (input_tip / input_ring) reaches an output (output_tip / output_ring) \u{2014} no audio will flow.",
            ),
        );
    }
    assert(issues_view(issues@) =~= after_spill + path_issues(*preset));
    let ghost after_path = issues_view(issues@);
    if is_simple {
        push_linearity_issues(&mut issues, &hops, true);
        push_linearity_issues(&mut issues, &hops, false);
    }
    assert(issues_view(issues@) =~= after_path + linearity_issues(*preset));
    issues
}

} // verus!
