//! Compare two presets field by field.
//!
//! An empty result means the two presets are field-identical. `bank` and
//! `number` are deliberately not compared: the caller picks which slot to
//! compare against. Hops are compared as multisets, so reordering a chain
//! is not a difference.
use vstd::prelude::*;

use crate::presets::{ConnectorSlug, Preset, PresetBody, PresetMode, SpilloverTarget};

verus! {

/// One rendered hop: from slug, to slug, and the bypass flag (present only
/// when the rendering is for a Simple chain).
#[derive(Clone, Debug, PartialEq, Eq)]
pub struct HopEntry {
    pub from: String,
    pub to: String,
    pub bypass: Option<bool>,
}

/// A side of a difference: a text value, or a list of hops.
#[derive(Clone, Debug, PartialEq, Eq)]
pub enum DiffValue {
    Text(String),
    Hops(Vec<HopEntry>),
}

/// One differing field, with its value on each side.
#[derive(Clone, Debug, PartialEq, Eq)]
pub struct Difference {
    pub field: String,
    pub local: DiffValue,
    pub device: DiffValue,
}

/// A hop as the comparison sees it: (from, to, bypass); Advanced
/// connections count as not bypassed.
pub type HopKey = (ConnectorSlug, ConnectorSlug, bool);

/// A side of a difference as plain values.
pub enum DiffSpecValue {
    Text(Seq<char>),
    Hops(Seq<(Seq<char>, Seq<char>, Option<bool>)>),
}

/// The view of a rendered hop.
pub open spec fn hop_entry_view(h: HopEntry) -> (Seq<char>, Seq<char>, Option<bool>) {
    (h.from@, h.to@, h.bypass)
}

/// The view of a side of a difference.
pub open spec fn diff_value_view(v: DiffValue) -> DiffSpecValue {
    match v {
        DiffValue::Text(s) => DiffSpecValue::Text(s@),
        DiffValue::Hops(hs) => DiffSpecValue::Hops(hs@.map_values(|h: HopEntry| hop_entry_view(h))),
    }
}

/// A difference as plain values: (field, local, device).
pub type DiffView = (Seq<char>, DiffSpecValue, DiffSpecValue);

/// The view of a list of differences.
pub open spec fn differences_view(v: Seq<Difference>) -> Seq<DiffView> {
    v.map_values(|d: Difference| (d.field@, diff_value_view(d.local), diff_value_view(d.device)))
}

/// The hops of a body as comparison keys.
pub open spec fn hop_keys(body: PresetBody) -> Seq<HopKey> {
    match body {
        PresetBody::Simple { chain } => chain@.map_values(
            |h: crate::presets::SimpleHop| (h.from_connector, h.to_connector, h.bypass),
        ),
        PresetBody::Advanced { connections } => connections@.map_values(
            |c: crate::presets::Connection| (c.from_connector, c.to_connector, false),
        ),
    }
}

/// How a hop is rendered: Simple renders (from, to, bypass), Advanced
/// renders (from, to).
pub open spec fn render_hop(k: HopKey, simple: bool) -> (Seq<char>, Seq<char>, Option<bool>) {
    (k.0.spec_slug(), k.1.spec_slug(), if simple {
        Some(k.2)
    } else {
        None
    })
}

/// The rendering of a list of hops.
pub open spec fn render_hops(ks: Seq<HopKey>, simple: bool) -> Seq<(Seq<char>, Seq<char>, Option<bool>)> {
    ks.map_values(|k: HopKey| render_hop(k, simple))
}

/// The label of a mode.
pub open spec fn mode_label(m: PresetMode) -> Seq<char> {
    match m {
        PresetMode::Simple => "simple"@,
        PresetMode::Advanced => "advanced"@,
    }
}

/// The slug of a spillover target.
pub open spec fn target_text(t: SpilloverTarget) -> Seq<char> {
    crate::presets::spillover_slug_text(t)
}

/// The difference in one text field when `differs`.
pub open spec fn text_difference(differs: bool, field: Seq<char>, local: Seq<char>, device: Seq<char>) -> Seq<
    DiffView,
> {
    if differs {
        seq![(field, DiffSpecValue::Text(local), DiffSpecValue::Text(device))]
    } else {
        Seq::empty()
    }
}

/// The difference in the hops, if they differ as multisets: named `chain`
/// or `connections` after the local preset's mode and rendered that way on
/// both sides.
pub open spec fn hops_difference(local: Preset, device: Preset) -> Seq<DiffView> {
    let simple = local.body is Simple;
    if hop_keys(local.body).to_multiset() != hop_keys(device.body).to_multiset() {
        seq![
            (
                if simple {
                    "chain"@
                } else {
                    "connections"@
                },
                DiffSpecValue::Hops(render_hops(hop_keys(local.body), simple)),
                DiffSpecValue::Hops(render_hops(hop_keys(device.body), simple)),
            ),
        ]
    } else {
        Seq::empty()
    }
}

/// The differences between two presets, in field order: name, mode, the
/// two spillover targets, then the hops (see [`hops_difference`]).
pub open spec fn spec_differences(local: Preset, device: Preset) -> Seq<DiffView> {
    text_difference(local.name@ != device.name@, "name"@, local.name@, device.name@)
        + text_difference(
        local.body.spec_mode() != device.body.spec_mode(),
        "mode"@,
        mode_label(local.body.spec_mode()),
        mode_label(device.body.spec_mode()),
    ) + text_difference(
        local.spillover.output_tip != device.spillover.output_tip,
        "spillover.output_tip"@,
        target_text(local.spillover.output_tip),
        target_text(device.spillover.output_tip),
    ) + text_difference(
        local.spillover.output_ring != device.spillover.output_ring,
        "spillover.output_ring"@,
        target_text(local.spillover.output_ring),
        target_text(device.spillover.output_ring),
    ) + hops_difference(local, device)
}

fn hop_keys_of(body: &PresetBody) -> (r: Vec<HopKey>)
    ensures
        r@ == hop_keys(*body),
{
    let mut out: Vec<HopKey> = Vec::new();
    match body {
        PresetBody::Simple { chain } => {
            let mut k: usize = 0;
            while k < chain.len()
                invariant
                    k <= chain@.len(),
                    out@ == hop_keys(*body).take(k as int),
                    *body == (PresetBody::Simple { chain: *chain }),
                decreases chain@.len() - k,
            {
                let h = chain[k];
                out.push((h.from_connector, h.to_connector, h.bypass));
                assert(hop_keys(*body).take(k as int + 1) =~= out@);
                k += 1;
            }
            assert(hop_keys(*body).take(chain@.len() as int) =~= hop_keys(*body));
        },
        PresetBody::Advanced { connections } => {
            let mut k: usize = 0;
            while k < connections.len()
                invariant
                    k <= connections@.len(),
                    out@ == hop_keys(*body).take(k as int),
                    *body == (PresetBody::Advanced { connections: *connections }),
                decreases connections@.len() - k,
            {
                let c = connections[k];
                out.push((c.from_connector, c.to_connector, false));
                assert(hop_keys(*body).take(k as int + 1) =~= out@);
                k += 1;
            }
            assert(hop_keys(*body).take(connections@.len() as int) =~= hop_keys(*body));
        },
    }
    out
}

fn key_eq(a: HopKey, b: HopKey) -> (r: bool)
    ensures
        r == (a == b),
{
    a.0 == b.0 && a.1 == b.1 && a.2 == b.2
}

fn count_key(s: &Vec<HopKey>, x: HopKey) -> (r: usize)
    ensures
        r == s@.to_multiset().count(x),
{
    broadcast use vstd::seq_lib::group_to_multiset_ensures;
    broadcast use vstd::multiset::group_multiset_axioms;

    let mut n: usize = 0;
    let mut j: usize = 0;
    while j < s.len()
        invariant
            j <= s@.len(),
            n <= j,
            n == s@.take(j as int).to_multiset().count(x),
        decreases s@.len() - j,
    {
        assert(s@.take(j as int + 1) =~= s@.take(j as int).push(s@[j as int]));
        proof {
            vstd::seq_lib::to_multiset_build(s@.take(j as int), s@[j as int]);
        }
        if key_eq(s[j], x) {
            n += 1;
        }
        j += 1;
    }
    assert(s@.take(s@.len() as int) =~= s@);
    n
}

/// Whether two lists hold the same hops equally often.
fn same_hops(a: &Vec<HopKey>, b: &Vec<HopKey>) -> (r: bool)
    ensures
        r == (a@.to_multiset() == b@.to_multiset()),
{
    broadcast use vstd::seq_lib::group_to_multiset_ensures;
    broadcast use vstd::multiset::group_multiset_axioms;

    let mut i: usize = 0;
    while i < a.len()
        invariant
            i <= a@.len(),
            forall|q: int|
                0 <= q < i ==> a@.to_multiset().count(#[trigger] a@[q]) == b@.to_multiset().count(
                    a@[q],
                ),
        decreases a@.len() - i,
    {
        if count_key(a, a[i]) != count_key(b, a[i]) {
            return false;
        }
        i += 1;
    }
    let mut j: usize = 0;
    while j < b.len()
        invariant
            j <= b@.len(),
            forall|q: int|
                0 <= q < a@.len() ==> a@.to_multiset().count(#[trigger] a@[q]) == b@.to_multiset().count(
                    a@[q],
                ),
            forall|q: int|
                0 <= q < j ==> a@.to_multiset().count(#[trigger] b@[q]) == b@.to_multiset().count(
                    b@[q],
                ),
        decreases b@.len() - j,
    {
        if count_key(a, b[j]) != count_key(b, b[j]) {
            return false;
        }
        j += 1;
    }
    assert forall|x: HopKey| a@.to_multiset().count(x) == b@.to_multiset().count(x) by {
        if a@.contains(x) {
            let q = choose|q: int| 0 <= q < a@.len() && a@[q] == x;
        } else if b@.contains(x) {
            let q = choose|q: int| 0 <= q < b@.len() && b@[q] == x;
        }
    }
    assert(a@.to_multiset() =~= b@.to_multiset());
    true
}

fn render(keys: &Vec<HopKey>, simple: bool) -> (r: Vec<HopEntry>)
    ensures
        r@.map_values(|h: HopEntry| hop_entry_view(h)) == render_hops(keys@, simple),
{
    let mut out: Vec<HopEntry> = Vec::new();
    let mut k: usize = 0;
    while k < keys.len()
        invariant
            k <= keys@.len(),
            out@.map_values(|h: HopEntry| hop_entry_view(h)) == render_hops(keys@, simple).take(
                k as int,
            ),
        decreases keys@.len() - k,
    {
        let key = keys[k];
        let entry = HopEntry {
            from: String::from_str(key.0.slug()),
            to: String::from_str(key.1.slug()),
            bypass: if simple {
                Some(key.2)
            } else {
                None
            },
        };
        let ghost before = out@;
        out.push(entry);
        assert(out@.map_values(|h: HopEntry| hop_entry_view(h)) =~= before.map_values(
            |h: HopEntry| hop_entry_view(h),
        ).push(hop_entry_view(entry)));
        assert(hop_entry_view(entry) == render_hop(key, simple));
        assert(render_hops(keys@, simple).take(k as int + 1) =~= render_hops(keys@, simple).take(
            k as int,
        ).push(render_hop(key, simple)));
        k += 1;
    }
    assert(render_hops(keys@, simple).take(keys@.len() as int) =~= render_hops(keys@, simple));
    out
}

fn push_difference(diffs: &mut Vec<Difference>, field: &str, local: DiffValue, device: DiffValue)
    ensures
        differences_view(final(diffs)@) == differences_view(old(diffs)@).push(
            (field@, diff_value_view(local), diff_value_view(device)),
        ),
{
    let d = Difference { field: String::from_str(field), local, device };
    diffs.push(d);
    assert(differences_view(diffs@) =~= differences_view(old(diffs)@).push(
        (field@, diff_value_view(local), diff_value_view(device)),
    ));
}

fn mode_text(m: PresetMode) -> (r: &'static str)
    ensures
        r@ == mode_label(m),
{
    match m {
        PresetMode::Simple => "simple",
        PresetMode::Advanced => "advanced",
    }
}

/// Appends the difference in one text field when `differs`.
fn push_text_difference(
    diffs: &mut Vec<Difference>,
    differs: bool,
    field: &str,
    local: &str,
    device: &str,
)
    ensures
        differences_view(final(diffs)@) == differences_view(old(diffs)@) + text_difference(
            differs,
            field@,
            local@,
            device@,
        ),
{
    if differs {
        push_difference(
            diffs,
            field,
            DiffValue::Text(String::from_str(local)),
            DiffValue::Text(String::from_str(device)),
        );
    }
    assert(differences_view(diffs@) =~= differences_view(old(diffs)@) + text_difference(
        differs,
        field@,
        local@,
        device@,
    ));
}

/// Appends the difference in the hops, if there is one (see
/// [`hops_difference`]).
fn push_hops_difference(diffs: &mut Vec<Difference>, local: &Preset, device: &Preset)
    ensures
        differences_view(final(diffs)@) == differences_view(old(diffs)@) + hops_difference(
            *local,
            *device,
        ),
{
    let local_hops = hop_keys_of(&local.body);
    let device_hops = hop_keys_of(&device.body);
    if !same_hops(&local_hops, &device_hops) {
        let simple = match &local.body {
            PresetBody::Simple { .. } => true,
            PresetBody::Advanced { .. } => false,
        };
        let field = if simple {
            "chain"
        } else {
            "connections"
        };
        push_difference(
            diffs,
            field,
            DiffValue::Hops(render(&local_hops, simple)),
            DiffValue::Hops(render(&device_hops, simple)),
        );
    }
    assert(differences_view(diffs@) =~= differences_view(old(diffs)@) + hops_difference(
        *local,
        *device,
    ));
}

/// Compare two presets field by field (see [`spec_differences`]).
pub fn diff_presets(local: &Preset, device: &Preset) -> (r: Vec<Difference>)
    ensures
        differences_view(r@) == spec_differences(*local, *device),
{
    let mut diffs: Vec<Difference> = Vec::new();
    assert(differences_view(diffs@) =~= Seq::<DiffView>::empty());
    push_text_difference(
        &mut diffs,
        !(local.name == device.name),
        "name",
        local.name.as_str(),
        device.name.as_str(),
    );
    let lm = local.mode();
    let dm = device.mode();
    push_text_difference(&mut diffs, lm != dm, "mode", mode_text(lm), mode_text(dm));
    push_text_difference(
        &mut diffs,
        local.spillover.output_tip != device.spillover.output_tip,
        "spillover.output_tip",
        local.spillover.output_tip.slug(),
        device.spillover.output_tip.slug(),
    );
    push_text_difference(
        &mut diffs,
        local.spillover.output_ring != device.spillover.output_ring,
        "spillover.output_ring",
        local.spillover.output_ring.slug(),
        device.spillover.output_ring.slug(),
    );
    push_hops_difference(&mut diffs, local, device);
    assert(differences_view(diffs@) =~= spec_differences(*local, *device));
    diffs
}

/// Presets that agree on name, mode and spillover and hold the same hops
/// equally often, in any order, have no differences; in particular a preset
/// has none with itself.
pub proof fn lemma_reordered_hops_no_difference(local: Preset, device: Preset)
    requires
        local.name@ == device.name@,
        local.body.spec_mode() == device.body.spec_mode(),
        local.spillover == device.spillover,
        hop_keys(local.body).to_multiset() == hop_keys(device.body).to_multiset(),
    ensures
        spec_differences(local, device).len() == 0,
{
}

} // verus!
