//! A deterministic text view of the document, for people, diffs and scripts. It is made
//! from the document alone, in name order, so a small change is a small difference.

use crate::coord;
use crate::coord::Orient;
use crate::doc;
use crate::doc::{
    Component, ComponentV, DecayReason, Doc, DocV, Net, NetV, PinRef, PinRefV, Provenance,
    ReconReport, ReportV,
};
use crate::id::EntityId;
use crate::text;
use crate::text::{int_string, push_str, string_of};
use vstd::prelude::*;

verus! {

// ---------------------------------------------------------------------------
// The text.
// ---------------------------------------------------------------------------

/// The word for who decided a position.
pub open spec fn provenance_word(p: Provenance) -> Seq<char> {
    match p {
        Provenance::Free => "free"@,
        Provenance::Hint => "hint"@,
        Provenance::Pinned => "pinned"@,
        Provenance::Fixed => "fixed"@,
    }
}

/// The turn of a component, left out for the identity. `angle` is the whole-degree turn
/// of an orientation that is no multiple of a right angle.
pub open spec fn turn_text(o: Orient, angle: i32) -> Seq<char> {
    if o == (Orient { w: 1, x: 0, y: 0, z: 0 }) {
        Seq::empty()
    } else if coord::cardinal(o) {
        " rot="@ + text::int_text(coord::degrees_of(o))
    } else {
        " rot="@ + text::int_text(angle as int)
    }
}

/// The line of a component.
pub open spec fn component_line(c: ComponentV, angle: i32) -> Seq<char> {
    "  "@ + c.id + ": "@ + c.part + " @ ("@ + text::int_text(c.pos.value.x as int) + ","@
        + text::int_text(c.pos.value.y as int) + ")"@ + turn_text(c.orient, angle) + " ["@
        + provenance_word(c.pos.prov) + "]\n"@
}

/// The lines of the first `k` components.
pub open spec fn component_lines(d: DocV, angles: Seq<i32>, k: nat) -> Seq<char>
    decreases k,
{
    if k == 0 {
        Seq::empty()
    } else {
        component_lines(d, angles, (k - 1) as nat) + component_line(
            d.components[k - 1].1,
            angles[k - 1],
        )
    }
}

/// The first `k` members of a net, joined by dashes.
pub open spec fn members_text(members: Seq<PinRefV>, k: nat) -> Seq<char>
    decreases k,
{
    if k == 0 {
        Seq::empty()
    } else {
        let pin = members[k - 1].comp + "."@ + members[k - 1].pin;
        if k == 1 {
            pin
        } else {
            members_text(members, (k - 1) as nat) + " — "@ + pin
        }
    }
}

/// The line of a net.
pub open spec fn net_line(n: NetV) -> Seq<char> {
    "  "@ + n.name + ": "@ + members_text(n.members, n.members.len()) + "\n"@
}

/// The lines of the first `k` nets.
pub open spec fn net_lines(d: DocV, k: nat) -> Seq<char>
    decreases k,
{
    if k == 0 {
        Seq::empty()
    } else {
        net_lines(d, (k - 1) as nat) + net_line(d.nets[k - 1].1)
    }
}

/// Why a hint was dropped.
pub open spec fn reason_text(r: DecayReason) -> Seq<char> {
    match r {
        DecayReason::RedundantWithDefault => "matched default"@,
        DecayReason::OverriddenByConstraint => "overridden by constraint"@,
    }
}

/// The lines of the first `k` dropped hints.
pub open spec fn decay_lines(v: Seq<(Seq<char>, DecayReason)>, k: nat) -> Seq<char>
    decreases k,
{
    if k == 0 {
        Seq::empty()
    } else {
        decay_lines(v, (k - 1) as nat) + ("  ~ decayed hint `"@ + v[k - 1].0 + "` ("@ + reason_text(
            v[k - 1].1,
        ) + ")\n"@)
    }
}

/// A line for each of the first `k` entities, between two texts.
pub open spec fn entity_lines(
    v: Seq<Seq<char>>,
    k: nat,
    head: Seq<char>,
    tail: Seq<char>,
) -> Seq<char>
    decreases k,
{
    if k == 0 {
        Seq::empty()
    } else {
        entity_lines(v, (k - 1) as nat, head, tail) + (head + v[k - 1] + tail)
    }
}

/// The reconciliation section, left out where there is nothing to report.
pub open spec fn report_text(r: ReportV) -> Seq<char> {
    if doc::report_clean(r) {
        Seq::empty()
    } else {
        "# reconciliation\n"@ + decay_lines(r.decayed, r.decayed.len()) + entity_lines(
            r.pin_conflicts,
            r.pin_conflicts.len(),
            "  ! pin `"@,
            "` conflicts with a hard constraint\n"@,
        ) + entity_lines(
            r.redundant_pins,
            r.redundant_pins.len(),
            "  ? pin `"@,
            "` no longer changes the outcome\n"@,
        ) + entity_lines(
            r.orphaned,
            r.orphaned.len(),
            "  ! orphaned override `"@,
            "` (entity gone)\n"@,
        )
    }
}

/// The text of a document.
pub open spec fn rendered(d: DocV, angles: Seq<i32>) -> Seq<char> {
    "# components\n"@ + component_lines(d, angles, d.components.len()) + "# nets\n"@ + net_lines(
        d,
        d.nets.len(),
    ) + report_text(d.report)
}

// ---------------------------------------------------------------------------
// Writing it.
// ---------------------------------------------------------------------------

fn push_int(out: &mut Vec<char>, n: i64)
    ensures
        final(out)@ == old(out)@ + text::int_text(n as int),
{
    let s = int_string(n as i128);
    push_str(out, s.as_str());
}

fn push_turn(out: &mut Vec<char>, o: &Orient, angle: i32)
    ensures
        final(out)@ == old(out)@ + turn_text(*o, angle),
{
    let ghost was = out@;
    if o.w == 1 && o.x == 0 && o.y == 0 && o.z == 0 {
        assert(out@ =~= was + turn_text(*o, angle));
        return;
    }
    push_str(out, " rot=");
    if o.is_cardinal() {
        push_int(out, o.to_deg() as i64);
    } else {
        push_int(out, angle as i64);
    }
    assert(out@ =~= was + turn_text(*o, angle));
}

fn push_component(out: &mut Vec<char>, c: &Component, angle: i32)
    ensures
        final(out)@ == old(out)@ + component_line(c@, angle),
{
    let ghost was = out@;
    push_str(out, "  ");
    push_str(out, c.id.as_str());
    push_str(out, ": ");
    push_str(out, c.part.as_str());
    push_str(out, " @ (");
    push_int(out, c.pos.value.x);
    push_str(out, ",");
    push_int(out, c.pos.value.y);
    push_str(out, ")");
    push_turn(out, &c.orient, angle);
    push_str(out, " [");
    match c.pos.prov {
        Provenance::Free => push_str(out, "free"),
        Provenance::Hint => push_str(out, "hint"),
        Provenance::Pinned => push_str(out, "pinned"),
        Provenance::Fixed => push_str(out, "fixed"),
    }
    push_str(out, "]\n");
    assert(out@ =~= was + component_line(c@, angle));
}

fn push_members(out: &mut Vec<char>, members: &Vec<PinRef>)
    ensures
        final(out)@ == old(out)@ + members_text(doc::pin_refs(members@), members@.len()),
{
    let ghost was = out@;
    let ghost v = doc::pin_refs(members@);
    let mut i: usize = 0;
    assert(out@ =~= was + members_text(v, 0));
    while i < members.len()
        invariant
            i <= members.len(),
            v == doc::pin_refs(members@),
            out@ == was + members_text(v, i as nat),
        decreases members.len() - i,
    {
        if i > 0 {
            push_str(out, " — ");
        }
        push_str(out, members[i].comp.as_str());
        push_str(out, ".");
        push_str(out, members[i].pin.as_str());
        i += 1;
        assert(v[i - 1] == members@[i - 1]@);
        assert(out@ =~= was + members_text(v, i as nat));
    }
}

fn push_net(out: &mut Vec<char>, n: &Net)
    ensures
        final(out)@ == old(out)@ + net_line(n@),
{
    let ghost was = out@;
    push_str(out, "  ");
    push_str(out, n.name.as_str());
    push_str(out, ": ");
    push_members(out, &n.members);
    push_str(out, "\n");
    assert(out@ =~= was + net_line(n@));
}

fn push_decays(out: &mut Vec<char>, v: &Vec<(EntityId, DecayReason)>)
    ensures
        final(out)@ == old(out)@ + decay_lines(doc::decays(v@), v@.len()),
{
    let ghost was = out@;
    let ghost d = doc::decays(v@);
    let mut i: usize = 0;
    assert(out@ =~= was + decay_lines(d, 0));
    while i < v.len()
        invariant
            i <= v.len(),
            d == doc::decays(v@),
            out@ == was + decay_lines(d, i as nat),
        decreases v.len() - i,
    {
        push_str(out, "  ~ decayed hint `");
        push_str(out, v[i].0.as_str());
        push_str(out, "` (");
        match v[i].1 {
            DecayReason::RedundantWithDefault => push_str(out, "matched default"),
            DecayReason::OverriddenByConstraint => push_str(out, "overridden by constraint"),
        }
        push_str(out, ")\n");
        i += 1;
        assert(d[i - 1] == (v@[i - 1].0@, v@[i - 1].1));
        assert(out@ =~= was + decay_lines(d, i as nat));
    }
}

fn push_entities(out: &mut Vec<char>, v: &Vec<EntityId>, head: &str, tail: &str)
    ensures
        final(out)@ == old(out)@ + entity_lines(doc::ids(v@), v@.len(), head@, tail@),
{
    let ghost was = out@;
    let ghost d = doc::ids(v@);
    let mut i: usize = 0;
    assert(out@ =~= was + entity_lines(d, 0, head@, tail@));
    while i < v.len()
        invariant
            i <= v.len(),
            d == doc::ids(v@),
            out@ == was + entity_lines(d, i as nat, head@, tail@),
        decreases v.len() - i,
    {
        push_str(out, head);
        push_str(out, v[i].as_str());
        push_str(out, tail);
        i += 1;
        assert(d[i - 1] == v@[i - 1]@);
        assert(out@ =~= was + entity_lines(d, i as nat, head@, tail@));
    }
}

fn push_report(out: &mut Vec<char>, r: &ReconReport)
    ensures
        final(out)@ == old(out)@ + report_text(r@),
{
    let ghost was = out@;
    if r.is_clean() {
        assert(out@ =~= was + report_text(r@));
        return;
    }
    push_str(out, "# reconciliation\n");
    push_decays(out, &r.decayed);
    push_entities(
        out,
        &r.pin_conflicts,
        "  ! pin `",
        "` conflicts with a hard constraint\n",
    );
    push_entities(out, &r.redundant_pins, "  ? pin `", "` no longer changes the outcome\n");
    push_entities(out, &r.orphaned, "  ! orphaned override `", "` (entity gone)\n");
    assert(out@ =~= was + report_text(r@));
}

/// Render a document as text. `angles` gives, for each component, the whole-degree turn of
/// an orientation that is no multiple of a right angle; the others are exact.
pub fn render(doc: &Doc, angles: &Vec<i32>) -> (r: String)
    requires
        angles@.len() == doc@.components.len(),
    ensures
        r@ == rendered(doc@, angles@),
{
    let ghost d = doc@;
    let mut out: Vec<char> = Vec::new();
    push_str(&mut out, "# components\n");
    let ghost head = out@;
    let mut i: usize = 0;
    assert(out@ =~= head + component_lines(d, angles@, 0));
    while i < doc.components.len()
        invariant
            i <= d.components.len(),
            d == doc@,
            angles@.len() == d.components.len(),
            out@ == head + component_lines(d, angles@, i as nat),
        decreases d.components.len() - i,
    {
        push_component(&mut out, doc.components.value_at(i), angles[i]);
        i += 1;
        assert(out@ =~= head + component_lines(d, angles@, i as nat));
    }
    push_str(&mut out, "# nets\n");
    let ghost mid = out@;
    let mut j: usize = 0;
    assert(out@ =~= mid + net_lines(d, 0));
    while j < doc.nets.len()
        invariant
            j <= d.nets.len(),
            d == doc@,
            out@ == mid + net_lines(d, j as nat),
        decreases d.nets.len() - j,
    {
        push_net(&mut out, doc.nets.value_at(j));
        j += 1;
        assert(out@ =~= mid + net_lines(d, j as nat));
    }
    push_report(&mut out, &doc.report);
    assert(out@ =~= rendered(d, angles@));
    string_of(&out)
}

// ---------------------------------------------------------------------------
// Laws.
// ---------------------------------------------------------------------------

/// The text starts with the components, and a clean report adds nothing to it.
pub proof fn clean_text_ends_with_the_nets(d: DocV, angles: Seq<i32>)
    requires
        doc::report_clean(d.report),
    ensures
        rendered(d, angles) == "# components\n"@ + component_lines(
            d,
            angles,
            d.components.len(),
        ) + "# nets\n"@ + net_lines(d, d.nets.len()),
{
    assert(rendered(d, angles) =~= "# components\n"@ + component_lines(
        d,
        angles,
        d.components.len(),
    ) + "# nets\n"@ + net_lines(d, d.nets.len()));
}

/// The lines of the components from `i` up to `k`.
pub open spec fn lines_between(d: DocV, angles: Seq<i32>, i: nat, k: nat) -> Seq<char>
    decreases k,
{
    if k <= i {
        Seq::empty()
    } else {
        lines_between(d, angles, i, (k - 1) as nat) + component_line(
            d.components[k - 1].1,
            angles[k - 1],
        )
    }
}

proof fn lines_split(d: DocV, e: DocV, angles: Seq<i32>, i: nat, k: nat)
    requires
        i < k <= d.components.len(),
        e.components == d.components.update(i as int, e.components[i as int]),
    ensures
        component_lines(e, angles, i) == component_lines(d, angles, i),
        lines_between(e, angles, i + 1, k) == lines_between(d, angles, i + 1, k),
        component_lines(e, angles, k) == component_lines(d, angles, i) + component_line(
            e.components[i as int].1,
            angles[i as int],
        ) + lines_between(d, angles, i + 1, k),
    decreases k,
{
    lines_kept(d, e, angles, i);
    if k > i + 1 {
        lines_split(d, e, angles, i, (k - 1) as nat);
        assert(e.components[k - 1] == d.components[k - 1]);
    }
    assert(component_lines(e, angles, k) =~= component_lines(d, angles, i) + component_line(
        e.components[i as int].1,
        angles[i as int],
    ) + lines_between(d, angles, i + 1, k));
}

proof fn lines_kept(d: DocV, e: DocV, angles: Seq<i32>, k: nat)
    requires
        k <= d.components.len(),
        forall|j: int| 0 <= j < k ==> e.components[j] == d.components[j],
    ensures
        component_lines(e, angles, k) == component_lines(d, angles, k),
    decreases k,
{
    if k > 0 {
        lines_kept(d, e, angles, (k - 1) as nat);
    }
}

proof fn net_lines_kept(d: DocV, e: DocV, k: nat)
    requires
        e.nets == d.nets,
    ensures
        net_lines(e, k) == net_lines(d, k),
    decreases k,
{
    if k > 0 {
        net_lines_kept(d, e, (k - 1) as nat);
    }
}

proof fn regroup(
    a: Seq<char>,
    b: Seq<char>,
    line: Seq<char>,
    m: Seq<char>,
    n: Seq<char>,
    o: Seq<char>,
    r: Seq<char>,
)
    ensures
        a + (b + line + m) + n + o + r == (a + b) + line + (m + n + o + r),
{
    assert(a + (b + line + m) + n + o + r =~= (a + b) + line + (m + n + o + r));
}

/// A one-component change is a one-line difference: what comes before and after that
/// component's line is the same text.
pub proof fn one_change_is_one_line(d: DocV, angles: Seq<i32>, i: nat, c: ComponentV)
    requires
        i < d.components.len(),
        angles.len() == d.components.len(),
    ensures
        ({
            let e = DocV {
                components: d.components.update(i as int, (d.components[i as int].0, c)),
                ..d
            };
            let a = angles[i as int];
            let before = "# components\n"@ + component_lines(d, angles, i);
            let after = lines_between(d, angles, i + 1, d.components.len()) + "# nets\n"@
                + net_lines(d, d.nets.len()) + report_text(d.report);
            &&& rendered(d, angles) == before + component_line(d.components[i as int].1, a) + after
            &&& rendered(e, angles) == before + component_line(c, a) + after
        }),
{
    let n = d.components.len();
    let e = DocV { components: d.components.update(i as int, (d.components[i as int].0, c)), ..d };
    let a = angles[i as int];
    assert(d.components.update(i as int, d.components[i as int]) =~= d.components);
    lines_split(d, d, angles, i, n);
    lines_split(d, e, angles, i, n);
    net_lines_kept(d, e, d.nets.len());
    let (head, mid) = ("# components\n"@, "# nets\n"@);
    let (b, m) = (component_lines(d, angles, i), lines_between(d, angles, i + 1, n));
    let (o, r) = (net_lines(d, d.nets.len()), report_text(d.report));
    regroup(head, b, component_line(d.components[i as int].1, a), m, mid, o, r);
    regroup(head, b, component_line(c, a), m, mid, o, r);
}

} // verus!
