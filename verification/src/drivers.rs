//! What the electrical check says of the pins of a net.

use crate::doc;
use crate::doc::{DocV, PinRefV};
use crate::names;
use crate::part;
use crate::part::{Dir, PartV, PinRole};
use crate::query;
use crate::text;
use vstd::prelude::*;

verus! {

/// The member of a net at position `i` drives it: its role is that of an output, of a signal
/// or of power.
pub open spec fn is_driven_by(
    d: DocV,
    lib: Seq<(Seq<char>, PartV)>,
    members: Seq<PinRefV>,
    i: int,
) -> bool {
    let r = query::resolved_role(d, lib, members[i]);
    0 <= i < members.len() && (r == PinRole::Output || r == PinRole::PowerOut)
}

/// The positions of the members of net `k` that drive it.
pub open spec fn driving(d: DocV, lib: Seq<(Seq<char>, PartV)>, k: int) -> Set<int> {
    Set::new(|i: int| is_driven_by(d, lib, d.nets[k].1.members, i))
}

/// The nets of a document that several members drive.
pub open spec fn contended(d: DocV, lib: Seq<(Seq<char>, PartV)>, n: int) -> Set<int> {
    Set::new(|k: int| 0 <= k < n && driving(d, lib, k).len() >= 2)
}

/// The message about net `k`.
pub open spec fn complaint(d: DocV, lib: Seq<(Seq<char>, PartV)>, k: int) -> Seq<char> {
    "net `"@ + d.nets[k].0 + "`: "@ + text::int_text(driving(d, lib, k).len() as int)
        + " drivers contend"@
}

proof fn count_is_the_number(pins: Seq<(PinRefV, PinRole)>, k: nat)
    requires
        k <= pins.len(),
    ensures
        ({
            let s = Set::new(
                |i: int|
                    0 <= i < k && (pins[i].1 == PinRole::Output || pins[i].1 == PinRole::PowerOut),
            );
            s.finite() && s.len() == query::driver_count(pins, k)
        }),
    decreases k,
{
    let s = Set::new(
        |i: int| 0 <= i < k && (pins[i].1 == PinRole::Output || pins[i].1 == PinRole::PowerOut),
    );
    if k == 0 {
        assert(s =~= Set::empty());
    } else {
        let m = k - 1;
        let t = Set::new(
            |i: int|
                0 <= i < m && (pins[i].1 == PinRole::Output || pins[i].1 == PinRole::PowerOut),
        );
        count_is_the_number(pins, m as nat);
        if pins[m].1 == PinRole::Output || pins[m].1 == PinRole::PowerOut {
            assert(s =~= t.insert(m));
        } else {
            assert(s =~= t);
        }
    }
}

proof fn drivers_are_counted(d: DocV, lib: Seq<(Seq<char>, PartV)>, k: int)
    requires
        0 <= k < d.nets.len(),
    ensures
        ({
            let pins = query::resolved_pins(d, lib, d.nets[k].1.members);
            driving(d, lib, k).finite() && driving(d, lib, k).len() == query::driver_count(
                pins,
                pins.len(),
            )
        }),
{
    let members = d.nets[k].1.members;
    let pins = query::resolved_pins(d, lib, members);
    let n = pins.len();
    count_is_the_number(pins, n);
    let s = Set::new(
        |i: int| 0 <= i < n && (pins[i].1 == PinRole::Output || pins[i].1 == PinRole::PowerOut),
    );
    assert(driving(d, lib, k) =~= s);
}

proof fn complaints_so_far(d: DocV, lib: Seq<(Seq<char>, PartV)>, n: nat)
    requires
        doc::doc_wf(d),
        n <= d.nets.len(),
    ensures
        ({
            let said = query::erc_prefix(query::netlist_of(d, lib), n);
            &&& contended(d, lib, n as int).finite()
            &&& said.len() == contended(d, lib, n as int).len()
            &&& forall|m: Seq<char>|
                #[trigger] said.contains(m) <==> exists|k: int|
                    0 <= k < n && driving(d, lib, k).len() >= 2 && m == #[trigger] complaint(
                        d,
                        lib,
                        k,
                    )
        }),
    decreases n,
{
    let nl = query::netlist_of(d, lib);
    let said = query::erc_prefix(nl, n);
    let all = contended(d, lib, n as int);
    query::netlist_has_every_net(d, lib);
    if n == 0 {
        assert(all =~= Set::empty());
    } else {
        let m = n - 1;
        complaints_so_far(d, lib, m as nat);
        drivers_are_counted(d, lib, m);
        let before = query::erc_prefix(nl, m as nat);
        let some = contended(d, lib, m);
        let own = complaint(d, lib, m);
        if driving(d, lib, m).len() >= 2 {
            assert(all =~= some.insert(m));
            assert(said == before.push(own));
            assert(said[before.len() as int] == own);
        } else {
            assert(all =~= some);
            assert(said == before);
        }
        assert forall|x: Seq<char>|
            #[trigger] said.contains(x) <==> exists|k: int|
                0 <= k < n && driving(d, lib, k).len() >= 2 && x == #[trigger] complaint(
                    d,
                    lib,
                    k,
                ) by {
            if said.contains(x) {
                let i = choose|i: int| 0 <= i < said.len() && said[i] == x;
                if i < before.len() {
                    assert(before[i] == x);
                    assert(before.contains(x));
                    let k = choose|k: int|
                        0 <= k < m && driving(d, lib, k).len() >= 2 && x == #[trigger] complaint(
                            d,
                            lib,
                            k,
                        );
                    assert(x == complaint(d, lib, k));
                } else {
                    assert(x == complaint(d, lib, m));
                }
            }
            if exists|k: int|
                0 <= k < n && driving(d, lib, k).len() >= 2 && x == #[trigger] complaint(
                    d,
                    lib,
                    k,
                ) {
                let k = choose|k: int|
                    0 <= k < n && driving(d, lib, k).len() >= 2 && x == #[trigger] complaint(
                        d,
                        lib,
                        k,
                    );
                if k < m {
                    assert(before.contains(x));
                    let i = choose|i: int| 0 <= i < before.len() && before[i] == x;
                    assert(said[i] == x);
                } else {
                    assert(said[before.len() as int] == x);
                }
            }
        }
    }
}

// ---------------------------------------------------------------------------
// Laws.
// ---------------------------------------------------------------------------

/// The electrical check of a document says of each net that two members or more drive, once,
/// how many they are, and nothing else. A member drives whose role is output or power output.
pub proof fn every_contended_net_is_reported(d: DocV, lib: Seq<(Seq<char>, PartV)>)
    requires
        doc::doc_wf(d),
    ensures
        ({
            let said = query::erc_of(query::netlist_of(d, lib));
            &&& said.len() == contended(d, lib, d.nets.len() as int).len()
            &&& forall|m: Seq<char>|
                #[trigger] said.contains(m) <==> exists|k: int|
                    0 <= k < d.nets.len() && driving(d, lib, k).len() >= 2
                        && m == #[trigger] complaint(d, lib, k)
        }),
{
    query::netlist_has_every_net(d, lib);
    complaints_so_far(d, lib, d.nets.len());
}

/// Two members of one net that are outputs, of signals or of power in any mix, are reported.
pub proof fn two_outputs_contend(
    d: DocV,
    lib: Seq<(Seq<char>, PartV)>,
    k: int,
    i: int,
    j: int,
)
    requires
        doc::doc_wf(d),
        0 <= k < d.nets.len(),
        0 <= i < j < d.nets[k].1.members.len(),
        query::resolved_role(d, lib, d.nets[k].1.members[i]) == PinRole::Output
            || query::resolved_role(d, lib, d.nets[k].1.members[i]) == PinRole::PowerOut,
        query::resolved_role(d, lib, d.nets[k].1.members[j]) == PinRole::Output
            || query::resolved_role(d, lib, d.nets[k].1.members[j]) == PinRole::PowerOut,
    ensures
        query::erc_of(query::netlist_of(d, lib)).contains(complaint(d, lib, k)),
{
    let s = driving(d, lib, k);
    drivers_are_counted(d, lib, k);
    assert(s.contains(i) && s.contains(j));
    let t = s.remove(i);
    assert(t.contains(j));
    vstd::set_lib::lemma_len_subset(Set::<int>::empty().insert(j), t);
    assert(Set::<int>::empty().insert(j).len() == 1);
    assert(s.len() >= 2);
    every_contended_net_is_reported(d, lib);
}

/// A member that names a pin by its number has the role of that pin in the part of its
/// component.
pub proof fn pins_have_the_role_of_their_part(
    d: DocV,
    lib: Seq<(Seq<char>, PartV)>,
    m: PinRefV,
    a: int,
    b: int,
    p: int,
)
    requires
        doc::doc_wf(d),
        names::sorted(lib),
        0 <= a < d.components.len(),
        d.components[a].0 == m.comp,
        0 <= b < lib.len(),
        lib[b].0 == d.components[a].1.part,
        0 <= p < lib[b].1.pins.len(),
        lib[b].1.pins[p].number == m.pin,
        forall|i: int| 0 <= i < p ==> (#[trigger] lib[b].1.pins[i]).number != m.pin,
        !m.pin.contains('.'),
    ensures
        query::resolved_role(d, lib, m) == lib[b].1.pins[p].role,
{
    names::has_is_membership(d.components, m.comp);
    names::has_is_membership(lib, d.components[a].1.part);
    part::pin_index_is_first(lib[b].1.pins, m.pin);
    text::find_char_is_first(m.pin, '.');
    let q = part::pin_index(lib[b].1.pins, m.pin);
    assert(lib[b].1.pins[p].number == m.pin);
    if q < p {
        assert(lib[b].1.pins[q].number != m.pin);
    }
    let f = text::find_char(m.pin, '.');
    if f < m.pin.len() {
        assert(m.pin[f] == '.');
    }
}

/// A member that names a signal of an interface port, `port.signal`, has the role of the
/// signal's direction: an outward signal is an output, an inward one an input.
pub proof fn signals_have_the_role_of_their_direction(
    d: DocV,
    lib: Seq<(Seq<char>, PartV)>,
    m: PinRefV,
    a: int,
    b: int,
    e: int,
    g: int,
    port: Seq<char>,
)
    requires
        doc::doc_wf(d),
        names::sorted(lib),
        0 <= a < d.components.len(),
        d.components[a].0 == m.comp,
        0 <= b < lib.len(),
        lib[b].0 == d.components[a].1.part,
        names::sorted(lib[b].1.interfaces),
        0 <= e < lib[b].1.interfaces.len(),
        lib[b].1.interfaces[e].0 == port,
        !port.contains('.'),
        names::sorted(lib[b].1.interfaces[e].1.signals),
        0 <= g < lib[b].1.interfaces[e].1.signals.len(),
        m.pin == port + seq!['.'] + lib[b].1.interfaces[e].1.signals[g].0,
    ensures
        query::resolved_role(d, lib, m) == (match lib[b].1.interfaces[e].1.signals[g].1 {
            Dir::Out => PinRole::Output,
            Dir::In => PinRole::Input,
            Dir::Bidir => PinRole::Bidir,
        }),
{
    let def = lib[b].1;
    let iface = def.interfaces[e].1;
    let sig = iface.signals[g].0;
    names::has_is_membership(d.components, m.comp);
    names::has_is_membership(lib, d.components[a].1.part);
    names::has_is_membership(def.interfaces, port);
    names::has_is_membership(iface.signals, sig);
    text::find_char_is_first(m.pin, '.');
    let f = text::find_char(m.pin, '.');
    let n = port.len() as int;
    assert(m.pin[n] == '.');
    if f < n {
        assert(port[f] == m.pin[f]);
        assert(port.contains(port[f]));
    }
    assert(f == n);
    assert(m.pin.take(f) =~= port);
    assert(m.pin.skip(f + 1) =~= sig);
}

/// A member of an unknown component or part, or an unknown pin of a part, is passive.
pub proof fn unknown_pins_are_passive(d: DocV, lib: Seq<(Seq<char>, PartV)>, m: PinRefV)
    requires
        doc::doc_wf(d),
        names::sorted(lib),
        !m.pin.contains('.'),
        forall|a: int, b: int, p: int|
            #![trigger d.components[a], lib[b].1.pins[p]]
            0 <= a < d.components.len() && d.components[a].0 == m.comp && 0 <= b < lib.len()
                && lib[b].0 == d.components[a].1.part && 0 <= p < lib[b].1.pins.len()
                ==> lib[b].1.pins[p].number != m.pin,
    ensures
        query::resolved_role(d, lib, m) == PinRole::Passive,
{
    names::has_is_membership(d.components, m.comp);
    if names::has(d.components, m.comp) {
        let a = names::place(d.components, m.comp);
        names::place_splits(d.components, m.comp);
        let c = d.components[a].1;
        names::has_is_membership(lib, c.part);
        if names::has(lib, c.part) {
            let b = names::place(lib, c.part);
            names::place_splits(lib, c.part);
            let pins = lib[b].1.pins;
            part::pin_index_is_first(pins, m.pin);
            let q = part::pin_index(pins, m.pin);
            text::find_char_is_first(m.pin, '.');
            let f = text::find_char(m.pin, '.');
            if f < m.pin.len() {
                assert(m.pin[f] == '.');
            }
            if q < pins.len() {
                assert(d.components[a].0 == m.comp && lib[b].1.pins[q].number == m.pin);
            }
        }
    }
}

} // verus!
