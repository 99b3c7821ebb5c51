//! Derived values on demand, each remembered with what it was computed from: the resolved
//! netlist, the electrical-rules check and the design-rules check.
//!
//! A remembered value says when it was last known to be current and when it last changed.
//! It is reused as long as everything it was computed from is unchanged. A value that is
//! computed again and comes out equal does not count as changed, so what depends on it
//! stays valid.

use crate::coord::Point;
use crate::doc;
use crate::doc::{Doc, DocV, InputId, PinRef, PinRefV};
use crate::geom::polygon::Region;
use crate::geom::stackup::{SlabV, Stackup};
use crate::history;
use crate::history::HistoryV;
use crate::names;
use crate::names::{Duplicate, NameMap};
use crate::part;
use crate::part::{PartLib, PartV, PinRole};
use crate::route::connectivity;
use crate::route::connectivity::{NetPins, Netlist, NetlistV};
use crate::route::drc;
use crate::route::drc::{check_document, Board, IslandsV};
use crate::route::features;
use crate::route::features::{SourceGeometry, SourceV};
use crate::route::rules;
use crate::route::rules::{DesignRules, Violation, ViolationV};
use crate::text;
use crate::text::{cat3, int_string, str_eq};
use vstd::prelude::*;

verus! {

// ---------------------------------------------------------------------------
// Keys and values.
// ---------------------------------------------------------------------------

/// A derived value.
#[derive(Clone, Copy, Debug, PartialEq, Eq, PartialOrd, Ord, Structural)]
pub enum Key {
    /// Each net's pins with their electrical roles.
    Netlist,
    /// The electrical-rules check of the netlist.
    Erc,
    /// The design-rules check of the routed copper.
    Drc,
}

/// The answer to a query.
#[derive(Debug, PartialEq, Eq)]
pub enum QueryValue {
    Netlist(Netlist),
    Erc(Vec<String>),
    Drc(Vec<Violation>),
}

/// An answer as a value.
pub enum AnswerV {
    Netlist(NetlistV),
    Erc(Seq<Seq<char>>),
    Drc(Seq<ViolationV>),
}

impl View for QueryValue {
    type V = AnswerV;

    open spec fn view(&self) -> AnswerV {
        match self {
            QueryValue::Netlist(m) => AnswerV::Netlist(m@),
            QueryValue::Erc(v) => AnswerV::Erc(text::strs(v@)),
            QueryValue::Drc(v) => AnswerV::Drc(rules::violation_views(v@)),
        }
    }
}

impl QueryValue {
    /// The findings of an electrical-rules check.
    pub fn as_erc(&self) -> (r: &Vec<String>)
        requires
            self is Erc,
        ensures
            self@ == AnswerV::Erc(text::strs(r@)),
    {
        match self {
            QueryValue::Erc(v) => v,
            _ => vstd::pervasive::unreached(),
        }
    }

    /// The netlist.
    pub fn as_netlist(&self) -> (r: &Netlist)
        requires
            self is Netlist,
        ensures
            self@ == AnswerV::Netlist(r@),
    {
        match self {
            QueryValue::Netlist(m) => m,
            _ => vstd::pervasive::unreached(),
        }
    }

    /// The findings of a design-rules check.
    pub fn as_drc(&self) -> (r: &Vec<Violation>)
        requires
            self is Drc,
        ensures
            self@ == AnswerV::Drc(rules::violation_views(r@)),
    {
        match self {
            QueryValue::Drc(v) => v,
            _ => vstd::pervasive::unreached(),
        }
    }
}

/// The stackup and the source geometry of a document, and what the region kernel has worked
/// out of it: the fills of its pours, which grown copper spills over the board, and the
/// pour islands of each net.
#[derive(Debug, PartialEq, Eq)]
pub struct Physical {
    pub su: Stackup,
    pub src: SourceGeometry,
    pub fills: Vec<Region>,
    pub spills: Vec<bool>,
    pub islands: Vec<Vec<(String, Region)>>,
}

/// The geometry of a document as a value.
pub struct PhysicalV {
    pub su: Seq<SlabV>,
    pub src: SourceV,
    pub fills: Seq<Seq<Seq<Point>>>,
    pub spills: Seq<bool>,
    pub islands: IslandsV,
}

impl View for Physical {
    type V = PhysicalV;

    open spec fn view(&self) -> PhysicalV {
        PhysicalV {
            su: self.su@,
            src: self.src@,
            fills: features::fill_views(self.fills@),
            spills: self.spills@,
            islands: drc::islands_views(self.islands@),
        }
    }
}

// ---------------------------------------------------------------------------
// What the values are.
// ---------------------------------------------------------------------------

/// The role of a pin; a pin that does not resolve is passive.
pub open spec fn resolved_role(d: DocV, lib: Seq<(Seq<char>, PartV)>, pr: PinRefV) -> PinRole {
    match names::lookup(d.components, pr.comp) {
        Some(c) => match names::lookup(lib, c.part) {
            Some(def) => match part::role_of(def, pr.pin) {
                Some(r) => r,
                None => PinRole::Passive,
            },
            None => PinRole::Passive,
        },
        None => PinRole::Passive,
    }
}

/// The pins of a net with their roles.
pub open spec fn resolved_pins(
    d: DocV,
    lib: Seq<(Seq<char>, PartV)>,
    members: Seq<PinRefV>,
) -> Seq<(PinRefV, PinRole)> {
    Seq::new(members.len(), |i: int| (members[i], resolved_role(d, lib, members[i])))
}

/// The netlist of the first `k` nets.
pub open spec fn netlist_prefix(d: DocV, lib: Seq<(Seq<char>, PartV)>, k: nat) -> NetlistV
    decreases k,
{
    if k == 0 {
        Seq::empty()
    } else {
        names::put(
            netlist_prefix(d, lib, (k - 1) as nat),
            d.nets[k - 1].0,
            resolved_pins(d, lib, d.nets[k - 1].1.members),
        )
    }
}

/// The netlist of a document.
pub open spec fn netlist_of(d: DocV, lib: Seq<(Seq<char>, PartV)>) -> NetlistV {
    netlist_prefix(d, lib, d.nets.len())
}

/// How many of the first `k` pins drive the net.
pub open spec fn driver_count(pins: Seq<(PinRefV, PinRole)>, k: nat) -> nat
    decreases k,
{
    if k == 0 {
        0
    } else if part::drives(pins[k - 1].1) {
        driver_count(pins, (k - 1) as nat) + 1
    } else {
        driver_count(pins, (k - 1) as nat)
    }
}

/// What is said of a net with several drivers.
pub open spec fn contention(net: Seq<char>, drivers: nat) -> Seq<char> {
    "net `"@ + net + "`: "@ + text::int_text(drivers as int) + " drivers contend"@
}

/// The contentions among the first `k` nets.
pub open spec fn erc_prefix(nl: NetlistV, k: nat) -> Seq<Seq<char>>
    decreases k,
{
    if k == 0 {
        Seq::empty()
    } else {
        let n = driver_count(nl[k - 1].1, nl[k - 1].1.len());
        if n >= 2 {
            erc_prefix(nl, (k - 1) as nat).push(contention(nl[k - 1].0, n))
        } else {
            erc_prefix(nl, (k - 1) as nat)
        }
    }
}

/// The electrical-rules check of a netlist.
pub open spec fn erc_of(nl: NetlistV) -> Seq<Seq<char>> {
    erc_prefix(nl, nl.len())
}

/// The rules that a query checks against.
pub open spec fn process_rules() -> DesignRules {
    DesignRules {
        min_clearance: 150_000,
        min_trace_width: 150_000,
        touch_tol: 10_000,
        keepout_clearance: 0,
        edge_clearance: 200_000,
    }
}

/// The board of a document with its netlist.
pub open spec fn board_with(
    d: DocV,
    lib: Seq<(Seq<char>, PartV)>,
    nl: NetlistV,
    ph: PhysicalV,
) -> Board {
    drc::doc_board(
        d,
        lib,
        nl,
        process_rules(),
        ph.su,
        ph.src,
        ph.fills,
        ph.spills,
        ph.islands,
    )
}

/// The board of a document can be made and checked.
pub open spec fn board_ready(
    d: DocV,
    lib: Seq<(Seq<char>, PartV)>,
    nl: NetlistV,
    ph: PhysicalV,
) -> bool {
    &&& drc::doc_ready(d, lib, nl, process_rules(), ph.su, ph.src, ph.fills)
    &&& ph.src.features is Ok
    &&& drc::checkable(board_with(d, lib, nl, ph))
}

/// What a board violates.
pub open spec fn violations_of(b: Board) -> spec_fn(ViolationV) -> bool {
    |v: ViolationV| drc::is_violation(b, v)
}

/// The list is canonical and holds exactly these violations.
pub open spec fn lists(vs: Seq<ViolationV>, which: spec_fn(ViolationV) -> bool) -> bool {
    &&& rules::canonical(vs)
    &&& forall|v: ViolationV| #[trigger] vs.contains(v) <==> which(v)
}

/// The canonical list of these violations.
pub open spec fn listed(which: spec_fn(ViolationV) -> bool) -> Seq<ViolationV> {
    choose|vs: Seq<ViolationV>| lists(vs, which)
}

/// The list is the design-rules check of a board.
pub open spec fn is_drc(b: Board, vs: Seq<ViolationV>) -> bool {
    lists(vs, violations_of(b))
}

/// The design-rules check of a board.
pub open spec fn drc_of(b: Board) -> Seq<ViolationV> {
    listed(violations_of(b))
}

// ---------------------------------------------------------------------------
// What the engine remembers.
// ---------------------------------------------------------------------------

/// How often each value was computed.
#[derive(Clone, Copy, Debug, PartialEq, Eq, Structural)]
pub struct Counts {
    pub netlist: u32,
    pub erc: u32,
    pub drc: u32,
}

/// A remembered netlist, with the connectivity revision that it was read from.
struct NetlistMemo {
    value: Netlist,
    conn: u64,
    verified_at: u64,
    changed_at: u64,
}

/// A remembered electrical check, with the stamp of the netlist that it was computed from.
struct ErcMemo {
    value: Vec<String>,
    netlist: u64,
    verified_at: u64,
    changed_at: u64,
}

/// A remembered design check, with the revisions and the stamp that it was computed from.
struct DrcMemo {
    value: Vec<Violation>,
    route: u64,
    geom: u64,
    netlist: u64,
    verified_at: u64,
    changed_at: u64,
}

/// A remembered netlist as a value.
pub struct NetlistMemoV {
    pub value: NetlistV,
    pub conn: u64,
    pub verified_at: u64,
    pub changed_at: u64,
}

/// A remembered electrical check as a value.
pub struct ErcMemoV {
    pub value: Seq<Seq<char>>,
    pub netlist: u64,
    pub verified_at: u64,
    pub changed_at: u64,
}

/// A remembered design check as a value.
pub struct DrcMemoV {
    pub value: Seq<ViolationV>,
    pub route: u64,
    pub geom: u64,
    pub netlist: u64,
    pub verified_at: u64,
    pub changed_at: u64,
}

/// The engine's memory as a value.
pub struct EngineV {
    pub netlist: Option<NetlistMemoV>,
    pub erc: Option<ErcMemoV>,
    pub drc: Option<DrcMemoV>,
    pub current_rev: u64,
    pub counts: Counts,
}

/// The query engine.
pub struct Engine {
    netlist: Option<NetlistMemo>,
    erc: Option<ErcMemo>,
    drc: Option<DrcMemo>,
    current_rev: u64,
    /// How often each value was computed.
    pub recompute_counts: Counts,
}

spec fn netlist_memo(m: Option<NetlistMemo>) -> Option<NetlistMemoV> {
    match m {
        Some(m) => Some(
            NetlistMemoV {
                value: m.value@,
                conn: m.conn,
                verified_at: m.verified_at,
                changed_at: m.changed_at,
            },
        ),
        None => None,
    }
}

spec fn erc_memo(m: Option<ErcMemo>) -> Option<ErcMemoV> {
    match m {
        Some(m) => Some(
            ErcMemoV {
                value: text::strs(m.value@),
                netlist: m.netlist,
                verified_at: m.verified_at,
                changed_at: m.changed_at,
            },
        ),
        None => None,
    }
}

spec fn drc_memo(m: Option<DrcMemo>) -> Option<DrcMemoV> {
    match m {
        Some(m) => Some(
            DrcMemoV {
                value: rules::violation_views(m.value@),
                route: m.route,
                geom: m.geom,
                netlist: m.netlist,
                verified_at: m.verified_at,
                changed_at: m.changed_at,
            },
        ),
        None => None,
    }
}

impl View for Engine {
    type V = EngineV;

    closed spec fn view(&self) -> EngineV {
        EngineV {
            netlist: netlist_memo(self.netlist),
            erc: erc_memo(self.erc),
            drc: drc_memo(self.drc),
            current_rev: self.current_rev,
            counts: self.recompute_counts,
        }
    }
}

/// An engine that remembers nothing.
pub open spec fn fresh_engine() -> EngineV {
    EngineV {
        netlist: None,
        erc: None,
        drc: None,
        current_rev: 0,
        counts: Counts { netlist: 0, erc: 0, drc: 0 },
    }
}

/// The latest revision of a document's inputs.
pub open spec fn latest(d: DocV) -> u64 {
    let a = if d.conn_rev < d.geom_rev {
        d.geom_rev
    } else {
        d.conn_rev
    };
    if a < d.route_rev {
        d.route_rev
    } else {
        a
    }
}

/// When a value last changed, now that it has been computed again: not now, if it came
/// out equal.
pub open spec fn stamped(same: bool, changed_at: u64, now: u64) -> u64 {
    if same {
        changed_at
    } else {
        now
    }
}

/// The memory once the netlist is current: reused where the connectivity revision is the
/// one it was read from, computed otherwise.
pub open spec fn with_netlist(s: EngineV, d: DocV, lib: Seq<(Seq<char>, PartV)>) -> EngineV {
    match s.netlist {
        Some(m) if m.verified_at == s.current_rev => s,
        Some(m) if m.conn == d.conn_rev => EngineV {
            netlist: Some(NetlistMemoV { verified_at: s.current_rev, ..m }),
            ..s
        },
        _ => {
            let value = netlist_of(d, lib);
            let changed_at = match s.netlist {
                Some(m) => stamped(m.value == value, m.changed_at, s.current_rev),
                None => s.current_rev,
            };
            EngineV {
                netlist: Some(
                    NetlistMemoV {
                        value,
                        conn: d.conn_rev,
                        verified_at: s.current_rev,
                        changed_at,
                    },
                ),
                counts: Counts { netlist: (s.counts.netlist + 1) as u32, ..s.counts },
                ..s
            }
        },
    }
}

/// The netlist that an engine goes by.
pub open spec fn netlist_in(s: EngineV) -> NetlistMemoV {
    s.netlist->0
}

/// The memory once the electrical check is current: reused where the netlist is the one
/// that it was computed from.
pub open spec fn with_erc(s: EngineV, d: DocV, lib: Seq<(Seq<char>, PartV)>) -> EngineV {
    let t = with_netlist(s, d, lib);
    let nl = netlist_in(t);
    match s.erc {
        Some(m) if m.verified_at == s.current_rev => s,
        Some(m) if nl.changed_at == m.netlist => EngineV {
            erc: Some(ErcMemoV { verified_at: s.current_rev, ..m }),
            ..t
        },
        _ => {
            let value = erc_of(nl.value);
            let changed_at = match s.erc {
                Some(m) => stamped(m.value == value, m.changed_at, s.current_rev),
                None => s.current_rev,
            };
            EngineV {
                erc: Some(
                    ErcMemoV {
                        value,
                        netlist: nl.changed_at,
                        verified_at: s.current_rev,
                        changed_at,
                    },
                ),
                counts: Counts { erc: (t.counts.erc + 1) as u32, ..t.counts },
                ..t
            }
        },
    }
}

/// The design check need not be computed: it is known to be current, or nothing that it
/// was computed from has changed.
pub open spec fn drc_reused(s: EngineV, d: DocV, lib: Seq<(Seq<char>, PartV)>) -> bool {
    match s.drc {
        Some(m) => m.verified_at == s.current_rev || (m.route == d.route_rev && m.geom
            == d.geom_rev && netlist_in(with_netlist(s, d, lib)).changed_at == m.netlist),
        None => false,
    }
}

/// The memory once the design check is current: reused where the routing and the
/// geometry are the ones it was read from and the netlist is the one it was computed from.
pub open spec fn with_drc(
    s: EngineV,
    d: DocV,
    lib: Seq<(Seq<char>, PartV)>,
    ph: PhysicalV,
) -> EngineV {
    let t = with_netlist(s, d, lib);
    let nl = netlist_in(t);
    match s.drc {
        Some(m) if m.verified_at == s.current_rev => s,
        Some(m) if drc_reused(s, d, lib) => EngineV {
            drc: Some(DrcMemoV { verified_at: s.current_rev, ..m }),
            ..t
        },
        _ => {
            let value = drc_of(board_with(d, lib, nl.value, ph));
            let changed_at = match s.drc {
                Some(m) => stamped(m.value == value, m.changed_at, s.current_rev),
                None => s.current_rev,
            };
            EngineV {
                drc: Some(
                    DrcMemoV {
                        value,
                        route: d.route_rev,
                        geom: d.geom_rev,
                        netlist: nl.changed_at,
                        verified_at: s.current_rev,
                        changed_at,
                    },
                ),
                counts: Counts { drc: (t.counts.drc + 1) as u32, ..t.counts },
                ..t
            }
        },
    }
}

/// The memory at a document's revision.
pub open spec fn at_rev(s: EngineV, d: DocV) -> EngineV {
    EngineV { current_rev: latest(d), ..s }
}

/// The memory after a query.
pub open spec fn queried(
    s: EngineV,
    d: DocV,
    lib: Seq<(Seq<char>, PartV)>,
    ph: PhysicalV,
    key: Key,
) -> EngineV {
    match key {
        Key::Netlist => with_netlist(at_rev(s, d), d, lib),
        Key::Erc => with_erc(at_rev(s, d), d, lib),
        Key::Drc => with_drc(at_rev(s, d), d, lib, ph),
    }
}

/// What the memory answers.
pub open spec fn answer(s: EngineV, key: Key) -> Option<AnswerV> {
    match key {
        Key::Netlist => match s.netlist {
            Some(m) => Some(AnswerV::Netlist(m.value)),
            None => None,
        },
        Key::Erc => match s.erc {
            Some(m) => Some(AnswerV::Erc(m.value)),
            None => None,
        },
        Key::Drc => match s.drc {
            Some(m) => Some(AnswerV::Drc(m.value)),
            None => None,
        },
    }
}

/// A design check can be answered: it is reused, or the board can be checked.
pub open spec fn drc_ready(
    s: EngineV,
    d: DocV,
    lib: Seq<(Seq<char>, PartV)>,
    ph: PhysicalV,
) -> bool {
    drc_reused(s, d, lib) || board_ready(
        d,
        lib,
        netlist_in(with_netlist(s, d, lib)).value,
        ph,
    )
}

/// No counter is at its limit.
pub open spec fn has_room(c: Counts) -> bool {
    c.netlist < u32::MAX && c.erc < u32::MAX && c.drc < u32::MAX
}

// ---------------------------------------------------------------------------
// Computing the values.
// ---------------------------------------------------------------------------

fn role_in(doc: &Doc, lib: &PartLib, pr: &PinRef) -> (r: PinRole)
    ensures
        r == resolved_role(doc@, lib@, pr@),
{
    if let Some(c) = doc.components.get(pr.comp.as_str()) {
        if let Some(def) = lib.get(c.part.as_str()) {
            if let Some(role) = def.pin_role(pr.pin.as_str()) {
                return role;
            }
        }
    }
    PinRole::Passive
}

fn pins_with_roles(doc: &Doc, lib: &PartLib, members: &Vec<PinRef>) -> (r: NetPins)
    ensures
        r@ == resolved_pins(doc@, lib@, doc::pin_refs(members@)),
{
    let mut pins: Vec<(PinRef, PinRole)> = Vec::new();
    let mut i: usize = 0;
    while i < members.len()
        invariant
            i <= members.len(),
            pins.len() == i,
            forall|k: int|
                0 <= k < i ==> (#[trigger] pins@[k]).0@ == members@[k]@ && pins@[k].1
                    == resolved_role(doc@, lib@, members@[k]@),
        decreases members.len() - i,
    {
        let role = role_in(doc, lib, &members[i]);
        pins.push((members[i].duplicate(), role));
        i += 1;
    }
    let r = NetPins { pins };
    assert(r@ =~= resolved_pins(doc@, lib@, doc::pin_refs(members@)));
    r
}

/// Resolve the netlist of a document: each net's pins with their electrical roles.
pub fn resolve_netlist(doc: &Doc, lib: &PartLib) -> (r: Netlist)
    ensures
        r@ == netlist_of(doc@, lib@),
        names::sorted(r@),
{
    let ghost d = doc@;
    let mut out: Netlist = NameMap::new();
    let mut i: usize = 0;
    while i < doc.nets.len()
        invariant
            i <= d.nets.len(),
            d == doc@,
            names::sorted(out@),
            out@ == netlist_prefix(d, lib@, i as nat),
        decreases d.nets.len() - i,
    {
        let net = doc.nets.value_at(i);
        let pins = pins_with_roles(doc, lib, &net.members);
        out.insert(doc.nets.key_at(i).clone(), pins);
        i += 1;
    }
    out
}

fn count_drivers(pins: &Vec<(PinRef, PinRole)>) -> (r: usize)
    ensures
        r == driver_count(connectivity::role_pins(pins@), pins@.len()),
{
    let ghost v = connectivity::role_pins(pins@);
    let mut n: usize = 0;
    let mut i: usize = 0;
    while i < pins.len()
        invariant
            i <= pins.len(),
            v == connectivity::role_pins(pins@),
            n <= i,
            n == driver_count(v, i as nat),
        decreases pins.len() - i,
    {
        assert(v[i as int].1 == pins@[i as int].1);
        if pins[i].1.is_driver() {
            n += 1;
        }
        i += 1;
    }
    n
}

/// Check a netlist for nets that several pins drive.
pub fn check_erc(nl: &Netlist) -> (r: Vec<String>)
    ensures
        text::strs(r@) == erc_of(nl@),
{
    let mut out: Vec<String> = Vec::new();
    let mut i: usize = 0;
    assert(text::strs(out@) =~= Seq::empty());
    while i < nl.len()
        invariant
            i <= nl@.len(),
            text::strs(out@) == erc_prefix(nl@, i as nat),
        decreases nl@.len() - i,
    {
        let n: usize = count_drivers(&nl.value_at(i).pins);
        if n >= 2 {
            let head = cat3("net `", nl.key_at(i).as_str(), "`: ");
            let msg = cat3(head.as_str(), int_string(n as i128).as_str(), " drivers contend");
            let ghost done = text::strs(out@);
            let ghost one = msg@;
            assert(one == contention(nl@[i as int].0, n as nat));
            out.push(msg);
            assert(text::strs(out@) =~= done.push(one));
        }
        i += 1;
    }
    out
}

// ---------------------------------------------------------------------------
// Comparing values.
// ---------------------------------------------------------------------------

fn same_pins(a: &NetPins, b: &NetPins) -> (r: bool)
    ensures
        r == (a@ == b@),
{
    if a.pins.len() != b.pins.len() {
        assert(a@.len() != b@.len());
        return false;
    }
    let mut i: usize = 0;
    while i < a.pins.len()
        invariant
            i <= a.pins.len(),
            a.pins.len() == b.pins.len(),
            forall|k: int| 0 <= k < i ==> a@[k] == b@[k],
        decreases a.pins.len() - i,
    {
        if !a.pins[i].0.same(&b.pins[i].0) || a.pins[i].1 != b.pins[i].1 {
            assert(a@[i as int] != b@[i as int]);
            return false;
        }
        assert(a@[i as int] == b@[i as int]);
        i += 1;
    }
    assert(a@ =~= b@);
    true
}

fn same_netlist(a: &Netlist, b: &Netlist) -> (r: bool)
    ensures
        r == (a@ == b@),
{
    if a.len() != b.len() {
        return false;
    }
    let mut i: usize = 0;
    while i < a.len()
        invariant
            i <= a@.len(),
            a@.len() == b@.len(),
            forall|k: int| 0 <= k < i ==> a@[k] == b@[k],
        decreases a@.len() - i,
    {
        if !str_eq(a.key_at(i).as_str(), b.key_at(i).as_str()) || !same_pins(
            a.value_at(i),
            b.value_at(i),
        ) {
            assert(a@[i as int] != b@[i as int]);
            return false;
        }
        i += 1;
    }
    assert(a@ =~= b@);
    true
}

fn same_strings(a: &Vec<String>, b: &Vec<String>) -> (r: bool)
    ensures
        r == (text::strs(a@) == text::strs(b@)),
{
    if a.len() != b.len() {
        assert(text::strs(a@).len() != text::strs(b@).len());
        return false;
    }
    let mut i: usize = 0;
    while i < a.len()
        invariant
            i <= a.len(),
            a.len() == b.len(),
            forall|k: int| 0 <= k < i ==> text::strs(a@)[k] == text::strs(b@)[k],
        decreases a.len() - i,
    {
        if !str_eq(a[i].as_str(), b[i].as_str()) {
            assert(text::strs(a@)[i as int] != text::strs(b@)[i as int]);
            return false;
        }
        i += 1;
    }
    assert(text::strs(a@) =~= text::strs(b@));
    true
}

fn same_violations(a: &Vec<Violation>, b: &Vec<Violation>) -> (r: bool)
    ensures
        r == (rules::violation_views(a@) == rules::violation_views(b@)),
{
    let ghost av = rules::violation_views(a@);
    let ghost bv = rules::violation_views(b@);
    if a.len() != b.len() {
        assert(av.len() != bv.len());
        return false;
    }
    let mut i: usize = 0;
    while i < a.len()
        invariant
            i <= a.len(),
            a.len() == b.len(),
            av == rules::violation_views(a@),
            bv == rules::violation_views(b@),
            forall|k: int| 0 <= k < i ==> av[k] == bv[k],
        decreases a.len() - i,
    {
        proof {
            rules::precedes_total(av[i as int], bv[i as int]);
            rules::precedes_irreflexive(av[i as int]);
        }
        if a[i].before(&b[i]) || b[i].before(&a[i]) {
            assert(av[i as int] != bv[i as int]);
            return false;
        }
        i += 1;
    }
    assert(av =~= bv);
    true
}

fn clone_violations(v: &Vec<Violation>) -> (r: Vec<Violation>)
    ensures
        rules::violation_views(r@) == rules::violation_views(v@),
{
    let mut out: Vec<Violation> = Vec::new();
    let mut i: usize = 0;
    while i < v.len()
        invariant
            i <= v.len(),
            out.len() == i,
            forall|k: int| 0 <= k < i ==> (#[trigger] out@[k])@ == v@[k]@,
        decreases v.len() - i,
    {
        out.push(v[i].duplicate());
        i += 1;
    }
    assert(rules::violation_views(out@) =~= rules::violation_views(v@));
    out
}

// ---------------------------------------------------------------------------
// The engine.
// ---------------------------------------------------------------------------

impl Default for Engine {
    fn default() -> (r: Engine)
        ensures
            r@ == fresh_engine(),
    {
        Engine {
            netlist: None,
            erc: None,
            drc: None,
            current_rev: 0,
            recompute_counts: Counts { netlist: 0, erc: 0, drc: 0 },
        }
    }
}

impl Engine {
    /// An engine that remembers nothing.
    pub fn new() -> (r: Engine)
        ensures
            r@ == fresh_engine(),
    {
        Engine::default()
    }

    /// How often a value was computed.
    pub fn count(&self, key: Key) -> (r: u32)
        ensures
            r == match key {
                Key::Netlist => self@.counts.netlist,
                Key::Erc => self@.counts.erc,
                Key::Drc => self@.counts.drc,
            },
    {
        match key {
            Key::Netlist => self.recompute_counts.netlist,
            Key::Erc => self.recompute_counts.erc,
            Key::Drc => self.recompute_counts.drc,
        }
    }

    fn eval_netlist(&mut self, doc: &Doc, lib: &PartLib)
        requires
            has_room(old(self)@.counts),
        ensures
            final(self)@ == with_netlist(old(self)@, doc@, lib@),
    {
        let now: u64 = self.current_rev;
        match self.netlist.take() {
            Some(m) if m.verified_at == now => {
                self.netlist = Some(m);
            },
            Some(m) if m.conn == doc.conn_rev => {
                self.netlist = Some(
                    NetlistMemo {
                        value: m.value,
                        conn: m.conn,
                        verified_at: now,
                        changed_at: m.changed_at,
                    },
                );
            },
            was => {
                let value = resolve_netlist(doc, lib);
                let changed_at: u64 = match &was {
                    Some(m) => if same_netlist(&m.value, &value) {
                        m.changed_at
                    } else {
                        now
                    },
                    None => now,
                };
                self.recompute_counts.netlist = self.recompute_counts.netlist + 1;
                self.netlist = Some(
                    NetlistMemo {
                        value,
                        conn: doc.input_rev(InputId::Connectivity),
                        verified_at: now,
                        changed_at,
                    },
                );
            },
        }
    }

    fn eval_erc(&mut self, doc: &Doc, lib: &PartLib)
        requires
            has_room(old(self)@.counts),
        ensures
            final(self)@ == with_erc(old(self)@, doc@, lib@),
    {
        let now: u64 = self.current_rev;
        if let Some(m) = &self.erc {
            if m.verified_at == now {
                return;
            }
        }
        self.eval_netlist(doc, lib);
        let (value, stamp) = match &self.netlist {
            Some(nl) => {
                let reused = match &self.erc {
                    Some(m) => nl.changed_at == m.netlist,
                    None => false,
                };
                (if reused {
                    None
                } else {
                    Some(check_erc(&nl.value))
                }, nl.changed_at)
            },
            None => vstd::pervasive::unreached(),
        };
        match (self.erc.take(), value) {
            (Some(m), None) => {
                self.erc = Some(
                    ErcMemo {
                        value: m.value,
                        netlist: m.netlist,
                        verified_at: now,
                        changed_at: m.changed_at,
                    },
                );
            },
            (was, Some(value)) => {
                let changed_at: u64 = match &was {
                    Some(m) => if same_strings(&m.value, &value) {
                        m.changed_at
                    } else {
                        now
                    },
                    None => now,
                };
                self.recompute_counts.erc = self.recompute_counts.erc + 1;
                self.erc = Some(ErcMemo { value, netlist: stamp, verified_at: now, changed_at });
            },
            (None, None) => vstd::pervasive::unreached(),
        }
    }

    fn eval_drc(&mut self, doc: &Doc, lib: &PartLib, ph: &Physical)
        requires
            has_room(old(self)@.counts),
            drc_ready(old(self)@, doc@, lib@, ph@),
        ensures
            final(self)@ == with_drc(old(self)@, doc@, lib@, ph@),
    {
        let now: u64 = self.current_rev;
        if let Some(m) = &self.drc {
            if m.verified_at == now {
                return;
            }
        }
        self.eval_netlist(doc, lib);
        let (value, stamp) = match &self.netlist {
            Some(nl) => {
                let reused = match &self.drc {
                    Some(m) => m.route == doc.input_rev(InputId::Routing) && m.geom
                        == doc.input_rev(InputId::Geometry) && nl.changed_at == m.netlist,
                    None => false,
                };
                (if reused {
                    None
                } else {
                    let rules = DesignRules::default();
                    let found = match check_document(
                        doc,
                        lib,
                        &nl.value,
                        &rules,
                        &ph.su,
                        &ph.src,
                        &ph.fills,
                        &ph.spills,
                        &ph.islands,
                    ) {
                        Ok(found) => found,
                        Err(_) => vstd::pervasive::unreached(),
                    };
                    proof {
                        drc_is_the_list(
                            board_with(doc@, lib@, nl.value@, ph@),
                            rules::violation_views(found@),
                        );
                    }
                    Some(found)
                }, nl.changed_at)
            },
            None => vstd::pervasive::unreached(),
        };
        match (self.drc.take(), value) {
            (Some(m), None) => {
                self.drc = Some(
                    DrcMemo {
                        value: m.value,
                        route: m.route,
                        geom: m.geom,
                        netlist: m.netlist,
                        verified_at: now,
                        changed_at: m.changed_at,
                    },
                );
            },
            (was, Some(value)) => {
                let changed_at: u64 = match &was {
                    Some(m) => if same_violations(&m.value, &value) {
                        m.changed_at
                    } else {
                        now
                    },
                    None => now,
                };
                self.recompute_counts.drc = self.recompute_counts.drc + 1;
                self.drc = Some(
                    DrcMemo {
                        value,
                        route: doc.input_rev(InputId::Routing),
                        geom: doc.input_rev(InputId::Geometry),
                        netlist: stamp,
                        verified_at: now,
                        changed_at,
                    },
                );
            },
            (None, None) => vstd::pervasive::unreached(),
        }
    }

    /// Answer a query at the document's latest revision, computing only what is not known
    /// to be current. `ph` is the geometry of the document; only a design check reads it.
    pub fn query(&mut self, doc: &Doc, lib: &PartLib, ph: &Physical, key: Key) -> (r: QueryValue)
        requires
            has_room(old(self)@.counts),
            key == Key::Drc ==> drc_ready(at_rev(old(self)@, doc@), doc@, lib@, ph@),
        ensures
            final(self)@ == queried(old(self)@, doc@, lib@, ph@, key),
            answer(final(self)@, key) == Some(r@),
    {
        let mut now: u64 = doc.conn_rev;
        if now < doc.geom_rev {
            now = doc.geom_rev;
        }
        if now < doc.route_rev {
            now = doc.route_rev;
        }
        self.current_rev = now;
        match key {
            Key::Netlist => {
                self.eval_netlist(doc, lib);
                match &self.netlist {
                    Some(m) => QueryValue::Netlist(m.value.duplicate()),
                    None => vstd::pervasive::unreached(),
                }
            },
            Key::Erc => {
                self.eval_erc(doc, lib);
                match &self.erc {
                    Some(m) => QueryValue::Erc(text::clone_strings(&m.value)),
                    None => vstd::pervasive::unreached(),
                }
            },
            Key::Drc => {
                self.eval_drc(doc, lib, ph);
                match &self.drc {
                    Some(m) => QueryValue::Drc(clone_violations(&m.value)),
                    None => vstd::pervasive::unreached(),
                }
            },
        }
    }
}

// ---------------------------------------------------------------------------
// Laws.
// ---------------------------------------------------------------------------

/// The violations of a board have one canonical list.
pub proof fn drc_is_the_list(b: Board, vs: Seq<ViolationV>)
    requires
        is_drc(b, vs),
    ensures
        drc_of(b) == vs,
{
    let ws = drc_of(b);
    assert(is_drc(b, ws));
    assert forall|x: ViolationV| vs.contains(x) <==> ws.contains(x) by {}
    rules::canonical_is_unique(vs, ws);
}

/// A netlist has one entry for each net of the document, in the same order.
pub proof fn netlist_has_every_net(d: DocV, lib: Seq<(Seq<char>, PartV)>)
    requires
        doc::doc_wf(d),
    ensures
        netlist_of(d, lib) == Seq::new(
            d.nets.len(),
            |i: int| (d.nets[i].0, resolved_pins(d, lib, d.nets[i].1.members)),
        ),
{
    netlist_prefix_is_a_map(d, lib, d.nets.len());
}

proof fn netlist_prefix_is_a_map(d: DocV, lib: Seq<(Seq<char>, PartV)>, k: nat)
    requires
        names::sorted(d.nets),
        k <= d.nets.len(),
    ensures
        netlist_prefix(d, lib, k) == Seq::new(
            k,
            |i: int| (d.nets[i].0, resolved_pins(d, lib, d.nets[i].1.members)),
        ),
    decreases k,
{
    let f = |i: int| (d.nets[i].0, resolved_pins(d, lib, d.nets[i].1.members));
    if k == 0 {
        assert(netlist_prefix(d, lib, k) =~= Seq::new(k, f));
    } else {
        let m = netlist_prefix(d, lib, (k - 1) as nat);
        netlist_prefix_is_a_map(d, lib, (k - 1) as nat);
        let name = d.nets[k - 1].0;
        names::place_splits(m, name);
        let p = names::place(m, name);
        if p < m.len() {
            assert(text::lex_lt(d.nets[p].0, d.nets[k - 1].0));
            assert(m[p].0 == d.nets[p].0);
        }
        assert(p == m.len());
        assert(netlist_prefix(d, lib, k) =~= Seq::new(k, f));
    }
}

/// A version of a document with its geometry.
pub struct KnownV {
    pub doc: DocV,
    pub ph: PhysicalV,
}

/// The netlist of a version.
pub open spec fn netlist_at(v: KnownV, lib: Seq<(Seq<char>, PartV)>) -> NetlistV {
    netlist_of(v.doc, lib)
}

/// The design-rules check of a version.
pub open spec fn drc_at(v: KnownV, lib: Seq<(Seq<char>, PartV)>) -> Seq<ViolationV> {
    drc_of(board_with(v.doc, lib, netlist_at(v, lib), v.ph))
}

/// Equal revisions of two versions mark equal inputs: the connectivity revision fixes the
/// netlist, the geometry and routing revisions and the netlist fix the check, and the
/// latest revision fixes all three.
pub open spec fn marked_alike(a: KnownV, b: KnownV, lib: Seq<(Seq<char>, PartV)>) -> bool {
    &&& a.doc.conn_rev == b.doc.conn_rev ==> netlist_at(a, lib) == netlist_at(b, lib)
    &&& a.doc.geom_rev == b.doc.geom_rev && a.doc.route_rev == b.doc.route_rev && netlist_at(a, lib)
        == netlist_at(b, lib) ==> drc_at(a, lib) == drc_at(b, lib)
    &&& latest(a.doc) == latest(b.doc) ==> a.doc.conn_rev == b.doc.conn_rev && a.doc.geom_rev
        == b.doc.geom_rev && a.doc.route_rev == b.doc.route_rev
}

/// Equal revisions mark equal inputs among all these versions.
pub open spec fn all_marked(vs: Seq<KnownV>, lib: Seq<(Seq<char>, PartV)>) -> bool {
    forall|i: int, j: int|
        0 <= i < vs.len() && 0 <= j < vs.len() ==> #[trigger] marked_alike(vs[i], vs[j], lib)
}

/// The netlist is that of a version at whose latest revision it changed.
pub open spec fn netlist_since(v: KnownV, lib: Seq<(Seq<char>, PartV)>, n: NetlistMemoV) -> bool {
    n.changed_at == latest(v.doc) && n.value == netlist_at(v, lib)
}

/// The netlist is that of a version at whose latest revision it was verified.
pub open spec fn netlist_verified(
    v: KnownV,
    lib: Seq<(Seq<char>, PartV)>,
    n: NetlistMemoV,
) -> bool {
    n.verified_at == latest(v.doc) && n.value == netlist_at(v, lib)
}

/// The netlist is that of a version whose connectivity it was read from.
pub open spec fn netlist_read(v: KnownV, lib: Seq<(Seq<char>, PartV)>, n: NetlistMemoV) -> bool {
    n.conn == v.doc.conn_rev && n.value == netlist_at(v, lib)
}

/// The electrical check is that of a version at whose latest revision its netlist changed.
pub open spec fn erc_read(v: KnownV, lib: Seq<(Seq<char>, PartV)>, m: ErcMemoV) -> bool {
    m.netlist == latest(v.doc) && m.value == erc_of(netlist_at(v, lib))
}

/// The electrical check is that of a version at whose latest revision it was verified.
pub open spec fn erc_verified(v: KnownV, lib: Seq<(Seq<char>, PartV)>, m: ErcMemoV) -> bool {
    m.verified_at == latest(v.doc) && m.value == erc_of(netlist_at(v, lib))
}

/// The design check is that of the version `v` that it was read from; the netlist of that
/// version changed at the latest revision of `w`, which has the same one.
pub open spec fn drc_read(
    v: KnownV,
    w: KnownV,
    lib: Seq<(Seq<char>, PartV)>,
    m: DrcMemoV,
) -> bool {
    &&& m.route == v.doc.route_rev
    &&& m.geom == v.doc.geom_rev
    &&& m.value == drc_at(v, lib)
    &&& m.netlist == latest(w.doc)
    &&& netlist_at(v, lib) == netlist_at(w, lib)
}

/// The design check is that of a version at whose latest revision it was verified.
pub open spec fn drc_verified(v: KnownV, lib: Seq<(Seq<char>, PartV)>, m: DrcMemoV) -> bool {
    m.verified_at == latest(v.doc) && m.value == drc_at(v, lib)
}

/// Everything that an engine remembers was computed from one of these versions, and its
/// stamps are revisions of theirs.
pub open spec fn remembers(
    s: EngineV,
    vs: Seq<KnownV>,
    lib: Seq<(Seq<char>, PartV)>,
) -> bool {
    &&& match s.netlist {
        Some(n) => {
            &&& exists|i: int| 0 <= i < vs.len() && #[trigger] netlist_since(vs[i], lib, n)
            &&& exists|i: int| 0 <= i < vs.len() && #[trigger] netlist_verified(vs[i], lib, n)
            &&& exists|i: int| 0 <= i < vs.len() && #[trigger] netlist_read(vs[i], lib, n)
        },
        None => true,
    }
    &&& match s.erc {
        Some(m) => {
            &&& exists|i: int| 0 <= i < vs.len() && #[trigger] erc_read(vs[i], lib, m)
            &&& exists|i: int| 0 <= i < vs.len() && #[trigger] erc_verified(vs[i], lib, m)
        },
        None => true,
    }
    &&& match s.drc {
        Some(m) => {
            &&& exists|i: int, j: int|
                0 <= i < vs.len() && 0 <= j < vs.len() && #[trigger] drc_read(
                    vs[i],
                    vs[j],
                    lib,
                    m,
                )
            &&& exists|i: int| 0 <= i < vs.len() && #[trigger] drc_verified(vs[i], lib, m)
        },
        None => true,
    }
}

/// The value of a query, computed from scratch.
pub open spec fn from_scratch(
    d: DocV,
    lib: Seq<(Seq<char>, PartV)>,
    ph: PhysicalV,
    key: Key,
) -> AnswerV {
    let nl = netlist_of(d, lib);
    match key {
        Key::Netlist => AnswerV::Netlist(nl),
        Key::Erc => AnswerV::Erc(erc_of(nl)),
        Key::Drc => AnswerV::Drc(drc_of(board_with(d, lib, nl, ph))),
    }
}

/// A fresh engine remembers nothing that is not of the versions at hand.
pub proof fn fresh_engine_remembers_nothing(vs: Seq<KnownV>, lib: Seq<(Seq<char>, PartV)>)
    ensures
        remembers(fresh_engine(), vs, lib),
{
}

proof fn netlist_is_current(
    s: EngineV,
    vs: Seq<KnownV>,
    lib: Seq<(Seq<char>, PartV)>,
    k: int,
)
    requires
        remembers(s, vs, lib),
        all_marked(vs, lib),
        0 <= k < vs.len(),
        s.current_rev == latest(vs[k].doc),
    ensures
        ({
            let t = with_netlist(s, vs[k].doc, lib);
            &&& remembers(t, vs, lib)
            &&& t.netlist is Some
            &&& netlist_in(t).value == netlist_at(vs[k], lib)
        }),
{
    let d = vs[k].doc;
    let t = with_netlist(s, d, lib);
    let n = netlist_in(t);
    match s.netlist {
        Some(m) => {
            let i = choose|i: int| 0 <= i < vs.len() && #[trigger] netlist_since(vs[i], lib, m);
            let j = choose|j: int| 0 <= j < vs.len() && #[trigger] netlist_verified(vs[j], lib, m);
            let r = choose|r: int| 0 <= r < vs.len() && #[trigger] netlist_read(vs[r], lib, m);
            assert(marked_alike(vs[j], vs[k], lib));
            assert(marked_alike(vs[r], vs[k], lib));
            if m.verified_at == s.current_rev {
                assert(netlist_verified(vs[j], lib, n));
            } else if m.conn == d.conn_rev {
                assert(netlist_since(vs[i], lib, n));
                assert(netlist_verified(vs[k], lib, n));
                assert(netlist_read(vs[r], lib, n));
            } else {
                assert(netlist_verified(vs[k], lib, n));
                assert(netlist_read(vs[k], lib, n));
                if m.value == n.value {
                    assert(netlist_since(vs[i], lib, n));
                } else {
                    assert(netlist_since(vs[k], lib, n));
                }
            }
        },
        None => {
            assert(netlist_since(vs[k], lib, n));
            assert(netlist_verified(vs[k], lib, n));
            assert(netlist_read(vs[k], lib, n));
        },
    }
}

proof fn erc_is_current(s: EngineV, vs: Seq<KnownV>, lib: Seq<(Seq<char>, PartV)>, k: int)
    requires
        remembers(s, vs, lib),
        all_marked(vs, lib),
        0 <= k < vs.len(),
        s.current_rev == latest(vs[k].doc),
    ensures
        ({
            let t = with_erc(s, vs[k].doc, lib);
            &&& remembers(t, vs, lib)
            &&& t.erc matches Some(m) && m.value == erc_of(netlist_at(vs[k], lib))
        }),
{
    let d = vs[k].doc;
    netlist_is_current(s, vs, lib, k);
    let n = netlist_in(with_netlist(s, d, lib));
    let i = choose|i: int| 0 <= i < vs.len() && #[trigger] netlist_since(vs[i], lib, n);
    let e = with_erc(s, d, lib).erc->0;
    match s.erc {
        Some(m) => {
            let j = choose|j: int| 0 <= j < vs.len() && #[trigger] erc_read(vs[j], lib, m);
            let r = choose|r: int| 0 <= r < vs.len() && #[trigger] erc_verified(vs[r], lib, m);
            assert(marked_alike(vs[r], vs[k], lib));
            assert(marked_alike(vs[i], vs[j], lib));
            if m.verified_at != s.current_rev {
                assert(erc_verified(vs[k], lib, e));
                if n.changed_at == m.netlist {
                    assert(erc_read(vs[j], lib, e));
                } else {
                    assert(erc_read(vs[i], lib, e));
                }
            }
        },
        None => {
            assert(erc_verified(vs[k], lib, e));
            assert(erc_read(vs[i], lib, e));
        },
    }
}

proof fn drc_is_current(s: EngineV, vs: Seq<KnownV>, lib: Seq<(Seq<char>, PartV)>, k: int)
    requires
        remembers(s, vs, lib),
        all_marked(vs, lib),
        0 <= k < vs.len(),
        s.current_rev == latest(vs[k].doc),
    ensures
        ({
            let t = with_drc(s, vs[k].doc, lib, vs[k].ph);
            &&& remembers(t, vs, lib)
            &&& t.drc matches Some(m) && m.value == drc_at(vs[k], lib)
        }),
{
    let d = vs[k].doc;
    netlist_is_current(s, vs, lib, k);
    let n = netlist_in(with_netlist(s, d, lib));
    let i = choose|i: int| 0 <= i < vs.len() && #[trigger] netlist_since(vs[i], lib, n);
    let e = with_drc(s, d, lib, vs[k].ph).drc->0;
    match s.drc {
        Some(m) => {
            let (a, b) = choose|a: int, b: int|
                0 <= a < vs.len() && 0 <= b < vs.len() && #[trigger] drc_read(
                    vs[a],
                    vs[b],
                    lib,
                    m,
                );
            let r = choose|r: int| 0 <= r < vs.len() && #[trigger] drc_verified(vs[r], lib, m);
            assert(marked_alike(vs[r], vs[k], lib));
            assert(marked_alike(vs[i], vs[b], lib));
            assert(marked_alike(vs[a], vs[k], lib));
            if m.verified_at != s.current_rev {
                if drc_reused(s, d, lib) {
                    assert(drc_read(vs[a], vs[b], lib, e));
                } else {
                    assert(drc_read(vs[k], vs[i], lib, e));
                }
                assert(drc_verified(vs[k], lib, e));
            }
        },
        None => {
            assert(drc_read(vs[k], vs[i], lib, e));
            assert(drc_verified(vs[k], lib, e));
        },
    }
}

/// Remembering never shows: an engine that has been asked about any of these versions, in
/// any order, answers about each of them what a computation from scratch answers, and what
/// it remembers is still theirs.
pub proof fn answers_as_from_scratch(
    s: EngineV,
    vs: Seq<KnownV>,
    lib: Seq<(Seq<char>, PartV)>,
    k: int,
    key: Key,
)
    requires
        remembers(s, vs, lib),
        all_marked(vs, lib),
        0 <= k < vs.len(),
    ensures
        ({
            let t = queried(s, vs[k].doc, lib, vs[k].ph, key);
            &&& answer(t, key) == Some(from_scratch(vs[k].doc, lib, vs[k].ph, key))
            &&& remembers(t, vs, lib)
        }),
{
    let t = at_rev(s, vs[k].doc);
    netlist_is_current(t, vs, lib, k);
    erc_is_current(t, vs, lib, k);
    drc_is_current(t, vs, lib, k);
}

/// A further version takes nothing from what an engine remembers.
pub proof fn memory_outlives_a_commit(
    s: EngineV,
    vs: Seq<KnownV>,
    lib: Seq<(Seq<char>, PartV)>,
    next: KnownV,
)
    requires
        remembers(s, vs, lib),
    ensures
        remembers(s, vs.push(next), lib),
{
    let ws = vs.push(next);
    assert forall|i: int| 0 <= i < vs.len() implies #[trigger] ws[i] == vs[i] by {}
    if let Some(n) = s.netlist {
        let i = choose|i: int| 0 <= i < vs.len() && #[trigger] netlist_since(vs[i], lib, n);
        let j = choose|j: int| 0 <= j < vs.len() && #[trigger] netlist_verified(vs[j], lib, n);
        let r = choose|r: int| 0 <= r < vs.len() && #[trigger] netlist_read(vs[r], lib, n);
        assert(netlist_since(ws[i], lib, n));
        assert(netlist_verified(ws[j], lib, n));
        assert(netlist_read(ws[r], lib, n));
    }
    if let Some(m) = s.erc {
        let j = choose|j: int| 0 <= j < vs.len() && #[trigger] erc_read(vs[j], lib, m);
        let r = choose|r: int| 0 <= r < vs.len() && #[trigger] erc_verified(vs[r], lib, m);
        assert(erc_read(ws[j], lib, m));
        assert(erc_verified(ws[r], lib, m));
    }
    if let Some(m) = s.drc {
        let (a, b) = choose|a: int, b: int|
            0 <= a < vs.len() && 0 <= b < vs.len() && #[trigger] drc_read(vs[a], vs[b], lib, m);
        let r = choose|r: int| 0 <= r < vs.len() && #[trigger] drc_verified(vs[r], lib, m);
        assert(drc_read(ws[a], ws[b], lib, m));
        assert(drc_verified(ws[r], lib, m));
    }
}

/// The commit of `next` on version `p` stamps what it edits with a tick later than every
/// revision there is, and leaves the other revisions and inputs as they are.
pub open spec fn stamped_commit(
    vs: Seq<KnownV>,
    lib: Seq<(Seq<char>, PartV)>,
    p: int,
    next: KnownV,
    tick: u64,
) -> bool {
    &&& forall|i: int| 0 <= i < vs.len() ==> latest((#[trigger] vs[i]).doc) < tick
    &&& next.doc.conn_rev == tick || (next.doc.conn_rev == vs[p].doc.conn_rev && netlist_at(
        next,
        lib,
    ) == netlist_at(vs[p], lib))
    &&& next.doc.geom_rev == tick || next.doc.geom_rev == vs[p].doc.geom_rev
    &&& next.doc.route_rev == tick || next.doc.route_rev == vs[p].doc.route_rev
    &&& forall|i: int|
        0 <= i < vs.len() && (#[trigger] vs[i]).doc.geom_rev == next.doc.geom_rev
            && vs[i].doc.route_rev == next.doc.route_rev && netlist_at(vs[i], lib) == netlist_at(
            next,
            lib,
        ) ==> drc_at(vs[i], lib) == drc_at(next, lib)
}

/// A commit at a new tick keeps it so that equal revisions mark equal inputs, whichever
/// version it is made on.
pub proof fn ticks_mark_versions(
    vs: Seq<KnownV>,
    lib: Seq<(Seq<char>, PartV)>,
    p: int,
    next: KnownV,
    tick: u64,
)
    requires
        all_marked(vs, lib),
        0 <= p < vs.len(),
        stamped_commit(vs, lib, p, next, tick),
    ensures
        all_marked(vs.push(next), lib),
        forall|i: int|
            0 <= i <= vs.len() ==> latest((#[trigger] vs.push(next)[i]).doc) <= tick,
{
    let ws = vs.push(next);
    assert(latest(vs[p].doc) < tick);
    assert forall|i: int| 0 <= i < vs.len() implies marked_alike(vs[i], next, lib)
        && marked_alike(next, vs[i], lib) by {
        assert(latest(vs[i].doc) < tick);
        assert(marked_alike(vs[i], vs[p], lib));
        assert(marked_alike(vs[p], vs[i], lib));
    }
    assert forall|i: int, j: int| 0 <= i < ws.len() && 0 <= j < ws.len() implies
        #[trigger] marked_alike(ws[i], ws[j], lib) by {
        if i < vs.len() && j < vs.len() {
            assert(marked_alike(vs[i], vs[j], lib));
        }
    }
    assert forall|i: int| 0 <= i <= vs.len() implies latest((#[trigger] ws[i]).doc) <= tick by {
        if i < vs.len() {
            assert(latest(vs[i].doc) < tick);
        }
    }
}

/// The versions of a history, each with its geometry.
pub open spec fn known_versions(h: HistoryV, phs: Seq<PhysicalV>) -> Seq<KnownV> {
    Seq::new(h.versions.len(), |i: int| KnownV { doc: h.versions[i].doc, ph: phs[i] })
}

/// An engine that has been asked along a history, as it was committed to, undone and
/// checked out, answers about its document what a fresh engine answers; and what it
/// remembers is of the versions of the history still after the next commit, undo or
/// checkout.
pub proof fn answers_along_a_history(
    s: EngineV,
    h: HistoryV,
    phs: Seq<PhysicalV>,
    lib: Seq<(Seq<char>, PartV)>,
    key: Key,
    next: KnownV,
    label: Seq<char>,
)
    requires
        history::history_wf(h),
        phs.len() == h.versions.len(),
        all_marked(known_versions(h, phs), lib),
        remembers(s, known_versions(h, phs), lib),
    ensures
        ({
            let d = history::head_doc(h);
            let ph = phs[h.head];
            let t = queried(s, d, lib, ph, key);
            &&& answer(t, key) == answer(queried(fresh_engine(), d, lib, ph, key), key)
            &&& answer(t, key) == Some(from_scratch(d, lib, ph, key))
            &&& remembers(t, known_versions(h, phs), lib)
            &&& remembers(t, known_versions(history::undone(h), phs), lib)
            &&& remembers(t, known_versions(history::refused(h), phs), lib)
            &&& forall|v: int|
                #![trigger h.versions[v]]
                remembers(t, known_versions(HistoryV { head: v, ..h }, phs), lib)
            &&& remembers(
                t,
                known_versions(history::committed(h, next.doc, label), phs.push(next.ph)),
                lib,
            )
        }),
{
    let vs = known_versions(h, phs);
    answers_as_from_scratch(s, vs, lib, h.head, key);
    fresh_engine_remembers_nothing(vs, lib);
    answers_as_from_scratch(fresh_engine(), vs, lib, h.head, key);
    let t = queried(s, history::head_doc(h), lib, phs[h.head], key);
    memory_outlives_a_commit(t, vs, lib, next);
    assert(known_versions(history::committed(h, next.doc, label), phs.push(next.ph)) =~= vs.push(
        next,
    ));
    assert(known_versions(history::undone(h), phs) =~= vs);
    assert(known_versions(history::refused(h), phs) =~= vs);
    assert forall|v: int|
        #![trigger h.versions[v]]
        remembers(t, known_versions(HistoryV { head: v, ..h }, phs), lib) by {
        assert(known_versions(HistoryV { head: v, ..h }, phs) =~= vs);
    }
}

/// Asking twice: the second time the memory is left as it is, so nothing is computed.
pub proof fn asking_again_changes_nothing(
    s: EngineV,
    d: DocV,
    lib: Seq<(Seq<char>, PartV)>,
    ph: PhysicalV,
    key: Key,
)
    ensures
        queried(queried(s, d, lib, ph, key), d, lib, ph, key) == queried(s, d, lib, ph, key),
{
}

/// An edit that leaves the connectivity alone computes neither the netlist nor the
/// electrical check again.
pub proof fn other_edits_keep_netlist_and_erc(
    s: EngineV,
    d: DocV,
    lib: Seq<(Seq<char>, PartV)>,
    ph: PhysicalV,
    key: Key,
)
    requires
        s.netlist matches Some(n) && n.conn == d.conn_rev,
        s.erc matches Some(m) && netlist_in(s).changed_at == m.netlist,
    ensures
        queried(s, d, lib, ph, key).counts.netlist == s.counts.netlist,
        queried(s, d, lib, ph, key).counts.erc == s.counts.erc,
{
}

/// Early cutoff: a connectivity edit after which the netlist comes out equal computes the
/// netlist again, and neither check.
pub proof fn equal_netlist_keeps_the_checks(
    s: EngineV,
    d: DocV,
    lib: Seq<(Seq<char>, PartV)>,
    ph: PhysicalV,
)
    requires
        s.netlist matches Some(n) && n.conn != d.conn_rev && n.verified_at != latest(d) && n.value
            == netlist_of(d, lib),
        s.counts.netlist < u32::MAX,
    ensures
        s.erc matches Some(m) && m.verified_at != latest(d) && netlist_in(s).changed_at
            == m.netlist ==> {
            let t = queried(s, d, lib, ph, Key::Erc);
            t.counts == (Counts { netlist: (s.counts.netlist + 1) as u32, ..s.counts })
        },
        s.drc matches Some(m) && m.verified_at != latest(d) && netlist_in(s).changed_at == m.netlist
            && m.route == d.route_rev && m.geom == d.geom_rev ==> {
            let t = queried(s, d, lib, ph, Key::Drc);
            t.counts == (Counts { netlist: (s.counts.netlist + 1) as u32, ..s.counts })
        },
{
}

/// A query computes each value at most once, and a design check never computes the
/// electrical one nor the other way round.
pub proof fn a_query_computes_once(
    s: EngineV,
    d: DocV,
    lib: Seq<(Seq<char>, PartV)>,
    ph: PhysicalV,
    key: Key,
)
    requires
        has_room(s.counts),
    ensures
        ({
            let c = queried(s, d, lib, ph, key).counts;
            &&& s.counts.netlist <= c.netlist <= s.counts.netlist + 1
            &&& s.counts.erc <= c.erc <= s.counts.erc + 1
            &&& s.counts.drc <= c.drc <= s.counts.drc + 1
            &&& key != Key::Erc ==> c.erc == s.counts.erc
            &&& key != Key::Drc ==> c.drc == s.counts.drc
        }),
{
}

} // verus!
