//! The document: placed components, nets, routed copper, and the input revisions the
//! derived queries depend on.

use crate::coord::{Orient, Point};
use crate::id::{EntityId, TraceId, ViaId};
use crate::names;
use crate::names::{Duplicate, NameMap};
use crate::numbered;
use crate::numbered::NumberMap;
use crate::route::layer::{Trace, TraceV, Via, ViaV};
use crate::text;
use crate::text::{clone_opt_string, str_eq};
use vstd::prelude::*;

verus! {

/// Who decided a degree of freedom.
#[derive(Clone, Copy, Debug, PartialEq, Eq, Structural)]
pub enum Provenance {
    Free,
    Hint,
    Pinned,
    Fixed,
}

/// A position with its provenance.
#[derive(Clone, Copy, Debug, PartialEq, Eq, Structural)]
pub struct Dof {
    pub value: Point,
    pub prov: Provenance,
}

/// A placed part instance.
#[derive(Debug, PartialEq, Eq)]
pub struct Component {
    pub id: EntityId,
    pub part: String,
    pub pos: Dof,
    pub orient: Orient,
    pub params: NameMap<String>,
    pub label: Option<String>,
}

/// A component as a value.
#[verifier::ext_equal]
pub struct ComponentV {
    pub id: Seq<char>,
    pub part: Seq<char>,
    pub pos: Dof,
    pub orient: Orient,
    pub params: Seq<(Seq<char>, Seq<char>)>,
    pub label: Option<Seq<char>>,
}

impl View for Component {
    type V = ComponentV;

    open spec fn view(&self) -> ComponentV {
        ComponentV {
            id: self.id@,
            part: self.part@,
            pos: self.pos,
            orient: self.orient,
            params: self.params@,
            label: text::opt_str(self.label),
        }
    }
}

impl Duplicate for Component {
    fn duplicate(&self) -> (r: Component) {
        Component {
            id: self.id.duplicate(),
            part: self.part.clone(),
            pos: self.pos,
            orient: self.orient,
            params: self.params.duplicate(),
            label: clone_opt_string(&self.label),
        }
    }
}

/// A pin of a component: a pad number, or `port.signal`.
#[derive(Debug, PartialEq, Eq)]
pub struct PinRef {
    pub comp: EntityId,
    pub pin: String,
}

/// A pin reference as a value.
pub struct PinRefV {
    pub comp: Seq<char>,
    pub pin: Seq<char>,
}

impl View for PinRef {
    type V = PinRefV;

    open spec fn view(&self) -> PinRefV {
        PinRefV { comp: self.comp@, pin: self.pin@ }
    }
}

impl Duplicate for PinRef {
    fn duplicate(&self) -> (r: PinRef) {
        PinRef { comp: self.comp.duplicate(), pin: self.pin.clone() }
    }
}

impl PinRef {
    /// Pin `pin` of component `comp`.
    pub fn new(comp: &EntityId, pin: &str) -> (r: PinRef)
        ensures
            r@ == (PinRefV { comp: comp@, pin: pin@ }),
    {
        PinRef { comp: comp.duplicate(), pin: pin.to_owned() }
    }

    /// Do two references name the same pin?
    pub fn same(&self, o: &PinRef) -> (r: bool)
        ensures
            r == (self@ == o@),
    {
        self.comp.same(&o.comp) && str_eq(self.pin.as_str(), o.pin.as_str())
    }
}

/// The values of a list of pin references.
pub open spec fn pin_refs(v: Seq<PinRef>) -> Seq<PinRefV> {
    Seq::new(v.len(), |i: int| v[i]@)
}

/// A named net and its member pins.
#[derive(Debug, PartialEq, Eq)]
pub struct Net {
    pub name: String,
    pub members: Vec<PinRef>,
}

/// A net as a value.
#[verifier::ext_equal]
pub struct NetV {
    pub name: Seq<char>,
    pub members: Seq<PinRefV>,
}

impl View for Net {
    type V = NetV;

    open spec fn view(&self) -> NetV {
        NetV { name: self.name@, members: pin_refs(self.members@) }
    }
}

impl Duplicate for Net {
    fn duplicate(&self) -> (r: Net) {
        let mut members: Vec<PinRef> = Vec::new();
        let mut i: usize = 0;
        while i < self.members.len()
            invariant
                i <= self.members.len(),
                members.len() == i,
                forall|k: int| 0 <= k < i ==> (#[trigger] members@[k])@ == self.members@[k]@,
            decreases self.members.len() - i,
        {
            members.push(self.members[i].duplicate());
            i += 1;
        }
        let r = Net { name: self.name.clone(), members };
        assert(r@ =~= self@);
        r
    }
}

/// Why a placement hint was dropped.
#[derive(Clone, Copy, Debug, PartialEq, Eq, Structural)]
pub enum DecayReason {
    RedundantWithDefault,
    OverriddenByConstraint,
}

/// What re-elaboration found when it reconciled overrides with the source.
#[derive(Debug, PartialEq, Eq)]
pub struct ReconReport {
    pub decayed: Vec<(EntityId, DecayReason)>,
    pub pin_conflicts: Vec<EntityId>,
    pub redundant_pins: Vec<EntityId>,
    pub orphaned: Vec<EntityId>,
}

/// The identities of a list of entities.
pub open spec fn ids(v: Seq<EntityId>) -> Seq<Seq<char>> {
    Seq::new(v.len(), |i: int| v[i]@)
}

/// Decayed hints as values.
pub open spec fn decays(v: Seq<(EntityId, DecayReason)>) -> Seq<(Seq<char>, DecayReason)> {
    Seq::new(v.len(), |i: int| (v[i].0@, v[i].1))
}

/// A reconciliation report as a value.
#[verifier::ext_equal]
pub struct ReportV {
    pub decayed: Seq<(Seq<char>, DecayReason)>,
    pub pin_conflicts: Seq<Seq<char>>,
    pub redundant_pins: Seq<Seq<char>>,
    pub orphaned: Seq<Seq<char>>,
}

impl View for ReconReport {
    type V = ReportV;

    open spec fn view(&self) -> ReportV {
        ReportV {
            decayed: decays(self.decayed@),
            pin_conflicts: ids(self.pin_conflicts@),
            redundant_pins: ids(self.redundant_pins@),
            orphaned: ids(self.orphaned@),
        }
    }
}

fn clone_ids(v: &Vec<EntityId>) -> (r: Vec<EntityId>)
    ensures
        ids(r@) == ids(v@),
{
    let mut out: Vec<EntityId> = Vec::new();
    let mut i: usize = 0;
    while i < v.len()
        invariant
            i <= v.len(),
            out.len() == i,
            forall|k: int| 0 <= k < i ==> (#[trigger] out@[k])@ == v@[k]@,
        decreases v.len() - i,
    {
        out.push(v[i].duplicate());
        i += 1;
    }
    assert(ids(out@) =~= ids(v@));
    out
}

impl Duplicate for ReconReport {
    fn duplicate(&self) -> (r: ReconReport) {
        let mut decayed: Vec<(EntityId, DecayReason)> = Vec::new();
        let mut i: usize = 0;
        while i < self.decayed.len()
            invariant
                i <= self.decayed.len(),
                decayed.len() == i,
                forall|k: int|
                    0 <= k < i ==> (#[trigger] decayed@[k]).0@ == self.decayed@[k].0@ && decayed@[k].1
                        == self.decayed@[k].1,
            decreases self.decayed.len() - i,
        {
            decayed.push((self.decayed[i].0.duplicate(), self.decayed[i].1));
            i += 1;
        }
        let r = ReconReport {
            decayed,
            pin_conflicts: clone_ids(&self.pin_conflicts),
            redundant_pins: clone_ids(&self.redundant_pins),
            orphaned: clone_ids(&self.orphaned),
        };
        assert(r@ =~= self@);
        r
    }
}

/// Nothing to report.
pub open spec fn report_clean(r: ReportV) -> bool {
    r.decayed.len() == 0 && r.pin_conflicts.len() == 0 && r.redundant_pins.len() == 0
        && r.orphaned.len() == 0
}

impl ReconReport {
    /// An empty report.
    pub fn new() -> (r: ReconReport)
        ensures
            report_clean(r@),
    {
        ReconReport {
            decayed: Vec::new(),
            pin_conflicts: Vec::new(),
            redundant_pins: Vec::new(),
            orphaned: Vec::new(),
        }
    }

    /// Is there nothing to report?
    pub fn is_clean(&self) -> (r: bool)
        ensures
            r == report_clean(self@),
    {
        self.decayed.len() == 0 && self.pin_conflicts.len() == 0 && self.redundant_pins.len() == 0
            && self.orphaned.len() == 0
    }
}

/// The three inputs the derived queries read.
#[derive(Clone, Copy, Debug, PartialEq, Eq, Structural)]
pub enum InputId {
    Connectivity,
    Geometry,
    Routing,
}

/// A document.
#[derive(Debug, PartialEq, Eq)]
pub struct Doc {
    pub components: NameMap<Component>,
    pub nets: NameMap<Net>,
    pub traces: NumberMap<TraceId, Trace>,
    pub vias: NumberMap<ViaId, Via>,
    pub report: ReconReport,
    pub conn_rev: u64,
    pub geom_rev: u64,
    pub route_rev: u64,
}

/// A document as a value.
#[verifier::ext_equal]
pub struct DocV {
    pub components: Seq<(Seq<char>, ComponentV)>,
    pub nets: Seq<(Seq<char>, NetV)>,
    pub traces: Seq<(TraceId, TraceV)>,
    pub vias: Seq<(ViaId, ViaV)>,
    pub report: ReportV,
    pub conn_rev: u64,
    pub geom_rev: u64,
    pub route_rev: u64,
}

impl View for Doc {
    type V = DocV;

    open spec fn view(&self) -> DocV {
        DocV {
            components: self.components@,
            nets: self.nets@,
            traces: self.traces@,
            vias: self.vias@,
            report: self.report@,
            conn_rev: self.conn_rev,
            geom_rev: self.geom_rev,
            route_rev: self.route_rev,
        }
    }
}

impl Duplicate for Doc {
    fn duplicate(&self) -> (r: Doc) {
        Doc {
            components: self.components.duplicate(),
            nets: self.nets.duplicate(),
            traces: self.traces.duplicate(),
            vias: self.vias.duplicate(),
            report: self.report.duplicate(),
            conn_rev: self.conn_rev,
            geom_rev: self.geom_rev,
            route_rev: self.route_rev,
        }
    }
}

/// Components and nets are in the order of their names, traces and vias in that of their
/// numbers, and none is there twice.
pub open spec fn doc_wf(d: DocV) -> bool {
    &&& names::sorted(d.components)
    &&& names::sorted(d.nets)
    &&& numbered::ascending(d.traces)
    &&& numbered::ascending(d.vias)
}

/// The documents place the same components and route the same copper.
pub open spec fn same_layout(a: DocV, b: DocV) -> bool {
    a.components == b.components && a.traces == b.traces && a.vias == b.vias
}

/// The revision of an input.
pub open spec fn rev_of(d: DocV, which: InputId) -> u64 {
    match which {
        InputId::Connectivity => d.conn_rev,
        InputId::Geometry => d.geom_rev,
        InputId::Routing => d.route_rev,
    }
}

/// The empty document.
pub open spec fn empty_doc() -> DocV {
    DocV {
        components: Seq::empty(),
        nets: Seq::empty(),
        traces: Seq::empty(),
        vias: Seq::empty(),
        report: ReportV {
            decayed: Seq::empty(),
            pin_conflicts: Seq::empty(),
            redundant_pins: Seq::empty(),
            orphaned: Seq::empty(),
        },
        conn_rev: 0,
        geom_rev: 0,
        route_rev: 0,
    }
}

impl Default for Doc {
    fn default() -> (r: Doc)
        ensures
            r@ == empty_doc(),
    {
        let r = Doc {
            components: NameMap::new(),
            nets: NameMap::new(),
            traces: NumberMap::new(),
            vias: NumberMap::new(),
            report: ReconReport::new(),
            conn_rev: 0,
            geom_rev: 0,
            route_rev: 0,
        };
        assert(r@.report.decayed =~= empty_doc().report.decayed);
        assert(r@.report.pin_conflicts =~= empty_doc().report.pin_conflicts);
        assert(r@.report.redundant_pins =~= empty_doc().report.redundant_pins);
        assert(r@.report.orphaned =~= empty_doc().report.orphaned);
        r
    }
}

impl Doc {
    /// Every document is well-formed.
    pub fn ordered(&self)
        ensures
            doc_wf(self@),
    {
        self.components.ordered();
        self.nets.ordered();
        self.traces.ordered();
        self.vias.ordered();
    }

    /// The revision of an input.
    pub fn input_rev(&self, which: InputId) -> (r: u64)
        ensures
            r == rev_of(self@, which),
    {
        match which {
            InputId::Connectivity => self.conn_rev,
            InputId::Geometry => self.geom_rev,
            InputId::Routing => self.route_rev,
        }
    }
}

} // verus!
