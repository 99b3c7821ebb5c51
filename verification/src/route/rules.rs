//! Design rules and the violations a check reports.

use crate::coord::Nm;
use crate::geom::stackup::KeepoutKind;
use crate::id::{NetId, TraceId};
use crate::names::Duplicate;
use crate::text;
use crate::text::{cat3, int_string, str_lt};
use vstd::prelude::*;

verus! {

/// Manufacturing rules.
#[derive(Clone, Copy, Debug, PartialEq, Eq, Structural)]
pub struct DesignRules {
    /// The smallest gap between copper of different nets.
    pub min_clearance: Nm,
    /// The smallest trace width.
    pub min_trace_width: Nm,
    /// How near counts as touching when nets are traced.
    pub touch_tol: Nm,
    /// The smallest gap from copper to a keep-out. At zero, copper that overlaps the
    /// keep-out violates it, and copper that only touches it does not.
    pub keepout_clearance: Nm,
    /// The smallest gap from copper to the board edge and to cutouts.
    pub edge_clearance: Nm,
}

impl Default for DesignRules {
    /// A generic two-layer process.
    fn default() -> (r: DesignRules)
        ensures
            r == (DesignRules {
                min_clearance: 150_000,
                min_trace_width: 150_000,
                touch_tol: 10_000,
                keepout_clearance: 0,
                edge_clearance: 200_000,
            }),
    {
        DesignRules {
            min_clearance: 150_000,
            min_trace_width: 150_000,
            touch_tol: 10_000,
            keepout_clearance: 0,
            edge_clearance: 200_000,
        }
    }
}

/// One violation of the rules.
#[derive(Debug, PartialEq, Eq, PartialOrd, Ord)]
pub enum Violation {
    /// Copper of two nets is too close on a copper slab; the nets are in order.
    Clearance { a: NetId, b: NetId, layer: String },
    /// A trace is too narrow.
    MinWidth { trace: TraceId, width: Nm },
    /// The pins of a net fall into more than one group.
    Unrouted { net: NetId, islands: usize },
    /// Copper reaches into a keep-out.
    Keepout { net: NetId, kind: KeepoutKind },
    /// Copper is too close to the board edge.
    EdgeClearance { net: NetId },
}

/// A violation as a value.
pub enum ViolationV {
    Clearance { a: Seq<char>, b: Seq<char>, layer: Seq<char> },
    MinWidth { trace: TraceId, width: Nm },
    Unrouted { net: Seq<char>, islands: usize },
    Keepout { net: Seq<char>, kind: KeepoutKind },
    EdgeClearance { net: Seq<char> },
}

impl View for Violation {
    type V = ViolationV;

    open spec fn view(&self) -> ViolationV {
        match self {
            Violation::Clearance { a, b, layer } => ViolationV::Clearance {
                a: a@,
                b: b@,
                layer: layer@,
            },
            Violation::MinWidth { trace, width } => ViolationV::MinWidth {
                trace: *trace,
                width: *width,
            },
            Violation::Unrouted { net, islands } => ViolationV::Unrouted {
                net: net@,
                islands: *islands,
            },
            Violation::Keepout { net, kind } => ViolationV::Keepout { net: net@, kind: *kind },
            Violation::EdgeClearance { net } => ViolationV::EdgeClearance { net: net@ },
        }
    }
}

impl Duplicate for Violation {
    fn duplicate(&self) -> (r: Violation) {
        match self {
            Violation::Clearance { a, b, layer } => Violation::Clearance {
                a: a.duplicate(),
                b: b.duplicate(),
                layer: layer.clone(),
            },
            Violation::MinWidth { trace, width } => Violation::MinWidth {
                trace: *trace,
                width: *width,
            },
            Violation::Unrouted { net, islands } => Violation::Unrouted {
                net: net.duplicate(),
                islands: *islands,
            },
            Violation::Keepout { net, kind } => Violation::Keepout {
                net: net.duplicate(),
                kind: *kind,
            },
            Violation::EdgeClearance { net } => Violation::EdgeClearance { net: net.duplicate() },
        }
    }
}

/// The values of a list of violations.
pub open spec fn violation_views(v: Seq<Violation>) -> Seq<ViolationV> {
    Seq::new(v.len(), |i: int| v[i]@)
}

// ---------------------------------------------------------------------------
// The canonical order.
// ---------------------------------------------------------------------------

/// The place of the kind of a violation in the order.
pub open spec fn kind_rank(v: ViolationV) -> int {
    match v {
        ViolationV::Clearance { .. } => 0,
        ViolationV::MinWidth { .. } => 1,
        ViolationV::Unrouted { .. } => 2,
        ViolationV::Keepout { .. } => 3,
        ViolationV::EdgeClearance { .. } => 4,
    }
}

/// The place of a kind of keep-out in the order.
pub open spec fn keepout_rank(k: KeepoutKind) -> int {
    match k {
        KeepoutKind::Copper => 0,
        KeepoutKind::Component => 1,
        KeepoutKind::Drill => 2,
        KeepoutKind::Route => 3,
    }
}

/// The order of violations: by kind, then by their parts from left to right.
pub open spec fn precedes(v: ViolationV, w: ViolationV) -> bool {
    match (v, w) {
        (
            ViolationV::Clearance { a, b, layer },
            ViolationV::Clearance { a: c, b: d, layer: m },
        ) => text::lex_lt(a, c) || (a == c && (text::lex_lt(b, d) || (b == d && text::lex_lt(
            layer,
            m,
        )))),
        (ViolationV::MinWidth { trace, width }, ViolationV::MinWidth { trace: t, width: u }) => {
            trace.0 < t.0 || (trace == t && width < u)
        },
        (
            ViolationV::Unrouted { net, islands },
            ViolationV::Unrouted { net: n, islands: i },
        ) => text::lex_lt(net, n) || (net == n && islands < i),
        (ViolationV::Keepout { net, kind }, ViolationV::Keepout { net: n, kind: k }) => {
            text::lex_lt(net, n) || (net == n && keepout_rank(kind) < keepout_rank(k))
        },
        (ViolationV::EdgeClearance { net }, ViolationV::EdgeClearance { net: n }) => text::lex_lt(
            net,
            n,
        ),
        _ => kind_rank(v) < kind_rank(w),
    }
}

/// The order is total.
pub proof fn precedes_total(v: ViolationV, w: ViolationV)
    ensures
        v == w || precedes(v, w) || precedes(w, v),
{
    match (v, w) {
        (
            ViolationV::Clearance { a, b, layer },
            ViolationV::Clearance { a: c, b: d, layer: m },
        ) => {
            text::lex_lt_total(a, c);
            text::lex_lt_total(b, d);
            text::lex_lt_total(layer, m);
        },
        (
            ViolationV::Unrouted { net, islands },
            ViolationV::Unrouted { net: n, islands: i },
        ) => {
            text::lex_lt_total(net, n);
        },
        (ViolationV::Keepout { net, kind }, ViolationV::Keepout { net: n, kind: k }) => {
            text::lex_lt_total(net, n);
        },
        (ViolationV::EdgeClearance { net }, ViolationV::EdgeClearance { net: n }) => {
            text::lex_lt_total(net, n);
        },
        _ => {},
    }
}

/// No violation precedes itself.
pub proof fn precedes_irreflexive(v: ViolationV)
    ensures
        !precedes(v, v),
{
    match v {
        ViolationV::Clearance { a, b, layer } => {
            text::lex_lt_irreflexive(a);
            text::lex_lt_irreflexive(b);
            text::lex_lt_irreflexive(layer);
        },
        ViolationV::Unrouted { net, islands } => {
            text::lex_lt_irreflexive(net);
        },
        ViolationV::Keepout { net, kind } => {
            text::lex_lt_irreflexive(net);
        },
        ViolationV::EdgeClearance { net } => {
            text::lex_lt_irreflexive(net);
        },
        _ => {},
    }
}

proof fn lex_chain(a: Seq<char>, b: Seq<char>, c: Seq<char>)
    ensures
        text::lex_lt(a, b) && text::lex_lt(b, c) ==> text::lex_lt(a, c),
{
    if text::lex_lt(a, b) && text::lex_lt(b, c) {
        text::lex_lt_transitive(a, b, c);
    }
}

/// The order is transitive.
pub proof fn precedes_transitive(u: ViolationV, v: ViolationV, w: ViolationV)
    requires
        precedes(u, v),
        precedes(v, w),
    ensures
        precedes(u, w),
{
    match (u, v, w) {
        (
            ViolationV::Clearance { a, b, layer },
            ViolationV::Clearance { a: c, b: d, layer: m },
            ViolationV::Clearance { a: e, b: f, layer: n },
        ) => {
            lex_chain(a, c, e);
            lex_chain(b, d, f);
            lex_chain(layer, m, n);
        },
        (
            ViolationV::Unrouted { net: a, islands },
            ViolationV::Unrouted { net: b, islands: i },
            ViolationV::Unrouted { net: c, islands: j },
        ) => {
            lex_chain(a, b, c);
        },
        (
            ViolationV::Keepout { net: a, kind },
            ViolationV::Keepout { net: b, kind: k },
            ViolationV::Keepout { net: c, kind: l },
        ) => {
            lex_chain(a, b, c);
        },
        (
            ViolationV::EdgeClearance { net: a },
            ViolationV::EdgeClearance { net: b },
            ViolationV::EdgeClearance { net: c },
        ) => {
            lex_chain(a, b, c);
        },
        _ => {},
    }
}

/// Each violation precedes the next, so none stands twice.
pub open spec fn canonical(v: Seq<ViolationV>) -> bool {
    forall|i: int, j: int| 0 <= i < j < v.len() ==> #[trigger] precedes(v[i], v[j])
}

/// Two canonical lists with the same members are the same list.
pub proof fn canonical_is_unique(v: Seq<ViolationV>, w: Seq<ViolationV>)
    requires
        canonical(v),
        canonical(w),
        forall|x: ViolationV| v.contains(x) <==> w.contains(x),
    ensures
        v == w,
    decreases v.len(),
{
    if v.len() == 0 {
        if w.len() > 0 {
            assert(w.contains(w[0]));
        }
        assert(v =~= w);
    } else {
        assert(v.contains(v[0]));
        let i = choose|i: int| 0 <= i < w.len() && w[i] == v[0];
        assert(w.contains(w[0]));
        let j = choose|j: int| 0 <= j < v.len() && v[j] == w[0];
        if i > 0 {
            assert(precedes(w[0], w[i]));
            if j > 0 {
                assert(precedes(v[0], v[j]));
                precedes_transitive(v[0], v[j], v[0]);
                precedes_irreflexive(v[0]);
            } else {
                precedes_irreflexive(v[0]);
            }
        }
        assert(v[0] == w[0]);
        let (s, t) = (v.skip(1), w.skip(1));
        assert(canonical(s)) by {
            assert forall|a: int, b: int| 0 <= a < b < s.len() implies #[trigger] precedes(
                s[a],
                s[b],
            ) by {
                assert(precedes(v[a + 1], v[b + 1]));
            }
        }
        assert(canonical(t)) by {
            assert forall|a: int, b: int| 0 <= a < b < t.len() implies #[trigger] precedes(
                t[a],
                t[b],
            ) by {
                assert(precedes(w[a + 1], w[b + 1]));
            }
        }
        assert forall|x: ViolationV| s.contains(x) <==> t.contains(x) by {
            if s.contains(x) {
                let a = choose|a: int| 0 <= a < s.len() && s[a] == x;
                assert(v[a + 1] == x);
                assert(v.contains(x));
                let b = choose|b: int| 0 <= b < w.len() && w[b] == x;
                if b == 0 {
                    assert(precedes(v[0], v[a + 1]));
                    precedes_irreflexive(x);
                }
                assert(t[b - 1] == x);
            }
            if t.contains(x) {
                let a = choose|a: int| 0 <= a < t.len() && t[a] == x;
                assert(w[a + 1] == x);
                assert(w.contains(x));
                let b = choose|b: int| 0 <= b < v.len() && v[b] == x;
                if b == 0 {
                    assert(precedes(w[0], w[a + 1]));
                    precedes_irreflexive(x);
                }
                assert(s[b - 1] == x);
            }
        }
        canonical_is_unique(s, t);
        assert(v =~= seq![v[0]] + s);
        assert(w =~= seq![w[0]] + t);
    }
}

fn rank_of(v: &Violation) -> (r: u8)
    ensures
        r == kind_rank(v@),
{
    match v {
        Violation::Clearance { .. } => 0,
        Violation::MinWidth { .. } => 1,
        Violation::Unrouted { .. } => 2,
        Violation::Keepout { .. } => 3,
        Violation::EdgeClearance { .. } => 4,
    }
}

fn rank_of_keepout(k: KeepoutKind) -> (r: u8)
    ensures
        r == keepout_rank(k),
{
    match k {
        KeepoutKind::Copper => 0,
        KeepoutKind::Component => 1,
        KeepoutKind::Drill => 2,
        KeepoutKind::Route => 3,
    }
}

impl Violation {
    /// Does this violation precede the other?
    pub fn before(&self, o: &Violation) -> (r: bool)
        ensures
            r == precedes(self@, o@),
    {
        match (self, o) {
            (
                Violation::Clearance { a, b, layer },
                Violation::Clearance { a: c, b: d, layer: m },
            ) => a.before(c) || (a.same(c) && (b.before(d) || (b.same(d) && str_lt(
                layer.as_str(),
                m.as_str(),
            )))),
            (
                Violation::MinWidth { trace, width },
                Violation::MinWidth { trace: t, width: u },
            ) => trace.0 < t.0 || (trace.0 == t.0 && *width < *u),
            (
                Violation::Unrouted { net, islands },
                Violation::Unrouted { net: n, islands: i },
            ) => net.before(n) || (net.same(n) && *islands < *i),
            (Violation::Keepout { net, kind }, Violation::Keepout { net: n, kind: k }) => {
                net.before(n) || (net.same(n) && rank_of_keepout(*kind) < rank_of_keepout(*k))
            },
            (Violation::EdgeClearance { net }, Violation::EdgeClearance { net: n }) => net.before(
                n,
            ),
            _ => rank_of(self) < rank_of(o),
        }
    }
}

/// Add a violation to a canonical list, unless it is there already.
pub fn add_violation(out: &mut Vec<Violation>, v: Violation)
    requires
        canonical(violation_views(old(out)@)),
    ensures
        canonical(violation_views(final(out)@)),
        forall|x: ViolationV|
            #![trigger violation_views(final(out)@).contains(x)]
            violation_views(final(out)@).contains(x) <==> violation_views(old(out)@).contains(x)
                || x == v@,
{
    let ghost was = violation_views(out@);
    let ghost x = v@;
    let mut i: usize = 0;
    while i < out.len() && out[i].before(&v)
        invariant
            i <= out.len(),
            was == violation_views(out@),
            x == v@,
            forall|k: int| 0 <= k < i ==> #[trigger] precedes(was[k], x),
        decreases out.len() - i,
    {
        assert(was[i as int] == out@[i as int]@);
        i += 1;
    }
    if i < out.len() {
        assert(was[i as int] == out@[i as int]@);
        if !v.before(&out[i]) {
            proof {
                precedes_total(was[i as int], x);
                assert(was.contains(x));
            }
            return;
        }
    }
    proof {
        assert forall|k: int| i <= k < was.len() implies #[trigger] precedes(x, was[k]) by {
            if k > i {
                assert(precedes(was[i as int], was[k]));
                precedes_transitive(x, was[i as int], was[k]);
            }
        }
    }
    out.insert(i, v);
    proof {
        let now = violation_views(out@);
        assert(now =~= was.insert(i as int, x));
        assert forall|a: int, b: int| 0 <= a < b < now.len() implies #[trigger] precedes(
            now[a],
            now[b],
        ) by {
            if b < i {
                assert(precedes(was[a], was[b]));
            } else if b == i {
                assert(precedes(was[a], x));
            } else if a == i {
                assert(precedes(x, was[b - 1]));
            } else if a < i {
                assert(precedes(was[a], was[b - 1]));
            } else {
                assert(precedes(was[a - 1], was[b - 1]));
            }
        }
        assert forall|y: ViolationV| now.contains(y) <==> was.contains(y) || y == x by {
            if now.contains(y) {
                let k = choose|k: int| 0 <= k < now.len() && now[k] == y;
                if k < i {
                    assert(was[k] == y);
                } else if k > i {
                    assert(was[k - 1] == y);
                }
            }
            if was.contains(y) {
                let k = choose|k: int| 0 <= k < was.len() && was[k] == y;
                if k < i {
                    assert(now[k] == y);
                } else {
                    assert(now[k + 1] == y);
                }
            }
            if y == x {
                assert(now[i as int] == x);
            }
        }
    }
}

// ---------------------------------------------------------------------------
// Diagnostics.
// ---------------------------------------------------------------------------

/// What a diagnostic is about.
#[derive(Debug, PartialEq, Eq)]
pub enum Location {
    Net(NetId),
    Trace(TraceId),
}

/// A rule violation as shown to a user.
#[derive(Debug, PartialEq, Eq)]
pub struct Diagnostic {
    pub code: String,
    pub message: String,
    pub location: Location,
}

/// The subject of a diagnostic as a value.
pub enum LocationV {
    Net(Seq<char>),
    Trace(TraceId),
}

/// A diagnostic as a value.
#[verifier::ext_equal]
pub struct DiagnosticV {
    pub code: Seq<char>,
    pub message: Seq<char>,
    pub location: LocationV,
}

impl View for Location {
    type V = LocationV;

    open spec fn view(&self) -> LocationV {
        match self {
            Location::Net(n) => LocationV::Net(n@),
            Location::Trace(t) => LocationV::Trace(*t),
        }
    }
}

impl View for Diagnostic {
    type V = DiagnosticV;

    open spec fn view(&self) -> DiagnosticV {
        DiagnosticV { code: self.code@, message: self.message@, location: self.location@ }
    }
}

/// The name of a kind of keep-out.
pub open spec fn keepout_name(k: KeepoutKind) -> Seq<char> {
    match k {
        KeepoutKind::Copper => "Copper"@,
        KeepoutKind::Component => "Component"@,
        KeepoutKind::Drill => "Drill"@,
        KeepoutKind::Route => "Route"@,
    }
}

/// How a violation is shown.
pub open spec fn diagnosed(v: ViolationV) -> DiagnosticV {
    match v {
        ViolationV::Clearance { a, b, layer } => DiagnosticV {
            code: "E_DRC_CLEARANCE"@,
            message: "nets `"@ + a + "` and `"@ + b + "` are closer than clearance on `"@ + layer
                + "`"@,
            location: LocationV::Net(a),
        },
        ViolationV::MinWidth { trace, width } => DiagnosticV {
            code: "E_DRC_MIN_WIDTH"@,
            message: "trace `"@ + text::int_text(trace.0 as int) + "` width "@ + text::int_text(width as int)
                + "nm is below the minimum"@,
            location: LocationV::Trace(trace),
        },
        ViolationV::Unrouted { net, islands } => DiagnosticV {
            code: "E_DRC_UNROUTED"@,
            message: "net `"@ + net + "` is not fully routed ("@ + text::int_text(islands as int)
                + " disconnected islands)"@,
            location: LocationV::Net(net),
        },
        ViolationV::Keepout { net, kind } => DiagnosticV {
            code: "E_DRC_KEEPOUT"@,
            message: "copper of net `"@ + net + "` intrudes a "@ + keepout_name(kind)
                + " keep-out"@,
            location: LocationV::Net(net),
        },
        ViolationV::EdgeClearance { net } => DiagnosticV {
            code: "E_DRC_EDGE_CLEARANCE"@,
            message: "copper of net `"@ + net + "` is too close to the board edge"@,
            location: LocationV::Net(net),
        },
    }
}

fn name_of_keepout(k: KeepoutKind) -> (r: String)
    ensures
        r@ == keepout_name(k),
{
    match k {
        KeepoutKind::Copper => "Copper".to_owned(),
        KeepoutKind::Component => "Component".to_owned(),
        KeepoutKind::Drill => "Drill".to_owned(),
        KeepoutKind::Route => "Route".to_owned(),
    }
}

impl Violation {
    /// Show the violation.
    pub fn diagnostics(&self) -> (r: Diagnostic)
        ensures
            r@ == diagnosed(self@),
    {
        match self {
            Violation::Clearance { a, b, layer } => {
                let head = cat3("nets `", a.as_str(), "` and `");
                let more = cat3(head.as_str(), b.as_str(), "` are closer than clearance on `");
                Diagnostic {
                    code: "E_DRC_CLEARANCE".to_owned(),
                    message: cat3(more.as_str(), layer.as_str(), "`"),
                    location: Location::Net(a.duplicate()),
                }
            },
            Violation::MinWidth { trace, width } => {
                let id = int_string(trace.0 as i128);
                let w = int_string(*width as i128);
                let head = cat3("trace `", id.as_str(), "` width ");
                Diagnostic {
                    code: "E_DRC_MIN_WIDTH".to_owned(),
                    message: cat3(head.as_str(), w.as_str(), "nm is below the minimum"),
                    location: Location::Trace(*trace),
                }
            },
            Violation::Unrouted { net, islands } => {
                let n = int_string(*islands as i128);
                let head = cat3("net `", net.as_str(), "` is not fully routed (");
                Diagnostic {
                    code: "E_DRC_UNROUTED".to_owned(),
                    message: cat3(head.as_str(), n.as_str(), " disconnected islands)"),
                    location: Location::Net(net.duplicate()),
                }
            },
            Violation::Keepout { net, kind } => {
                let k = name_of_keepout(*kind);
                let head = cat3("copper of net `", net.as_str(), "` intrudes a ");
                Diagnostic {
                    code: "E_DRC_KEEPOUT".to_owned(),
                    message: cat3(head.as_str(), k.as_str(), " keep-out"),
                    location: Location::Net(net.duplicate()),
                }
            },
            Violation::EdgeClearance { net } => {
                Diagnostic {
                    code: "E_DRC_EDGE_CLEARANCE".to_owned(),
                    message: cat3(
                        "copper of net `",
                        net.as_str(),
                        "` is too close to the board edge",
                    ),
                    location: Location::Net(net.duplicate()),
                }
            },
        }
    }
}

} // verus!
