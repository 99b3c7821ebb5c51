//! Working sessions: a history that is committed to, undone and checked out, and an engine
//! that is asked about its document on the way.

use crate::coord::Point;
use crate::doc;
use crate::doc::{ComponentV, DocV};
use crate::geom::stackup::SlabV;
use crate::history;
use crate::history::HistoryV;
use crate::id::{TraceId, ViaId};
use crate::part::PartV;
use crate::query;
use crate::query::{EngineV, Key, KnownV, PhysicalV};
use crate::route::connectivity::NetlistV;
use crate::route::drc;
use crate::route::drc::IslandsV;
use crate::route::features::SourceV;
use crate::route::layer::{TraceV, ViaV};
use crate::route::rules::ViolationV;
use vstd::prelude::*;

verus! {

/// The ground that a document is laid out on: its stackup and the geometry of its source.
pub struct GroundV {
    pub su: Seq<SlabV>,
    pub src: SourceV,
}

/// A layout: what the regions of a document are made from.
pub struct LayoutV {
    pub components: Seq<(Seq<char>, ComponentV)>,
    pub traces: Seq<(TraceId, TraceV)>,
    pub vias: Seq<(ViaId, ViaV)>,
    pub ground: GroundV,
    pub netlist: NetlistV,
}

/// The regions of a layout: the fills of its pours, whether its copper spills over the
/// board, and the islands of its nets.
pub struct RegionsV {
    pub fills: Seq<Seq<Seq<Point>>>,
    pub spills: Seq<bool>,
    pub islands: IslandsV,
}

/// What makes the regions of a layout.
pub type Kernel = spec_fn(LayoutV) -> RegionsV;

/// The layout of a document.
pub open spec fn layout_of(d: DocV, g: GroundV, lib: Seq<(Seq<char>, PartV)>) -> LayoutV {
    LayoutV {
        components: d.components,
        traces: d.traces,
        vias: d.vias,
        ground: g,
        netlist: query::netlist_of(d, lib),
    }
}

/// The geometry of a document.
pub open spec fn physical_of(
    d: DocV,
    g: GroundV,
    lib: Seq<(Seq<char>, PartV)>,
    kernel: Kernel,
) -> PhysicalV {
    let r = kernel(layout_of(d, g, lib));
    PhysicalV { su: g.su, src: g.src, fills: r.fills, spills: r.spills, islands: r.islands }
}

/// A history, the ground of each version, and the engine that is asked.
pub struct SessionV {
    pub history: HistoryV,
    pub grounds: Seq<GroundV>,
    pub engine: EngineV,
}

/// A step of a session.
pub enum StepV {
    /// A commit on the head that went through.
    Commit { doc: DocV, ground: GroundV, label: Seq<char> },
    /// A commit that failed.
    Refuse,
    Undo,
    Checkout { version: int },
    /// A query about the document at the head.
    Ask { key: Key },
}

/// A session at its start: one version, and an engine that has not been asked.
pub open spec fn opened(root: DocV, ground: GroundV) -> SessionV {
    SessionV {
        history: history::rooted(root),
        grounds: seq![ground],
        engine: query::fresh_engine(),
    }
}

/// The geometry of the document at the head.
pub open spec fn head_physical(
    s: SessionV,
    lib: Seq<(Seq<char>, PartV)>,
    kernel: Kernel,
) -> PhysicalV {
    physical_of(history::head_doc(s.history), s.grounds[s.history.head], lib, kernel)
}

/// The session after a step.
pub open spec fn stepped(
    s: SessionV,
    x: StepV,
    lib: Seq<(Seq<char>, PartV)>,
    kernel: Kernel,
) -> SessionV {
    match x {
        StepV::Commit { doc, ground, label } => SessionV {
            history: history::committed(s.history, doc, label),
            grounds: s.grounds.push(ground),
            ..s
        },
        StepV::Refuse => SessionV { history: history::refused(s.history), ..s },
        StepV::Undo => SessionV { history: history::undone(s.history), ..s },
        StepV::Checkout { version } => SessionV {
            history: HistoryV { head: version, ..s.history },
            ..s
        },
        StepV::Ask { key } => SessionV {
            engine: query::queried(
                s.engine,
                history::head_doc(s.history),
                lib,
                head_physical(s, lib, kernel),
                key,
            ),
            ..s
        },
    }
}

/// The document `next` is `was` edited at `tick`: every input that is edited is stamped with
/// the tick, and an input that keeps its revision is unchanged. The connectivity stands for
/// the netlist, the geometry for the components and their ground, the routing for the traces
/// and vias.
pub open spec fn edited(
    was: DocV,
    ground: GroundV,
    next: DocV,
    next_ground: GroundV,
    tick: int,
    lib: Seq<(Seq<char>, PartV)>,
) -> bool {
    &&& next.conn_rev == tick || (next.conn_rev == was.conn_rev && query::netlist_of(next, lib)
        == query::netlist_of(was, lib))
    &&& next.geom_rev == tick || (next.geom_rev == was.geom_rev && next.components
        == was.components && next_ground == ground)
    &&& next.route_rev == tick || (next.route_rev == was.route_rev && next.traces == was.traces
        && next.vias == was.vias)
}

/// The step can be taken. A commit is made at a tick later than the revisions of the root,
/// so that it is later than every revision there is.
pub open spec fn can_step(s: SessionV, x: StepV, lib: Seq<(Seq<char>, PartV)>) -> bool {
    let h = s.history;
    match x {
        StepV::Commit { doc, ground, .. } => {
            &&& h.tick < u64::MAX
            &&& h.versions.len() <= usize::MAX
            &&& query::latest(h.versions[0].doc) <= h.tick
            &&& edited(history::head_doc(h), s.grounds[h.head], doc, ground, h.tick + 1, lib)
        },
        StepV::Refuse => h.tick < u64::MAX,
        StepV::Checkout { version } => 0 <= version < h.versions.len(),
        StepV::Undo | StepV::Ask { .. } => true,
    }
}

/// The session after all steps.
pub open spec fn session(
    root: DocV,
    ground: GroundV,
    steps: Seq<StepV>,
    lib: Seq<(Seq<char>, PartV)>,
    kernel: Kernel,
) -> SessionV
    decreases steps.len(),
{
    if steps.len() == 0 {
        opened(root, ground)
    } else {
        stepped(
            session(root, ground, steps.drop_last(), lib, kernel),
            steps.last(),
            lib,
            kernel,
        )
    }
}

/// Every step can be taken in its turn.
pub open spec fn can_run(
    root: DocV,
    ground: GroundV,
    steps: Seq<StepV>,
    lib: Seq<(Seq<char>, PartV)>,
    kernel: Kernel,
) -> bool
    decreases steps.len(),
{
    steps.len() == 0 || {
        &&& can_run(root, ground, steps.drop_last(), lib, kernel)
        &&& can_step(
            session(root, ground, steps.drop_last(), lib, kernel),
            steps.last(),
            lib,
        )
    }
}

// ---------------------------------------------------------------------------
// What every step keeps.
// ---------------------------------------------------------------------------

/// Equal revisions mark equal inputs.
spec fn alike(
    a: DocV,
    ga: GroundV,
    b: DocV,
    gb: GroundV,
    lib: Seq<(Seq<char>, PartV)>,
) -> bool {
    &&& a.conn_rev == b.conn_rev ==> query::netlist_of(a, lib) == query::netlist_of(b, lib)
    &&& a.geom_rev == b.geom_rev ==> a.components == b.components && ga == gb
    &&& a.route_rev == b.route_rev ==> a.traces == b.traces && a.vias == b.vias
    &&& query::latest(a) == query::latest(b) ==> a.conn_rev == b.conn_rev && a.geom_rev
        == b.geom_rev && a.route_rev == b.route_rev
}

/// Versions `i` and `j` of a session are alike where their revisions are.
spec fn versions_alike(s: SessionV, lib: Seq<(Seq<char>, PartV)>, i: int, j: int) -> bool {
    alike(
        s.history.versions[i].doc,
        s.grounds[i],
        s.history.versions[j].doc,
        s.grounds[j],
        lib,
    )
}

/// The versions of a session with their geometry.
spec fn known(s: SessionV, lib: Seq<(Seq<char>, PartV)>, kernel: Kernel) -> Seq<KnownV> {
    Seq::new(
        s.history.versions.len(),
        |i: int|
            KnownV {
                doc: s.history.versions[i].doc,
                ph: physical_of(s.history.versions[i].doc, s.grounds[i], lib, kernel),
            },
    )
}

/// No version is later than the last tick, or than the root.
spec fn in_time(s: SessionV, i: int) -> bool {
    let t = query::latest(s.history.versions[i].doc);
    t <= s.history.tick || t <= query::latest(s.history.versions[0].doc)
}

spec fn sound(s: SessionV, lib: Seq<(Seq<char>, PartV)>, kernel: Kernel) -> bool {
    &&& history::history_wf(s.history)
    &&& s.grounds.len() == s.history.versions.len()
    &&& forall|i: int| 0 <= i < s.grounds.len() ==> #[trigger] in_time(s, i)
    &&& forall|i: int, j: int|
        0 <= i < s.grounds.len() && 0 <= j < s.grounds.len() ==> #[trigger] versions_alike(
            s,
            lib,
            i,
            j,
        )
    &&& query::remembers(s.engine, known(s, lib, kernel), lib)
}

/// The design check follows from the layout.
proof fn check_follows_the_layout(
    a: DocV,
    b: DocV,
    lib: Seq<(Seq<char>, PartV)>,
    nl: NetlistV,
    ph: PhysicalV,
)
    requires
        doc::same_layout(a, b),
    ensures
        query::drc_of(query::board_with(a, lib, nl, ph)) == query::drc_of(
            query::board_with(b, lib, nl, ph),
        ),
{
    let f = query::violations_of(query::board_with(a, lib, nl, ph));
    let g = query::violations_of(query::board_with(b, lib, nl, ph));
    assert forall|v: ViolationV| #[trigger] f(v) == g(v) by {
        drc::violations_follow_the_layout(
            a,
            b,
            lib,
            nl,
            query::process_rules(),
            ph.su,
            ph.src,
            ph.fills,
            ph.spills,
            ph.islands,
            v,
        );
    }
    assert(f =~= g);
}

/// Versions whose equal revisions mark equal inputs are marked alike.
proof fn sound_is_marked(s: SessionV, lib: Seq<(Seq<char>, PartV)>, kernel: Kernel)
    requires
        sound(s, lib, kernel),
    ensures
        query::all_marked(known(s, lib, kernel), lib),
{
    let vs = known(s, lib, kernel);
    assert forall|i: int, j: int| 0 <= i < vs.len() && 0 <= j < vs.len() implies
        #[trigger] query::marked_alike(vs[i], vs[j], lib) by {
        let (a, b) = (s.history.versions[i].doc, s.history.versions[j].doc);
        let (ga, gb) = (s.grounds[i], s.grounds[j]);
        assert(versions_alike(s, lib, i, j));
        if a.geom_rev == b.geom_rev && a.route_rev == b.route_rev && query::netlist_of(a, lib)
            == query::netlist_of(b, lib) {
            assert(layout_of(a, ga, lib) == layout_of(b, gb, lib));
            check_follows_the_layout(a, b, lib, query::netlist_of(a, lib), vs[i].ph);
        }
    }
}

/// A commit keeps the versions marked, and the memory theirs.
proof fn commit_keeps_sound(
    s: SessionV,
    next: DocV,
    ground: GroundV,
    label: Seq<char>,
    lib: Seq<(Seq<char>, PartV)>,
    kernel: Kernel,
)
    requires
        sound(s, lib, kernel),
        can_step(s, StepV::Commit { doc: next, ground, label }, lib),
    ensures
        sound(stepped(s, StepV::Commit { doc: next, ground, label }, lib, kernel), lib, kernel),
{
    let t = stepped(s, StepV::Commit { doc: next, ground, label }, lib, kernel);
    let n = s.grounds.len() as int;
    let p = s.history.head;
    let tick = s.history.tick + 1;
    assert forall|i: int| 0 <= i < n implies query::latest(
        (#[trigger] s.history.versions[i]).doc,
    ) < tick by {
        assert(in_time(s, i));
    }
    assert forall|i: int| 0 <= i < n implies t.history.versions[i] == #[trigger] s.history.versions[i]
        && t.grounds[i] == s.grounds[i] by {}
    assert(t.history.versions[n].doc == next && t.grounds[n] == ground);
    assert(query::latest(s.history.versions[p].doc) < tick);
    assert forall|i: int| 0 <= i < t.grounds.len() implies #[trigger] in_time(t, i) by {
        if i < n {
            assert(query::latest(s.history.versions[i].doc) < tick);
        }
    }
    assert forall|i: int| 0 <= i < n implies versions_alike(t, lib, i, n) && versions_alike(
        t,
        lib,
        n,
        i,
    ) by {
        assert(query::latest(s.history.versions[i].doc) < tick);
        assert(versions_alike(s, lib, i, p));
        assert(versions_alike(s, lib, p, i));
    }
    assert forall|i: int, j: int| 0 <= i < t.grounds.len() && 0 <= j < t.grounds.len() implies
        #[trigger] versions_alike(t, lib, i, j) by {
        if i < n && j < n {
            assert(versions_alike(s, lib, i, j));
        }
    }
    assert forall|i: int| 0 < i < t.history.versions.len() implies ((
    #[trigger] t.history.versions[i]).parent matches Some(p) && p < i) by {
        if i < n {
            assert(s.history.versions[i].parent matches Some(q) && q < i);
        }
    }
    let fresh = KnownV { doc: next, ph: physical_of(next, ground, lib, kernel) };
    query::memory_outlives_a_commit(s.engine, known(s, lib, kernel), lib, fresh);
    assert(known(t, lib, kernel) =~= known(s, lib, kernel).push(fresh));
}

proof fn step_keeps_sound(
    s: SessionV,
    x: StepV,
    lib: Seq<(Seq<char>, PartV)>,
    kernel: Kernel,
)
    requires
        sound(s, lib, kernel),
        can_step(s, x, lib),
    ensures
        sound(stepped(s, x, lib, kernel), lib, kernel),
{
    let t = stepped(s, x, lib, kernel);
    match x {
        StepV::Commit { doc, ground, label } => {
            commit_keeps_sound(s, doc, ground, label, lib, kernel);
        },
        StepV::Ask { key } => {
            sound_is_marked(s, lib, kernel);
            query::answers_as_from_scratch(
                s.engine,
                known(s, lib, kernel),
                lib,
                s.history.head,
                key,
            );
            still_sound(s, t, lib, kernel);
        },
        StepV::Undo => {
            let h = s.history;
            if h.head > 0 {
                assert(h.versions[h.head].parent matches Some(p) && p < h.head);
            }
            still_sound(s, t, lib, kernel);
        },
        _ => {
            still_sound(s, t, lib, kernel);
        },
    }
}

/// What keeps the versions and the memory, and does not turn back the tick, keeps a session
/// sound.
proof fn still_sound(
    s: SessionV,
    t: SessionV,
    lib: Seq<(Seq<char>, PartV)>,
    kernel: Kernel,
)
    requires
        sound(s, lib, kernel),
        t.history.versions == s.history.versions,
        t.grounds == s.grounds,
        0 <= t.history.head < s.history.versions.len(),
        s.history.tick <= t.history.tick,
        query::remembers(t.engine, known(s, lib, kernel), lib),
    ensures
        sound(t, lib, kernel),
{
    assert(known(t, lib, kernel) =~= known(s, lib, kernel));
    assert forall|i: int| 0 <= i < t.grounds.len() implies #[trigger] in_time(t, i) by {
        assert(in_time(s, i));
    }
    assert forall|i: int, j: int| 0 <= i < t.grounds.len() && 0 <= j < t.grounds.len() implies
        #[trigger] versions_alike(t, lib, i, j) by {
        assert(versions_alike(s, lib, i, j));
    }
}

proof fn session_is_sound(
    root: DocV,
    ground: GroundV,
    steps: Seq<StepV>,
    lib: Seq<(Seq<char>, PartV)>,
    kernel: Kernel,
)
    requires
        can_run(root, ground, steps, lib, kernel),
    ensures
        sound(session(root, ground, steps, lib, kernel), lib, kernel),
    decreases steps.len(),
{
    if steps.len() == 0 {
        let s = opened(root, ground);
        query::fresh_engine_remembers_nothing(known(s, lib, kernel), lib);
    } else {
        session_is_sound(root, ground, steps.drop_last(), lib, kernel);
        step_keeps_sound(
            session(root, ground, steps.drop_last(), lib, kernel),
            steps.last(),
            lib,
            kernel,
        );
    }
}

// ---------------------------------------------------------------------------
// Laws.
// ---------------------------------------------------------------------------

/// An engine never shows what it remembers: after any session of commits, refused commits,
/// undos, checkouts and queries it answers every query about the document at the head as a
/// fresh engine does, and as a computation from scratch.
pub proof fn session_answers_as_a_fresh_engine(
    root: DocV,
    ground: GroundV,
    steps: Seq<StepV>,
    lib: Seq<(Seq<char>, PartV)>,
    kernel: Kernel,
    key: Key,
)
    requires
        can_run(root, ground, steps, lib, kernel),
    ensures
        ({
            let s = session(root, ground, steps, lib, kernel);
            let d = history::head_doc(s.history);
            let ph = head_physical(s, lib, kernel);
            let asked = query::queried(s.engine, d, lib, ph, key);
            let fresh = query::queried(query::fresh_engine(), d, lib, ph, key);
            &&& query::answer(asked, key) == query::answer(fresh, key)
            &&& query::answer(asked, key) == Some(query::from_scratch(d, lib, ph, key))
        }),
{
    let s = session(root, ground, steps, lib, kernel);
    let vs = known(s, lib, kernel);
    session_is_sound(root, ground, steps, lib, kernel);
    sound_is_marked(s, lib, kernel);
    query::answers_as_from_scratch(s.engine, vs, lib, s.history.head, key);
    query::fresh_engine_remembers_nothing(vs, lib);
    query::answers_as_from_scratch(query::fresh_engine(), vs, lib, s.history.head, key);
}

/// A session keeps its history in shape: the head is a version, and every version but the
/// root has an earlier parent.
pub proof fn session_keeps_the_history(
    root: DocV,
    ground: GroundV,
    steps: Seq<StepV>,
    lib: Seq<(Seq<char>, PartV)>,
    kernel: Kernel,
)
    requires
        can_run(root, ground, steps, lib, kernel),
    ensures
        history::history_wf(session(root, ground, steps, lib, kernel).history),
{
    session_is_sound(root, ground, steps, lib, kernel);
}

} // verus!
