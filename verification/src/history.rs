//! The version history: every commit appends an immutable version with a link to its
//! parent. Undo moves the head to the parent, and a commit from an older version branches.

use crate::doc;
use crate::doc::{Doc, DocV};
use vstd::prelude::*;

verus! {

/// A version of the document.
#[derive(Debug, PartialEq, Eq)]
pub struct Version {
    pub doc: Doc,
    pub parent: Option<usize>,
    pub label: String,
}

/// A version as a value.
pub struct VersionV {
    pub doc: DocV,
    pub parent: Option<usize>,
    pub label: Seq<char>,
}

impl View for Version {
    type V = VersionV;

    open spec fn view(&self) -> VersionV {
        VersionV { doc: self.doc@, parent: self.parent, label: self.label@ }
    }
}

/// A count of commits, which only a history moves.
#[derive(Debug, PartialEq, Eq)]
pub struct Tick {
    n: u64,
}

impl View for Tick {
    type V = u64;

    closed spec fn view(&self) -> u64 {
        self.n
    }
}

/// The versions and where the head is. `tick` counts the commits, failed ones included.
#[derive(Debug, PartialEq, Eq)]
pub struct History {
    pub versions: Vec<Version>,
    pub head: usize,
    pub tick: Tick,
}

/// A history as a value.
#[verifier::ext_equal]
pub struct HistoryV {
    pub versions: Seq<VersionV>,
    pub head: int,
    pub tick: u64,
}

/// Versions as values.
pub open spec fn version_views(v: Seq<Version>) -> Seq<VersionV> {
    Seq::new(v.len(), |i: int| v[i]@)
}

impl View for History {
    type V = HistoryV;

    open spec fn view(&self) -> HistoryV {
        HistoryV {
            versions: version_views(self.versions@),
            head: self.head as int,
            tick: self.tick@,
        }
    }
}

/// The head is a version, the first version is the root, and every other one has an
/// earlier parent.
pub open spec fn history_wf(h: HistoryV) -> bool {
    &&& 0 <= h.head < h.versions.len()
    &&& h.versions[0].parent is None
    &&& forall|i: int|
        0 < i < h.versions.len() ==> ((#[trigger] h.versions[i]).parent matches Some(p) && p < i)
}

/// The document at the head.
pub open spec fn head_doc(h: HistoryV) -> DocV {
    h.versions[h.head].doc
}

/// A history of one version.
pub open spec fn rooted(root: DocV) -> HistoryV {
    HistoryV {
        versions: seq![VersionV { doc: root, parent: None, label: "root"@ }],
        head: 0,
        tick: 0,
    }
}

/// The history after a commit that went through.
pub open spec fn committed(h: HistoryV, next: DocV, label: Seq<char>) -> HistoryV {
    HistoryV {
        versions: h.versions.push(
            VersionV { doc: next, parent: Some(h.head as usize), label },
        ),
        head: h.versions.len() as int,
        tick: (h.tick + 1) as u64,
    }
}

/// The history after a commit that failed: only the tick has moved.
pub open spec fn refused(h: HistoryV) -> HistoryV {
    HistoryV { tick: (h.tick + 1) as u64, ..h }
}

/// The history after an undo.
pub open spec fn undone(h: HistoryV) -> HistoryV {
    match h.versions[h.head].parent {
        Some(p) => HistoryV { head: p as int, ..h },
        None => h,
    }
}

impl History {
    /// A history of one version.
    pub fn new(root: Doc) -> (r: History)
        ensures
            r@ == rooted(root@),
            history_wf(r@),
    {
        let ghost v = root@;
        let first = Version { doc: root, parent: None, label: "root".to_owned() };
        let r = History { versions: vec![first], head: 0, tick: Tick { n: 0 } };
        assert(r@.versions =~= rooted(v).versions);
        r
    }

    /// The document at the head.
    pub fn doc(&self) -> (r: &Doc)
        requires
            history_wf(self@),
        ensures
            r@ == head_doc(self@),
            doc::doc_wf(r@),
    {
        let d = &self.versions[self.head].doc;
        d.ordered();
        d
    }

    /// The tick that the next commit is made at.
    pub fn next_tick(&self) -> (r: u64)
        requires
            self@.tick < u64::MAX,
        ensures
            r == self@.tick + 1,
    {
        self.tick.n + 1
    }

    /// Commit what applying a transaction to the head gave. On success a new version
    /// becomes the head; on failure the versions and the head are unchanged.
    pub fn commit<E>(&mut self, next: Result<Doc, E>, label: &str) -> (r: Result<usize, E>)
        requires
            history_wf(old(self)@),
            old(self)@.tick < u64::MAX,
        ensures
            history_wf(final(self)@),
            match (next, r) {
                (Ok(d), Ok(v)) => {
                    &&& final(self)@ == committed(old(self)@, d@, label@)
                    &&& v == final(self)@.head
                },
                (Err(e), Err(f)) => f == e && final(self)@ == refused(old(self)@),
                _ => false,
            },
    {
        let ghost was = self@;
        self.tick = Tick { n: self.tick.n + 1 };
        match next {
            Ok(d) => {
                let ghost v = d@;
                let head: usize = self.versions.len();
                self.versions.push(
                    Version { doc: d, parent: Some(self.head), label: label.to_owned() },
                );
                self.head = head;
                assert(self@.versions =~= committed(was, v, label@).versions);
                assert forall|i: int| 0 < i < self@.versions.len() implies ((
                #[trigger] self@.versions[i]).parent matches Some(p) && p < i) by {
                    if i < was.versions.len() {
                        assert(self@.versions[i] == was.versions[i]);
                    }
                }
                Ok(head)
            },
            Err(e) => {
                assert(self@.versions =~= was.versions);
                Err(e)
            },
        }
    }

    /// Move the head to its parent. Returns false at the root.
    pub fn undo(&mut self) -> (r: bool)
        requires
            history_wf(old(self)@),
        ensures
            history_wf(final(self)@),
            final(self)@ == undone(old(self)@),
            r == (old(self)@.versions[old(self)@.head].parent is Some),
    {
        let ghost was = self@;
        match self.versions[self.head].parent {
            Some(p) => {
                assert(was.versions[was.head].parent == Some(p));
                self.head = p;
                assert(self@.versions =~= was.versions);
                true
            },
            None => false,
        }
    }

    /// Point the head at an existing version.
    pub fn checkout(&mut self, v: usize)
        requires
            history_wf(old(self)@),
            v < old(self)@.versions.len(),
        ensures
            history_wf(final(self)@),
            final(self)@ == (HistoryV { head: v as int, ..old(self)@ }),
    {
        let ghost was = self@;
        self.head = v;
        assert(self@.versions =~= was.versions);
    }
}

// ---------------------------------------------------------------------------
// Laws.
// ---------------------------------------------------------------------------

/// The head and the versions that can be read are those of the history.
pub proof fn fields_are_the_view(h: History)
    ensures
        h@.head == h.head,
        h@.versions == version_views(h.versions@),
{
}

/// Undoing a commit brings the head, and with it the document, back.
pub proof fn undo_reverts_a_commit(h: HistoryV, next: DocV, label: Seq<char>)
    requires
        history_wf(h),
        h.versions.len() <= usize::MAX,
    ensures
        undone(committed(h, next, label)).head == h.head,
        head_doc(undone(committed(h, next, label))) == head_doc(h),
        head_doc(committed(h, next, label)) == next,
{
}

/// A version, once made, never changes: a commit keeps every version there was.
pub proof fn versions_are_immutable(h: HistoryV, next: DocV, label: Seq<char>, i: int)
    requires
        0 <= i < h.versions.len(),
    ensures
        committed(h, next, label).versions[i] == h.versions[i],
        refused(h).versions[i] == h.versions[i],
        undone(h).versions[i] == h.versions[i],
{
}

/// A commit that fails leaves the document at the head as it was.
pub proof fn failure_is_atomic(h: HistoryV)
    ensures
        refused(h).versions == h.versions,
        refused(h).head == h.head,
        head_doc(refused(h)) == head_doc(h),
{
}

/// The history after `n` undos.
pub open spec fn undone_times(h: HistoryV, n: nat) -> HistoryV
    decreases n,
{
    if n == 0 {
        h
    } else {
        undone(undone_times(h, (n - 1) as nat))
    }
}

/// Undoing often enough leads to the root, whatever branch the head is on.
pub proof fn undo_leads_to_the_root(h: HistoryV)
    requires
        history_wf(h),
    ensures
        undone_times(h, h.head as nat).head == 0,
        undone_times(h, h.head as nat).versions == h.versions,
{
    undo_descends(h, h.head as nat);
}

proof fn undo_descends(h: HistoryV, n: nat)
    requires
        history_wf(h),
    ensures
        history_wf(undone_times(h, n)),
        undone_times(h, n).versions == h.versions,
        undone_times(h, n).head == 0 || undone_times(h, n).head + n <= h.head,
    decreases n,
{
    if n > 0 {
        undo_descends(h, (n - 1) as nat);
        let g = undone_times(h, (n - 1) as nat);
        if g.head > 0 {
            assert(g.versions[g.head].parent matches Some(p) && p < g.head);
        }
    }
}

} // verus!
