//! Fullscreen detection: a record per toplevel window, fed by protocol events.
//!
//! Every protocol object is known here by its numeric object ID. Events change
//! a record's pending fields only; a `Done` event commits them, and queries read
//! committed fields alone.

use vstd::prelude::*;

use crate::ids::{ids_contains, ids_copy, ids_insert, ids_remove, ids_same, ids_union_into};

verus! {

broadcast use vstd::seq_lib::group_seq_properties;

/// The value of the `fullscreen` entry of the toplevel state enum.
pub const STATE_FULLSCREEN: u32 = 3;

/// What is known of one toplevel window.
pub struct ToplevelData {
    /// Fullscreen flag, pending until the next `Done` event.
    pub pending_fullscreen: bool,
    /// Committed fullscreen flag.
    pub fullscreen: bool,
    /// Object IDs of the outputs the window is visible on (pending).
    pub pending_output_ids: Vec<u32>,
    /// Object IDs of the outputs the window is visible on (committed).
    pub output_ids: Vec<u32>,
    /// Object IDs of the workspaces the window is on (pending).
    pub pending_workspace_ids: Vec<u32>,
    /// Object IDs of the workspaces the window is on (committed).
    pub workspace_ids: Vec<u32>,
}

/// The model of a [`ToplevelData`]: its flags and sets of IDs.
pub ghost struct ToplevelRecord {
    pub pending_fullscreen: bool,
    pub fullscreen: bool,
    pub pending_outputs: Set<u32>,
    pub outputs: Set<u32>,
    pub pending_workspaces: Set<u32>,
    pub workspaces: Set<u32>,
}

impl View for ToplevelData {
    type V = ToplevelRecord;

    open spec fn view(&self) -> ToplevelRecord {
        ToplevelRecord {
            pending_fullscreen: self.pending_fullscreen,
            fullscreen: self.fullscreen,
            pending_outputs: self.pending_output_ids@.to_set(),
            outputs: self.output_ids@.to_set(),
            pending_workspaces: self.pending_workspace_ids@.to_set(),
            workspaces: self.workspace_ids@.to_set(),
        }
    }
}

/// The record of a window that has just been announced.
pub open spec fn empty_record() -> ToplevelRecord {
    ToplevelRecord {
        pending_fullscreen: false,
        fullscreen: false,
        pending_outputs: Set::empty(),
        outputs: Set::empty(),
        pending_workspaces: Set::empty(),
        workspaces: Set::empty(),
    }
}

/// The record after its pending fields have been committed.
pub open spec fn committed(r: ToplevelRecord) -> ToplevelRecord {
    ToplevelRecord {
        fullscreen: r.pending_fullscreen,
        outputs: r.pending_outputs,
        workspaces: r.pending_workspaces,
        ..r
    }
}

/// Whether committing `r` changes anything that a query can observe.
pub open spec fn commit_changes(r: ToplevelRecord) -> bool {
    r.fullscreen != r.pending_fullscreen || r.outputs != r.pending_outputs || r.workspaces
        != r.pending_workspaces
}

/// Four bytes read as a little-endian number.
pub open spec fn u32_le(b0: u8, b1: u8, b2: u8, b3: u8) -> int {
    b0 as int + 256 * (b1 as int) + 65536 * (b2 as int) + 16777216 * (b3 as int)
}

/// Four bytes read as a big-endian number.
pub open spec fn u32_be(b0: u8, b1: u8, b2: u8, b3: u8) -> int {
    u32_le(b3, b2, b1, b0)
}

/// Relies on `u32::from_ne_bytes`: the bytes read in the machine's byte
/// order, which is little- or big-endian.
#[verifier::external_body]
fn u32_from_ne_bytes(b0: u8, b1: u8, b2: u8, b3: u8) -> (r: u32)
    ensures
        r == u32_le(b0, b1, b2, b3) || r == u32_be(b0, b1, b2, b3),
{
    u32::from_ne_bytes([b0, b1, b2, b3])
}

/// Whether `v` is the `i`-th four-byte group of `b` in the machine's order.
pub open spec fn decodes_group(b: Seq<u8>, i: int, v: u32) -> bool {
    v == u32_le(b[4 * i], b[4 * i + 1], b[4 * i + 2], b[4 * i + 3])
        || v == u32_be(b[4 * i], b[4 * i + 1], b[4 * i + 2], b[4 * i + 3])
}

/// The values of a toplevel state array: each whole group of four bytes read
/// as a number in the machine's byte order; a shorter tail is ignored.
pub fn states_from_bytes(bytes: &Vec<u8>) -> (r: Vec<u32>)
    ensures
        r@.len() == bytes@.len() / 4,
        forall|i: int| 0 <= i < r@.len() ==> decodes_group(bytes@, i, #[trigger] r@[i]),
{
    let mut r: Vec<u32> = Vec::new();
    let len = bytes.len();
    let n = len / 4;
    let mut i: usize = 0;
    while i < n
        invariant
            0 <= i <= n,
            n == bytes@.len() / 4,
            4 * n <= bytes@.len(),
            bytes@.len() <= usize::MAX,
            r@.len() == i,
            forall|k: int| 0 <= k < i ==> decodes_group(bytes@, k, #[trigger] r@[k]),
        decreases n - i,
    {
        let p = 4 * i;
        let v = u32_from_ne_bytes(bytes[p], bytes[p + 1], bytes[p + 2], bytes[p + 3]);
        r.push(v);
        assert(decodes_group(bytes@, i as int, r@[i as int]));
        i = i + 1;
    }
    r
}

/// An event of a toplevel handle, its objects given by their IDs.
pub enum ToplevelEvent {
    /// The window became visible on an output.
    OutputEnter(u32),
    /// The window is no longer visible on an output.
    OutputLeave(u32),
    /// The window's states, as the values of the protocol's state enum.
    State(Vec<u32>),
    /// The window entered a workspace.
    WorkspaceEnter(u32),
    /// The window left a workspace.
    WorkspaceLeave(u32),
    /// All changes of this batch have been sent.
    Done,
    /// The window was closed.
    Closed,
    /// An event that has no bearing on fullscreen detection (title, app ID).
    Other,
}

/// An event of a handle of the foreign toplevel list.
pub enum ForeignToplevelEvent {
    /// The window was closed.
    Closed,
    /// All changes of this batch have been sent.
    Done,
    /// An event that has no bearing on fullscreen detection.
    Other,
}

/// The record after one event that changes only pending fields or commits.
pub open spec fn record_step(r: ToplevelRecord, ev: ToplevelEvent) -> ToplevelRecord {
    match ev {
        ToplevelEvent::OutputEnter(o) => ToplevelRecord { pending_outputs: r.pending_outputs.insert(o), ..r },
        ToplevelEvent::OutputLeave(o) => ToplevelRecord { pending_outputs: r.pending_outputs.remove(o), ..r },
        ToplevelEvent::State(states) => ToplevelRecord {
            pending_fullscreen: states@.contains(STATE_FULLSCREEN),
            ..r
        },
        ToplevelEvent::WorkspaceEnter(w) => ToplevelRecord {
            pending_workspaces: r.pending_workspaces.insert(w),
            ..r
        },
        ToplevelEvent::WorkspaceLeave(w) => ToplevelRecord {
            pending_workspaces: r.pending_workspaces.remove(w),
            ..r
        },
        ToplevelEvent::Done => committed(r),
        _ => r,
    }
}

/// The records with the one of handle `h` committed.
pub open spec fn commit_record(s: Seq<(u32, ToplevelRecord)>, h: u32) -> Seq<(u32, ToplevelRecord)> {
    map_record(s, h, |r: ToplevelRecord| committed(r))
}

/// Whether some record of `s` has handle `h`.
pub open spec fn has_handle(s: Seq<(u32, ToplevelRecord)>, h: u32) -> bool {
    exists|i: int| 0 <= i < s.len() && #[trigger] s[i].0 == h
}

/// Whether no two records of `s` share a handle.
pub open spec fn unique_handles(s: Seq<(u32, ToplevelRecord)>) -> bool {
    forall|i: int, j: int| 0 <= i < s.len() && 0 <= j < s.len() && i != j ==> s[i].0 != s[j].0
}

/// The records with `f` applied to the one of handle `h`.
pub open spec fn map_record(
    s: Seq<(u32, ToplevelRecord)>,
    h: u32,
    f: spec_fn(ToplevelRecord) -> ToplevelRecord,
) -> Seq<(u32, ToplevelRecord)> {
    s.map_values(|e: (u32, ToplevelRecord)| if e.0 == h { (e.0, f(e.1)) } else { e })
}

/// The records with one for `h` added if there was none.
pub open spec fn with_handle(s: Seq<(u32, ToplevelRecord)>, h: u32) -> Seq<(u32, ToplevelRecord)> {
    if has_handle(s, h) {
        s
    } else {
        s.push((h, empty_record()))
    }
}

/// The records without the one of handle `h`.
pub open spec fn without_handle(s: Seq<(u32, ToplevelRecord)>, h: u32) -> Seq<(u32, ToplevelRecord)> {
    if has_handle(s, h) {
        s.remove(choose|i: int| 0 <= i < s.len() && #[trigger] s[i].0 == h)
    } else {
        s
    }
}

/// Whether the record of `h` in `s` is committed fullscreen.
pub open spec fn is_fullscreen_handle(s: Seq<(u32, ToplevelRecord)>, h: u32) -> bool {
    exists|i: int| 0 <= i < s.len() && #[trigger] s[i].0 == h && s[i].1.fullscreen
}

/// Whether the record of `h` in `s` would change on commit.
pub open spec fn commit_changes_handle(s: Seq<(u32, ToplevelRecord)>, h: u32) -> bool {
    exists|i: int| 0 <= i < s.len() && #[trigger] s[i].0 == h && commit_changes(s[i].1)
}

/// The displays covered by some committed fullscreen window.
pub open spec fn fullscreen_outputs(s: Seq<(u32, ToplevelRecord)>) -> Set<u32> {
    Set::new(
        |o: u32|
            exists|i: int| 0 <= i < s.len() && (#[trigger] s[i].1).fullscreen && s[i].1.outputs.contains(o),
    )
}

/// Whether some committed fullscreen window covers display `o`.
pub open spec fn fullscreen_on(s: Seq<(u32, ToplevelRecord)>, o: u32) -> bool {
    exists|i: int| 0 <= i < s.len() && (#[trigger] s[i].1).fullscreen && s[i].1.outputs.contains(o)
}

/// Whether some committed fullscreen window covers display `o` and is on one of
/// the workspaces in `active`.
pub open spec fn active_fullscreen_on(
    s: Seq<(u32, ToplevelRecord)>,
    o: u32,
    active: Set<u32>,
) -> bool {
    exists|i: int, w: u32|
        0 <= i < s.len() && (#[trigger] s[i].1).fullscreen && s[i].1.outputs.contains(o)
            && s[i].1.workspaces.contains(w) && #[trigger] active.contains(w)
}

impl ToplevelData {
    /// A record with nothing pending or committed.
    pub fn new() -> (r: Self)
        ensures
            r@ == empty_record(),
    {
        let r = ToplevelData {
            pending_fullscreen: false,
            fullscreen: false,
            pending_output_ids: Vec::new(),
            output_ids: Vec::new(),
            pending_workspace_ids: Vec::new(),
            workspace_ids: Vec::new(),
        };
        assert(r@.pending_outputs =~= Set::empty());
        assert(r@.outputs =~= Set::empty());
        assert(r@.pending_workspaces =~= Set::empty());
        assert(r@.workspaces =~= Set::empty());
        r
    }

    /// Copies the pending fields to the committed ones; returns whether that
    /// changed the fullscreen flag or a set of IDs.
    pub fn commit(&mut self) -> (changed: bool)
        ensures
            final(self)@ == committed(old(self)@),
            changed == commit_changes(old(self)@),
    {
        let same_outputs = ids_same(&self.output_ids, &self.pending_output_ids);
        let same_workspaces = ids_same(&self.workspace_ids, &self.pending_workspace_ids);
        let changed = self.fullscreen != self.pending_fullscreen || !same_outputs
            || !same_workspaces;
        self.fullscreen = self.pending_fullscreen;
        self.output_ids = ids_copy(&self.pending_output_ids);
        self.workspace_ids = ids_copy(&self.pending_workspace_ids);
        changed
    }

    /// Applies one event to the record (`Closed` and `Other` leave it as it is).
    pub fn apply(&mut self, event: &ToplevelEvent) -> (changed: bool)
        ensures
            final(self)@ == record_step(old(self)@, *event),
            changed == (*event is Done && commit_changes(old(self)@)),
    {
        match event {
            ToplevelEvent::OutputEnter(o) => {
                ids_insert(&mut self.pending_output_ids, *o);
                false
            },
            ToplevelEvent::OutputLeave(o) => {
                ids_remove(&mut self.pending_output_ids, *o);
                false
            },
            ToplevelEvent::State(states) => {
                self.pending_fullscreen = ids_contains(states, STATE_FULLSCREEN);
                false
            },
            ToplevelEvent::WorkspaceEnter(w) => {
                ids_insert(&mut self.pending_workspace_ids, *w);
                false
            },
            ToplevelEvent::WorkspaceLeave(w) => {
                ids_remove(&mut self.pending_workspace_ids, *w);
                false
            },
            ToplevelEvent::Done => self.commit(),
            _ => false,
        }
    }
}

/// The records after event `ev` of handle `h`, with the direct protocol revision:
/// an unknown handle is first tracked, `Closed` drops its record.
pub open spec fn direct_step(s: Seq<(u32, ToplevelRecord)>, h: u32, ev: ToplevelEvent) -> Seq<(u32, ToplevelRecord)> {
    let t = with_handle(s, h);
    match ev {
        ToplevelEvent::Closed => without_handle(t, h),
        _ => map_record(t, h, |r: ToplevelRecord| record_step(r, ev)),
    }
}

/// Whether event `ev` of handle `h` calls for a re-evaluation of the pause
/// verdicts, with the direct protocol revision: a commit that changed the
/// record, or the close of a window that was fullscreen.
pub open spec fn direct_step_notifies(s: Seq<(u32, ToplevelRecord)>, h: u32, ev: ToplevelEvent) -> bool {
    match ev {
        ToplevelEvent::Closed => is_fullscreen_handle(with_handle(s, h), h),
        ToplevelEvent::Done => commit_changes_handle(with_handle(s, h), h),
        _ => false,
    }
}

/// Whether the later protocol revision acts on event `ev` of a richer handle:
/// it does on every event but `Closed`, since a window's close is announced
/// on its foreign handle.
pub open spec fn foreign_revision_event(ev: ToplevelEvent) -> bool {
    !(ev is Closed)
}

/// The records after event `ev` of richer handle `h`, with the later protocol
/// revision: an unknown handle is first tracked, and every event but `Closed`
/// updates its record as with the direct revision.
pub open spec fn foreign_step(s: Seq<(u32, ToplevelRecord)>, h: u32, ev: ToplevelEvent) -> Seq<(u32, ToplevelRecord)> {
    let t = with_handle(s, h);
    if foreign_revision_event(ev) {
        map_record(t, h, |r: ToplevelRecord| record_step(r, ev))
    } else {
        t
    }
}

/// The records after a sequence of events of handle `h`, direct revision.
pub open spec fn direct_run(s: Seq<(u32, ToplevelRecord)>, h: u32, evs: Seq<ToplevelEvent>) -> Seq<(u32, ToplevelRecord)>
    decreases evs.len(),
{
    if evs.len() == 0 {
        s
    } else {
        direct_run(direct_step(s, h, evs[0]), h, evs.drop_first())
    }
}

/// The records after a sequence of events of richer handle `h`, later revision.
pub open spec fn foreign_run(s: Seq<(u32, ToplevelRecord)>, h: u32, evs: Seq<ToplevelEvent>) -> Seq<(u32, ToplevelRecord)>
    decreases evs.len(),
{
    if evs.len() == 0 {
        s
    } else {
        foreign_run(foreign_step(s, h, evs[0]), h, evs.drop_first())
    }
}

/// Committing a record twice changes nothing the second time.
pub proof fn lemma_commit_idempotent(s: Seq<(u32, ToplevelRecord)>, h: u32)
    requires
        unique_handles(s),
    ensures
        !commit_changes_handle(commit_record(s, h), h),
{
    let t = commit_record(s, h);
    if commit_changes_handle(t, h) {
        let i = choose|i: int| 0 <= i < t.len() && #[trigger] t[i].0 == h && commit_changes(t[i].1);
        assert(t[i] == (h, committed(s[i].1)));
    }
}

/// With no active workspace, no window counts as an active fullscreen window,
/// whatever the windows' states.
pub proof fn lemma_no_active_workspace_no_fullscreen(s: Seq<(u32, ToplevelRecord)>, o: u32)
    ensures
        !active_fullscreen_on(s, o, Set::empty()),
{
}

/// A window announced through the direct revision and one announced through
/// the foreign toplevel list end with the same records (displays, workspaces
/// and fullscreen flag), and so the same fullscreen-covered outputs, after the
/// same events short of a close.
pub proof fn lemma_revisions_agree(s: Seq<(u32, ToplevelRecord)>, h: u32, evs: Seq<ToplevelEvent>)
    requires
        forall|k: int| 0 <= k < evs.len() ==> foreign_revision_event(#[trigger] evs[k]),
    ensures
        direct_run(s, h, evs) == foreign_run(s, h, evs),
        fullscreen_outputs(direct_run(s, h, evs)) == fullscreen_outputs(foreign_run(s, h, evs)),
    decreases evs.len(),
{
    if evs.len() > 0 {
        let ev = evs[0];
        assert(foreign_revision_event(evs[0]));
        assert(direct_step(s, h, ev) == foreign_step(s, h, ev));
        let rest = evs.drop_first();
        assert forall|k: int| 0 <= k < rest.len() implies foreign_revision_event(#[trigger] rest[k]) by {
            assert(rest[k] == evs[k + 1]);
        }
        lemma_revisions_agree(direct_step(s, h, ev), h, rest);
    }
}

/// Committing a tracked window through its foreign handle's `Done` (which
/// commits the record the handle maps to) leaves the same records as the
/// direct revision's `Done` event of that window.
pub proof fn lemma_foreign_done_is_direct_done(s: Seq<(u32, ToplevelRecord)>, h: u32)
    requires
        has_handle(s, h),
    ensures
        commit_record(s, h) == direct_step(s, h, ToplevelEvent::Done),
        commit_changes_handle(s, h) == direct_step_notifies(s, h, ToplevelEvent::Done),
{
    let d = direct_step(s, h, ToplevelEvent::Done);
    assert(commit_record(s, h) =~= d) by {
        assert forall|i: int| 0 <= i < s.len() implies commit_record(s, h)[i] == d[i] by {}
    }
}

/// Whether foreign handle `f` is mapped to toplevel handle `c` in `m`.
pub open spec fn maps_to(m: Seq<(u32, u32)>, f: u32, c: u32) -> bool {
    exists|i: int| 0 <= i < m.len() && #[trigger] m[i] == (f, c)
}

/// Whether foreign handle `f` is mapped to some toplevel handle in `m`.
pub open spec fn has_foreign(m: Seq<(u32, u32)>, f: u32) -> bool {
    exists|i: int| 0 <= i < m.len() && #[trigger] m[i].0 == f
}

/// Whether no two entries of `m` share a foreign handle.
pub open spec fn unique_foreign(m: Seq<(u32, u32)>) -> bool {
    forall|i: int, j: int| 0 <= i < m.len() && 0 <= j < m.len() && i != j ==> m[i].0 != m[j].0
}

/// Tracks toplevel windows for fullscreen detection.
///
/// With the direct protocol revision, toplevel handles are announced by the
/// toplevel info object itself. With the later revision, windows are announced on
/// the foreign toplevel list, and `foreign_to_cosmic` maps each foreign handle to
/// the richer handle requested for it.
pub struct ToplevelTracker {
    /// Pairs of a foreign handle and the richer handle requested for it.
    pub foreign_to_cosmic: Vec<(u32, u32)>,
    /// The tracked windows, by handle.
    pub toplevels: Vec<(u32, ToplevelData)>,
}

impl ToplevelTracker {
    /// The records of the tracked windows, in order of announcement.
    pub open spec fn records(&self) -> Seq<(u32, ToplevelRecord)> {
        self.toplevels@.map_values(|e: (u32, ToplevelData)| (e.0, e.1@))
    }

    /// The foreign-handle mapping.
    pub open spec fn foreign(&self) -> Seq<(u32, u32)> {
        self.foreign_to_cosmic@
    }

    /// Handles are unique in both lists.
    pub open spec fn wf(&self) -> bool {
        unique_handles(self.records()) && unique_foreign(self.foreign())
    }

    /// A tracker with no windows.
    pub fn new() -> (r: Self)
        ensures
            r.wf(),
            r.records() == Seq::<(u32, ToplevelRecord)>::empty(),
            r.foreign() == Seq::<(u32, u32)>::empty(),
    {
        let r = ToplevelTracker { foreign_to_cosmic: Vec::new(), toplevels: Vec::new() };
        assert(r.records() =~= Seq::<(u32, ToplevelRecord)>::empty());
        r
    }

    /// The number of tracked windows.
    pub fn toplevel_count(&self) -> (r: usize)
        ensures
            r == self.records().len(),
    {
        self.toplevels.len()
    }

    fn find(&self, handle: u32) -> (r: Option<usize>)
        ensures
            r matches Some(i) ==> i < self.records().len() && self.records()[i as int].0 == handle,
            r is None ==> !has_handle(self.records(), handle),
    {
        let mut i: usize = 0;
        while i < self.toplevels.len()
            invariant
                0 <= i <= self.toplevels@.len(),
                forall|j: int| 0 <= j < i ==> #[trigger] self.records()[j].0 != handle,
            decreases self.toplevels@.len() - i,
        {
            if self.toplevels[i].0 == handle {
                return Some(i);
            }
            i = i + 1;
        }
        None
    }

    /// Starts tracking a window with an empty record; a handle already tracked
    /// keeps its record.
    pub fn add_toplevel(&mut self, handle: u32)
        requires
            old(self).wf(),
        ensures
            final(self).wf(),
            final(self).records() == with_handle(old(self).records(), handle),
            final(self).foreign() == old(self).foreign(),
    {
        if self.find(handle).is_none() {
            let data = ToplevelData::new();
            self.toplevels.push((handle, data));
            assert(self.records() =~= old(self).records().push((handle, empty_record())));
        }
    }

    /// Stops tracking a window.
    pub fn remove_toplevel(&mut self, handle: u32)
        requires
            old(self).wf(),
        ensures
            final(self).wf(),
            final(self).records() == without_handle(old(self).records(), handle),
            final(self).foreign() == old(self).foreign(),
    {
        if let Some(i) = self.find(handle) {
            let ghost s = old(self).records();
            proof {
                let k = choose|k: int| 0 <= k < s.len() && #[trigger] s[k].0 == handle;
                assert(k == i);
            }
            let _ = self.toplevels.remove(i);
            assert(self.records() =~= s.remove(i as int));
        }
    }

    /// Applies an event to the record of `handle` (none if it is not tracked);
    /// returns whether it was a `Done` that changed the record's committed fields.
    pub fn apply_to(&mut self, handle: u32, event: &ToplevelEvent) -> (changed: bool)
        requires
            old(self).wf(),
        ensures
            final(self).wf(),
            final(self).records() == map_record(
                old(self).records(),
                handle,
                |r: ToplevelRecord| record_step(r, *event),
            ),
            final(self).foreign() == old(self).foreign(),
            changed == (*event is Done && commit_changes_handle(old(self).records(), handle)),
    {
        let ghost s = old(self).records();
        let ghost f = |r: ToplevelRecord| record_step(r, *event);
        match self.find(handle) {
            Some(i) => {
                let changed = self.toplevels[i].1.apply(event);
                assert(self.records() =~= map_record(s, handle, f)) by {
                    assert forall|k: int| 0 <= k < s.len() implies #[trigger] self.records()[k]
                        == map_record(s, handle, f)[k] by {
                        if k != i {
                            assert(s[k].0 != handle);
                        }
                    }
                }
                changed
            },
            None => {
                assert(self.records() =~= map_record(s, handle, f));
                false
            },
        }
    }

    /// Replaces the pending state list of a window.
    pub fn set_pending_state(&mut self, handle: u32, states: Vec<u32>)
        requires
            old(self).wf(),
        ensures
            final(self).wf(),
            final(self).records() == map_record(
                old(self).records(),
                handle,
                |r: ToplevelRecord| ToplevelRecord { pending_fullscreen: states@.contains(STATE_FULLSCREEN), ..r },
            ),
            final(self).foreign() == old(self).foreign(),
    {
        let ghost st = states;
        let event = ToplevelEvent::State(states);
        self.apply_to(handle, &event);
        assert(final(self).records() =~= map_record(
                old(self).records(),
                handle,
                |r: ToplevelRecord| ToplevelRecord { pending_fullscreen: st@.contains(STATE_FULLSCREEN), ..r },
            ));
    }

    /// Adds an output to a window's pending outputs.
    pub fn add_pending_output(&mut self, handle: u32, output_id: u32)
        requires
            old(self).wf(),
        ensures
            final(self).wf(),
            final(self).records() == map_record(
                old(self).records(),
                handle,
                |r: ToplevelRecord| ToplevelRecord { pending_outputs: r.pending_outputs.insert(output_id), ..r },
            ),
            final(self).foreign() == old(self).foreign(),
    {
        self.apply_to(handle, &ToplevelEvent::OutputEnter(output_id));
        assert(final(self).records() =~= map_record(
                old(self).records(),
                handle,
                |r: ToplevelRecord| ToplevelRecord { pending_outputs: r.pending_outputs.insert(output_id), ..r },
            ));
    }

    /// Removes an output from a window's pending outputs.
    pub fn remove_pending_output(&mut self, handle: u32, output_id: u32)
        requires
            old(self).wf(),
        ensures
            final(self).wf(),
            final(self).records() == map_record(
                old(self).records(),
                handle,
                |r: ToplevelRecord| ToplevelRecord { pending_outputs: r.pending_outputs.remove(output_id), ..r },
            ),
            final(self).foreign() == old(self).foreign(),
    {
        self.apply_to(handle, &ToplevelEvent::OutputLeave(output_id));
        assert(final(self).records() =~= map_record(
                old(self).records(),
                handle,
                |r: ToplevelRecord| ToplevelRecord { pending_outputs: r.pending_outputs.remove(output_id), ..r },
            ));
    }

    /// Adds a workspace to a window's pending workspaces.
    pub fn add_pending_workspace(&mut self, handle: u32, workspace_id: u32)
        requires
            old(self).wf(),
        ensures
            final(self).wf(),
            final(self).records() == map_record(
                old(self).records(),
                handle,
                |r: ToplevelRecord| ToplevelRecord { pending_workspaces: r.pending_workspaces.insert(workspace_id), ..r },
            ),
            final(self).foreign() == old(self).foreign(),
    {
        self.apply_to(handle, &ToplevelEvent::WorkspaceEnter(workspace_id));
        assert(final(self).records() =~= map_record(
                old(self).records(),
                handle,
                |r: ToplevelRecord| ToplevelRecord { pending_workspaces: r.pending_workspaces.insert(workspace_id), ..r },
            ));
    }

    /// Removes a workspace from a window's pending workspaces.
    pub fn remove_pending_workspace(&mut self, handle: u32, workspace_id: u32)
        requires
            old(self).wf(),
        ensures
            final(self).wf(),
            final(self).records() == map_record(
                old(self).records(),
                handle,
                |r: ToplevelRecord| ToplevelRecord { pending_workspaces: r.pending_workspaces.remove(workspace_id), ..r },
            ),
            final(self).foreign() == old(self).foreign(),
    {
        self.apply_to(handle, &ToplevelEvent::WorkspaceLeave(workspace_id));
        assert(final(self).records() =~= map_record(
                old(self).records(),
                handle,
                |r: ToplevelRecord| ToplevelRecord { pending_workspaces: r.pending_workspaces.remove(workspace_id), ..r },
            ));
    }

    /// Commits a window's pending fields; returns whether its fullscreen flag,
    /// outputs or workspaces changed (false for an untracked handle).
    pub fn commit_toplevel(&mut self, handle: u32) -> (changed: bool)
        requires
            old(self).wf(),
        ensures
            final(self).wf(),
            final(self).records() == commit_record(old(self).records(), handle),
            final(self).foreign() == old(self).foreign(),
            changed == commit_changes_handle(old(self).records(), handle),
    {
        let changed = self.apply_to(handle, &ToplevelEvent::Done);
        assert(final(self).records() =~= commit_record(old(self).records(), handle));
        changed
    }
    /// Whether some committed fullscreen window covers output `output_id`.
    pub fn has_fullscreen_on_output_id(&self, output_id: u32) -> (r: bool)
        ensures
            r == fullscreen_on(self.records(), output_id),
    {
        let mut i: usize = 0;
        while i < self.toplevels.len()
            invariant
                0 <= i <= self.toplevels@.len(),
                forall|j: int|
                    0 <= j < i ==> !((#[trigger] self.records()[j].1).fullscreen
                        && self.records()[j].1.outputs.contains(output_id)),
            decreases self.toplevels@.len() - i,
        {
            let data = &self.toplevels[i].1;
            if data.fullscreen && ids_contains(&data.output_ids, output_id) {
                assert(self.records()[i as int].1.fullscreen);
                return true;
            }
            i = i + 1;
        }
        false
    }

    /// The outputs covered by some committed fullscreen window.
    pub fn get_fullscreen_output_ids(&self) -> (r: Vec<u32>)
        ensures
            r@.to_set() == fullscreen_outputs(self.records()),
    {
        let mut r: Vec<u32> = Vec::new();
        let mut i: usize = 0;
        while i < self.toplevels.len()
            invariant
                0 <= i <= self.toplevels@.len(),
                forall|o: u32|
                    r@.to_set().contains(o) <==> exists|j: int|
                        0 <= j < i && (#[trigger] self.records()[j].1).fullscreen
                            && self.records()[j].1.outputs.contains(o),
            decreases self.toplevels@.len() - i,
        {
            let data = &self.toplevels[i].1;
            let ghost before = r@.to_set();
            if data.fullscreen {
                ids_union_into(&mut r, &data.output_ids);
            }
            proof {
                let rec = self.records()[i as int].1;
                assert(rec.outputs == data.output_ids@.to_set());
                assert(rec.fullscreen == data.fullscreen);
                assert forall|o: u32|
                    r@.to_set().contains(o) <==> exists|j: int|
                        0 <= j < i + 1 && (#[trigger] self.records()[j].1).fullscreen
                            && self.records()[j].1.outputs.contains(o) by {
                    if exists|j: int|
                        0 <= j < i + 1 && (#[trigger] self.records()[j].1).fullscreen
                            && self.records()[j].1.outputs.contains(o) {
                        let j = choose|j: int|
                            0 <= j < i + 1 && (#[trigger] self.records()[j].1).fullscreen
                                && self.records()[j].1.outputs.contains(o);
                        if j < i {
                            assert(self.records()[j].1.fullscreen && self.records()[j].1.outputs.contains(o));
                            assert(before.contains(o));
                        } else {
                            assert(data.output_ids@.contains(o));
                            let m = choose|m: int| 0 <= m < data.output_ids@.len() && data.output_ids@[m] == o;
                            assert(data.output_ids@[m] == o);
                        }
                    }
                    if r@.to_set().contains(o) {
                        if before.contains(o) {
                            let j = choose|j: int|
                                0 <= j < i && (#[trigger] self.records()[j].1).fullscreen
                                    && self.records()[j].1.outputs.contains(o);
                            assert(self.records()[j].1.fullscreen && self.records()[j].1.outputs.contains(o));
                        } else {
                            assert(data.output_ids@.to_set().contains(o));
                            assert(self.records()[i as int].1.fullscreen && self.records()[i as int].1.outputs.contains(o));
                        }
                    }
                }
            }
            i = i + 1;
        }
        assert(r@.to_set() =~= fullscreen_outputs(self.records()));
        r
    }

    /// Whether some committed fullscreen window covers output `output_id` and is
    /// on one of the workspaces in `active_workspace_ids`. A window with no
    /// workspace is never taken to be on an active one.
    pub fn has_active_fullscreen_on_output_id(&self, output_id: u32, active_workspace_ids: &Vec<u32>) -> (r: bool)
        ensures
            r == active_fullscreen_on(self.records(), output_id, active_workspace_ids@.to_set()),
    {
        let ghost active = active_workspace_ids@.to_set();
        if active_workspace_ids.len() == 0 {
            assert(!active_fullscreen_on(self.records(), output_id, active)) by {
                assert(active =~= Set::<u32>::empty());
            }
            return false;
        }
        let mut i: usize = 0;
        while i < self.toplevels.len()
            invariant
                0 <= i <= self.toplevels@.len(),
                active == active_workspace_ids@.to_set(),
                forall|j: int, w: u32|
                    0 <= j < i ==> !((#[trigger] self.records()[j].1).fullscreen
                        && self.records()[j].1.outputs.contains(output_id)
                        && self.records()[j].1.workspaces.contains(w) && #[trigger] active.contains(w)),
            decreases self.toplevels@.len() - i,
        {
            let data = &self.toplevels[i].1;
            let ghost rec = self.records()[i as int].1;
            let mut on_active = false;
            let mut k: usize = 0;
            while k < data.workspace_ids.len()
                invariant
                    0 <= k <= data.workspace_ids@.len(),
                    data == &self.toplevels@[i as int].1,
                    i < self.toplevels@.len(),
                    on_active == exists|m: int|
                        0 <= m < k && active.contains(#[trigger] data.workspace_ids@[m]),
                    active == active_workspace_ids@.to_set(),
                decreases data.workspace_ids@.len() - k,
            {
                if ids_contains(active_workspace_ids, data.workspace_ids[k]) {
                    on_active = true;
                }
                k = k + 1;
            }
            if data.fullscreen && ids_contains(&data.output_ids, output_id) && on_active {
                let ghost m = choose|m: int| 0 <= m < k && active.contains(#[trigger] data.workspace_ids@[m]);
                let ghost w = data.workspace_ids@[m];
                assert(rec.workspaces.contains(w));
                assert(self.records()[i as int].1.fullscreen);
                return true;
            }
            proof {
                assert forall|w: u32|
                    !((#[trigger] self.records()[i as int].1).fullscreen
                        && self.records()[i as int].1.outputs.contains(output_id)
                        && self.records()[i as int].1.workspaces.contains(w) && #[trigger] active.contains(w)) by {
                    if rec.workspaces.contains(w) && active.contains(w) {
                        let m = choose|m: int| 0 <= m < data.workspace_ids@.len() && data.workspace_ids@[m] == w;
                        assert(active.contains(data.workspace_ids@[m]));
                    }
                }
            }
            i = i + 1;
        }
        false
    }

    fn find_foreign(&self, foreign: u32) -> (r: Option<usize>)
        ensures
            r matches Some(i) ==> i < self.foreign().len() && self.foreign()[i as int].0 == foreign,
            r is None ==> !has_foreign(self.foreign(), foreign),
    {
        let mut i: usize = 0;
        while i < self.foreign_to_cosmic.len()
            invariant
                0 <= i <= self.foreign_to_cosmic@.len(),
                forall|j: int| 0 <= j < i ==> #[trigger] self.foreign()[j].0 != foreign,
            decreases self.foreign_to_cosmic@.len() - i,
        {
            if self.foreign_to_cosmic[i].0 == foreign {
                return Some(i);
            }
            i = i + 1;
        }
        None
    }

    /// Records that `cosmic` is the richer handle of foreign handle `foreign`.
    pub fn register_cosmic_handle(&mut self, foreign: u32, cosmic: u32)
        requires
            old(self).wf(),
        ensures
            final(self).wf(),
            final(self).records() == old(self).records(),
            maps_to(final(self).foreign(), foreign, cosmic),
            forall|f: u32| f != foreign ==> (has_foreign(final(self).foreign(), f) == has_foreign(old(self).foreign(), f)),
            forall|f: u32, c: u32| f != foreign ==> (maps_to(final(self).foreign(), f, c) == maps_to(old(self).foreign(), f, c)),
    {
        let ghost m = old(self).foreign();
        match self.find_foreign(foreign) {
            Some(i) => {
                self.foreign_to_cosmic.set(i, (foreign, cosmic));
                assert(self.foreign() == m.update(i as int, (foreign, cosmic)));
                assert(self.foreign()[i as int] == (foreign, cosmic));
                assert forall|f: u32| f != foreign implies (has_foreign(self.foreign(), f) == has_foreign(m, f)) by {
                    if has_foreign(m, f) {
                        let j = choose|j: int| 0 <= j < m.len() && #[trigger] m[j].0 == f;
                        assert(self.foreign()[j].0 == f);
                    }
                    if has_foreign(self.foreign(), f) {
                        let j = choose|j: int| 0 <= j < self.foreign().len() && #[trigger] self.foreign()[j].0 == f;
                        assert(m[j].0 == f);
                    }
                }
                assert forall|f: u32, c: u32| f != foreign implies (maps_to(self.foreign(), f, c) == maps_to(m, f, c)) by {
                    if maps_to(m, f, c) {
                        let j = choose|j: int| 0 <= j < m.len() && #[trigger] m[j] == (f, c);
                        assert(self.foreign()[j] == (f, c));
                    }
                    if maps_to(self.foreign(), f, c) {
                        let j = choose|j: int| 0 <= j < self.foreign().len() && #[trigger] self.foreign()[j] == (f, c);
                        assert(m[j] == (f, c));
                    }
                }
            },
            None => {
                self.foreign_to_cosmic.push((foreign, cosmic));
                assert(self.foreign()[m.len() as int] == (foreign, cosmic));
                assert forall|f: u32| f != foreign implies (has_foreign(self.foreign(), f) == has_foreign(m, f)) by {
                    if has_foreign(m, f) {
                        let j = choose|j: int| 0 <= j < m.len() && #[trigger] m[j].0 == f;
                        assert(self.foreign()[j].0 == f);
                    }
                    if has_foreign(self.foreign(), f) {
                        let j = choose|j: int| 0 <= j < self.foreign().len() && #[trigger] self.foreign()[j].0 == f;
                        assert(m[j].0 == f);
                    }
                }
                assert forall|f: u32, c: u32| f != foreign implies (maps_to(self.foreign(), f, c) == maps_to(m, f, c)) by {
                    if maps_to(m, f, c) {
                        let j = choose|j: int| 0 <= j < m.len() && #[trigger] m[j] == (f, c);
                        assert(self.foreign()[j] == (f, c));
                    }
                    if maps_to(self.foreign(), f, c) {
                        let j = choose|j: int| 0 <= j < self.foreign().len() && #[trigger] self.foreign()[j] == (f, c);
                        assert(m[j] == (f, c));
                    }
                }
            },
        }
    }

    /// The richer handle registered for a foreign handle, if any.
    pub fn get_cosmic_for_foreign(&self, foreign: u32) -> (r: Option<u32>)
        requires
            self.wf(),
        ensures
            r is None <==> !has_foreign(self.foreign(), foreign),
            r matches Some(c) ==> maps_to(self.foreign(), foreign, c),
    {
        match self.find_foreign(foreign) {
            Some(i) => {
                assert(self.foreign()[i as int] == (foreign, self.foreign()[i as int].1));
                Some(self.foreign_to_cosmic[i].1)
            },
            None => None,
        }
    }

    /// Forgets a foreign handle and stops tracking the window registered for it.
    pub fn remove_foreign_toplevel(&mut self, foreign: u32)
        requires
            old(self).wf(),
        ensures
            final(self).wf(),
            !has_foreign(final(self).foreign(), foreign),
            forall|f: u32| f != foreign ==> (has_foreign(final(self).foreign(), f) == has_foreign(old(self).foreign(), f)),
            forall|f: u32, c: u32| f != foreign ==> (maps_to(final(self).foreign(), f, c) == maps_to(old(self).foreign(), f, c)),
            !has_foreign(old(self).foreign(), foreign) ==> final(self).records() == old(self).records(),
            forall|c: u32| maps_to(old(self).foreign(), foreign, c) ==> final(self).records() == without_handle(old(self).records(), c),
    {
        let ghost m = old(self).foreign();
        if let Some(i) = self.find_foreign(foreign) {
            let (_, cosmic) = self.foreign_to_cosmic.remove(i);
            let ghost m2 = self.foreign();
            assert(m2 == m.remove(i as int));
            assert forall|f: u32| f != foreign implies (has_foreign(m2, f) == has_foreign(m, f)) by {
                if has_foreign(m, f) {
                    let j = choose|j: int| 0 <= j < m.len() && #[trigger] m[j].0 == f;
                    if j < i { assert(m2[j].0 == f); } else { assert(m2[j - 1].0 == f); }
                }
                if has_foreign(m2, f) {
                    let j = choose|j: int| 0 <= j < m2.len() && #[trigger] m2[j].0 == f;
                    if j < i { assert(m[j].0 == f); } else { assert(m[j + 1].0 == f); }
                }
            }
            assert forall|f: u32, c: u32| f != foreign implies (maps_to(m2, f, c) == maps_to(m, f, c)) by {
                if maps_to(m, f, c) {
                    let j = choose|j: int| 0 <= j < m.len() && #[trigger] m[j] == (f, c);
                    if j < i { assert(m2[j] == (f, c)); } else { assert(m2[j - 1] == (f, c)); }
                }
                if maps_to(m2, f, c) {
                    let j = choose|j: int| 0 <= j < m2.len() && #[trigger] m2[j] == (f, c);
                    if j < i { assert(m[j] == (f, c)); } else { assert(m[j + 1] == (f, c)); }
                }
            }
            assert(!has_foreign(m2, foreign)) by {
                if has_foreign(m2, foreign) {
                    let j = choose|j: int| 0 <= j < m2.len() && #[trigger] m2[j].0 == foreign;
                    if j < i { assert(m[j].0 == foreign); } else { assert(m[j + 1].0 == foreign); }
                }
            }
            assert forall|c: u32| maps_to(m, foreign, c) implies c == cosmic by {
                let j = choose|j: int| 0 <= j < m.len() && #[trigger] m[j] == (foreign, c);
                assert(m[j].0 == foreign);
            }
            assert(self.records() == old(self).records());
            self.remove_toplevel(cosmic);
        } else {
            assert forall|c: u32| !maps_to(m, foreign, c) by {
                if maps_to(m, foreign, c) {
                    let j = choose|j: int| 0 <= j < m.len() && #[trigger] m[j] == (foreign, c);
                    assert(m[j].0 == foreign);
                }
            }
        }
    }

    /// Commits the window registered for a foreign handle; returns whether it changed.
    pub fn commit_foreign_toplevel(&mut self, foreign: u32) -> (changed: bool)
        requires
            old(self).wf(),
        ensures
            final(self).wf(),
            final(self).foreign() == old(self).foreign(),
            !has_foreign(old(self).foreign(), foreign) ==> final(self).records() == old(self).records() && !changed,
            forall|c: u32| maps_to(old(self).foreign(), foreign, c) ==> final(self).records() == commit_record(old(self).records(), c)
                && changed == commit_changes_handle(old(self).records(), c),
    {
        match self.get_cosmic_for_foreign(foreign) {
            Some(cosmic) => {
                proof {
                    let m = old(self).foreign();
                    assert forall|c: u32| maps_to(m, foreign, c) implies c == cosmic by {
                        let j = choose|j: int| 0 <= j < m.len() && #[trigger] m[j] == (foreign, c);
                        let k = choose|k: int| 0 <= k < m.len() && #[trigger] m[k] == (foreign, cosmic);
                        assert(m[j].0 == m[k].0);
                    }
                }
                assert(self.records() == old(self).records());
                let changed = self.commit_toplevel(cosmic);
                changed
            },
            None => {
                let ghost m = old(self).foreign();
                assert forall|c: u32| !maps_to(m, foreign, c) by {
                    if maps_to(m, foreign, c) {
                        let j = choose|j: int| 0 <= j < m.len() && #[trigger] m[j] == (foreign, c);
                        assert(m[j].0 == foreign);
                    }
                }
                false
            },
        }
    }
    /// Handles an event of a toplevel handle of the direct revision; returns
    /// whether the pause verdicts must be re-evaluated.
    pub fn handle_toplevel_event(&mut self, handle: u32, event: ToplevelEvent) -> (notify: bool)
        requires
            old(self).wf(),
        ensures
            final(self).wf(),
            final(self).records() == direct_step(old(self).records(), handle, event),
            final(self).foreign() == old(self).foreign(),
            notify == direct_step_notifies(old(self).records(), handle, event),
    {
        self.add_toplevel(handle);
        match event {
            ToplevelEvent::Closed => {
                let had_fullscreen = match self.find(handle) {
                    Some(i) => self.toplevels[i].1.fullscreen,
                    None => false,
                };
                proof {
                    let t = self.records();
                    if had_fullscreen != is_fullscreen_handle(t, handle) {
                        let j = choose|j: int| 0 <= j < t.len() && #[trigger] t[j].0 == handle && t[j].1.fullscreen;
                        assert(t[j].0 == handle);
                    }
                }
                self.remove_toplevel(handle);
                had_fullscreen
            },
            _ => {
                let changed = self.apply_to(handle, &event);
                changed
            },
        }
    }

    /// Handles an event of a richer handle obtained for foreign handle `foreign`
    /// (later revision); returns whether the pause verdicts must be re-evaluated.
    pub fn handle_foreign_cosmic_event(&mut self, handle: u32, foreign: u32, event: ToplevelEvent) -> (notify: bool)
        requires
            old(self).wf(),
        ensures
            final(self).wf(),
            final(self).records() == foreign_step(old(self).records(), handle, event),
            has_handle(old(self).records(), handle) ==> final(self).foreign() == old(self).foreign(),
            !has_handle(old(self).records(), handle) ==> maps_to(final(self).foreign(), foreign, handle),
            notify == (event is Done && commit_changes_handle(with_handle(old(self).records(), handle), handle)),
    {
        if self.find(handle).is_none() {
            self.register_cosmic_handle(foreign, handle);
        }
        self.add_toplevel(handle);
        match event {
            ToplevelEvent::Closed => false,
            _ => {
                let changed = self.apply_to(handle, &event);
                changed
            },
        }
    }

    /// Whether the window of handle `handle` is committed fullscreen.
    pub fn is_fullscreen(&self, handle: u32) -> (r: bool)
        requires
            self.wf(),
        ensures
            r == is_fullscreen_handle(self.records(), handle),
    {
        match self.find(handle) {
            Some(i) => {
                let r = self.toplevels[i].1.fullscreen;
                proof {
                    let t = self.records();
                    if is_fullscreen_handle(t, handle) {
                        let j = choose|j: int| 0 <= j < t.len() && #[trigger] t[j].0 == handle && t[j].1.fullscreen;
                        assert(t[j].0 == t[i as int].0);
                    }
                }
                r
            },
            None => false,
        }
    }

    /// Handles an event of a foreign toplevel handle; returns whether the pause
    /// verdicts must be re-evaluated.
    pub fn handle_foreign_event(&mut self, foreign: u32, event: ForeignToplevelEvent) -> (notify: bool)
        requires
            old(self).wf(),
        ensures
            final(self).wf(),
            event is Other ==> final(self).records() == old(self).records() && final(self).foreign() == old(self).foreign() && !notify,
            event is Closed ==> !has_foreign(final(self).foreign(), foreign),
            event is Closed ==> forall|c: u32| maps_to(old(self).foreign(), foreign, c) ==> notify == is_fullscreen_handle(old(self).records(), c),
            event is Closed ==> forall|c: u32| maps_to(old(self).foreign(), foreign, c) ==> final(self).records() == without_handle(old(self).records(), c),
            event is Done ==> final(self).foreign() == old(self).foreign(),
            event is Done ==> forall|c: u32| maps_to(old(self).foreign(), foreign, c) ==> final(self).records() == commit_record(old(self).records(), c)
                && notify == commit_changes_handle(old(self).records(), c),
            (event is Done || event is Closed) && !has_foreign(old(self).foreign(), foreign) ==> final(self).records() == old(self).records() && !notify,
    {
        match event {
            ForeignToplevelEvent::Closed => {
                let had_fullscreen = match self.get_cosmic_for_foreign(foreign) {
                    Some(c) => {
                        proof {
                            let m = old(self).foreign();
                            assert forall|c2: u32| maps_to(m, foreign, c2) implies c2 == c by {
                                let j = choose|j: int| 0 <= j < m.len() && #[trigger] m[j] == (foreign, c2);
                                let k = choose|k: int| 0 <= k < m.len() && #[trigger] m[k] == (foreign, c);
                                assert(m[j].0 == m[k].0);
                            }
                        }
                        self.is_fullscreen(c)
                    },
                    None => {
                        proof {
                            let m = old(self).foreign();
                            assert forall|c2: u32| !maps_to(m, foreign, c2) by {
                                if maps_to(m, foreign, c2) {
                                    let j = choose|j: int| 0 <= j < m.len() && #[trigger] m[j] == (foreign, c2);
                                    assert(m[j].0 == foreign);
                                }
                            }
                        }
                        false
                    },
                };
                self.remove_foreign_toplevel(foreign);
                had_fullscreen
            },
            ForeignToplevelEvent::Done => self.commit_foreign_toplevel(foreign),
            ForeignToplevelEvent::Other => false,
        }
    }
}

} // verus!
