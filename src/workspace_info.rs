//! Workspace tracking: which workspaces are active on which outputs.
//!
//! Groups bind workspaces to outputs. Events change pending fields only; the
//! manager's `Done` event commits every group and workspace at once.

use vstd::prelude::*;

use crate::ids::{ids_contains, ids_copy, ids_insert, ids_remove, ids_same};

verus! {

broadcast use vstd::seq_lib::group_seq_properties;

/// The active flag of one workspace.
#[derive(Clone, Copy, PartialEq, Eq, Structural, Debug)]
pub struct WorkspaceData {
    /// Whether this workspace is currently active.
    pub is_active: bool,
    /// Active flag, pending until the next `Done` event.
    pub pending_is_active: bool,
}

/// What is known of one workspace group.
pub struct WorkspaceGroupData {
    /// Object IDs of the outputs of this group (committed).
    pub output_ids: Vec<u32>,
    /// Object IDs of the outputs of this group (pending).
    pub pending_output_ids: Vec<u32>,
    /// Object IDs of the workspaces of this group.
    pub workspaces: Vec<u32>,
}

/// The model of a [`WorkspaceGroupData`].
pub ghost struct GroupRecord {
    pub outputs: Set<u32>,
    pub pending_outputs: Set<u32>,
    pub members: Set<u32>,
}

impl View for WorkspaceGroupData {
    type V = GroupRecord;

    open spec fn view(&self) -> GroupRecord {
        GroupRecord {
            outputs: self.output_ids@.to_set(),
            pending_outputs: self.pending_output_ids@.to_set(),
            members: self.workspaces@.to_set(),
        }
    }
}

/// An event of the workspace manager.
pub enum WorkspaceManagerEvent {
    /// A workspace group was announced.
    WorkspaceGroup(u32),
    /// All changes of this batch have been sent.
    Done,
    /// An event with no bearing on the tracked state.
    Other,
}

/// An event of a workspace group handle.
pub enum WorkspaceGroupEvent {
    /// The group was bound to an output.
    OutputEnter(u32),
    /// The group was unbound from an output.
    OutputLeave(u32),
    /// A workspace joined the group.
    WorkspaceEnter(u32),
    /// A workspace left the group.
    WorkspaceLeave(u32),
    /// The group was removed.
    Removed,
    /// An event with no bearing on the tracked state.
    Other,
}

/// An event of a workspace handle.
pub enum WorkspaceEvent {
    /// The workspace's state: whether its active bit is set.
    State(bool),
    /// An event with no bearing on the tracked state.
    Other,
}

/// Whether some entry of `s` has key `k`.
pub open spec fn has_key<V>(s: Seq<(u32, V)>, k: u32) -> bool {
    exists|i: int| 0 <= i < s.len() && #[trigger] s[i].0 == k
}

/// Whether `(k, v)` is an entry of `s`.
pub open spec fn has_entry<V>(s: Seq<(u32, V)>, k: u32, v: V) -> bool {
    exists|i: int| 0 <= i < s.len() && #[trigger] s[i] == (k, v)
}

/// Whether no two entries of `s` share a key.
pub open spec fn unique_keys<V>(s: Seq<(u32, V)>) -> bool {
    forall|i: int, j: int| 0 <= i < s.len() && 0 <= j < s.len() && i != j ==> s[i].0 != s[j].0
}

/// The group records with `f` applied to the one of handle `h`.
pub open spec fn map_group(
    s: Seq<(u32, GroupRecord)>,
    h: u32,
    f: spec_fn(GroupRecord) -> GroupRecord,
) -> Seq<(u32, GroupRecord)> {
    s.map_values(|e: (u32, GroupRecord)| if e.0 == h { (e.0, f(e.1)) } else { e })
}

/// Whether workspace `w` is committed active in `ws`.
pub open spec fn is_active_in(ws: Seq<(u32, WorkspaceData)>, w: u32) -> bool {
    exists|i: int| 0 <= i < ws.len() && #[trigger] ws[i].0 == w && ws[i].1.is_active
}

/// The workspaces that are active on output `o`: the committed-active members of
/// every group whose committed outputs include `o`.
pub open spec fn active_on(gs: Seq<(u32, GroupRecord)>, ws: Seq<(u32, WorkspaceData)>, o: u32) -> Set<u32> {
    Set::new(
        |w: u32|
            exists|g: int|
                0 <= g < gs.len() && (#[trigger] gs[g].1).outputs.contains(o) && gs[g].1.members.contains(w)
                    && is_active_in(ws, w),
    )
}

/// Whether committing group record `r` changes its outputs.
pub open spec fn group_commit_changes(r: GroupRecord) -> bool {
    r.outputs != r.pending_outputs
}

/// The workspace record after a commit.
pub open spec fn workspace_committed(d: WorkspaceData) -> WorkspaceData {
    WorkspaceData { is_active: d.pending_is_active, ..d }
}

/// The workspace entries with `f` applied to the one of handle `w`.
pub open spec fn map_workspace(
    s: Seq<(u32, WorkspaceData)>,
    w: u32,
    f: spec_fn(WorkspaceData) -> WorkspaceData,
) -> Seq<(u32, WorkspaceData)> {
    s.map_values(|e: (u32, WorkspaceData)| if e.0 == w { (e.0, f(e.1)) } else { e })
}

/// The group record after a commit.
pub open spec fn group_committed(r: GroupRecord) -> GroupRecord {
    GroupRecord { outputs: r.pending_outputs, ..r }
}

/// The member workspaces of group `g`.
pub open spec fn group_members(gs: Seq<(u32, GroupRecord)>, g: u32) -> Set<u32> {
    Set::new(|w: u32| exists|i: int| 0 <= i < gs.len() && #[trigger] gs[i].0 == g && gs[i].1.members.contains(w))
}

/// Whether committing group `g` changes its outputs.
pub open spec fn group_commit_changes_handle(gs: Seq<(u32, GroupRecord)>, g: u32) -> bool {
    exists|i: int| 0 <= i < gs.len() && #[trigger] gs[i].0 == g && group_commit_changes(gs[i].1)
}

/// Whether committing workspace `w` changes its active flag.
pub open spec fn workspace_commit_changes_handle(ws: Seq<(u32, WorkspaceData)>, w: u32) -> bool {
    exists|i: int| 0 <= i < ws.len() && #[trigger] ws[i].0 == w && ws[i].1.is_active != ws[i].1.pending_is_active
}

/// Every group committed.
pub open spec fn all_groups_committed(gs: Seq<(u32, GroupRecord)>) -> Seq<(u32, GroupRecord)> {
    gs.map_values(|e: (u32, GroupRecord)| (e.0, group_committed(e.1)))
}

/// Every workspace committed.
pub open spec fn all_workspaces_committed(ws: Seq<(u32, WorkspaceData)>) -> Seq<(u32, WorkspaceData)> {
    ws.map_values(|e: (u32, WorkspaceData)| (e.0, workspace_committed(e.1)))
}

/// Whether committing everything changes some group's outputs or some
/// workspace's active flag.
pub open spec fn commit_all_changes(gs: Seq<(u32, GroupRecord)>, ws: Seq<(u32, WorkspaceData)>) -> bool {
    (exists|i: int| 0 <= i < gs.len() && group_commit_changes(#[trigger] gs[i].1))
        || (exists|i: int| 0 <= i < ws.len() && (#[trigger] ws[i].1).is_active != ws[i].1.pending_is_active)
}

/// The group records without the one of handle `g`.
pub open spec fn without_group(gs: Seq<(u32, GroupRecord)>, g: u32) -> Seq<(u32, GroupRecord)> {
    if has_key(gs, g) {
        gs.remove(choose|i: int| 0 <= i < gs.len() && #[trigger] gs[i].0 == g)
    } else {
        gs
    }
}

/// Committing every group and workspace a second time changes nothing.
pub proof fn lemma_commit_all_idempotent(gs: Seq<(u32, GroupRecord)>, ws: Seq<(u32, WorkspaceData)>)
    ensures
        !commit_all_changes(all_groups_committed(gs), all_workspaces_committed(ws)),
{
    let gs2 = all_groups_committed(gs);
    let ws2 = all_workspaces_committed(ws);
    if exists|i: int| 0 <= i < gs2.len() && group_commit_changes(#[trigger] gs2[i].1) {
        let i = choose|i: int| 0 <= i < gs2.len() && group_commit_changes(#[trigger] gs2[i].1);
        assert(gs2[i].1 == group_committed(gs[i].1));
    }
    if exists|i: int| 0 <= i < ws2.len() && (#[trigger] ws2[i].1).is_active != ws2[i].1.pending_is_active {
        let i = choose|i: int| 0 <= i < ws2.len() && (#[trigger] ws2[i].1).is_active != ws2[i].1.pending_is_active;
        assert(ws2[i].1 == workspace_committed(ws[i].1));
    }
}

/// Committing one workspace a second time changes nothing.
pub proof fn lemma_commit_workspace_idempotent(ws: Seq<(u32, WorkspaceData)>, w: u32)
    requires
        unique_keys(ws),
    ensures
        !workspace_commit_changes_handle(
            map_workspace(ws, w, |d: WorkspaceData| workspace_committed(d)),
            w,
        ),
{
    let ws2 = map_workspace(ws, w, |d: WorkspaceData| workspace_committed(d));
    if workspace_commit_changes_handle(ws2, w) {
        let i = choose|i: int| 0 <= i < ws2.len() && #[trigger] ws2[i].0 == w && ws2[i].1.is_active != ws2[i].1.pending_is_active;
        assert(ws2[i] == (w, workspace_committed(ws[i].1)));
    }
}

/// Whether `w` is among the first `n` entries of `s`.
pub open spec fn in_prefix(s: Seq<u32>, n: int, w: u32) -> bool {
    exists|m: int| 0 <= m < n && #[trigger] s[m] == w
}

/// The record of a group that has just been announced.
pub open spec fn empty_group() -> GroupRecord {
    GroupRecord { outputs: Set::empty(), pending_outputs: Set::empty(), members: Set::empty() }
}

/// The entry of a workspace that has just joined a group.
pub open spec fn new_workspace() -> WorkspaceData {
    WorkspaceData { is_active: false, pending_is_active: false }
}

/// The workspace entries with one for `w` added, inactive, if there was none.
pub open spec fn with_workspace(ws: Seq<(u32, WorkspaceData)>, w: u32) -> Seq<(u32, WorkspaceData)> {
    if has_key(ws, w) {
        ws
    } else {
        ws.push((w, new_workspace()))
    }
}

/// Whether `ws2` holds the entries of `ws` whose keys are not in `gone`, and
/// no others.
pub open spec fn drops_workspaces(ws: Seq<(u32, WorkspaceData)>, ws2: Seq<(u32, WorkspaceData)>, gone: Set<u32>) -> bool {
    &&& forall|x: u32, d: WorkspaceData| has_entry(ws2, x, d) == (has_entry(ws, x, d) && !gone.contains(x))
    &&& forall|x: u32| has_key(ws2, x) == (has_key(ws, x) && !gone.contains(x))
}

/// What event `ev` of group `group` does: groups `gs` and workspaces `ws`
/// become `gs2` and `ws2`.
pub open spec fn group_event_effect(
    gs: Seq<(u32, GroupRecord)>,
    ws: Seq<(u32, WorkspaceData)>,
    gs2: Seq<(u32, GroupRecord)>,
    ws2: Seq<(u32, WorkspaceData)>,
    group: u32,
    ev: WorkspaceGroupEvent,
) -> bool {
    match ev {
        WorkspaceGroupEvent::OutputEnter(o) => ws2 == ws && gs2 == map_group(gs, group,
            |r: GroupRecord| GroupRecord { pending_outputs: r.pending_outputs.insert(o), ..r }),
        WorkspaceGroupEvent::OutputLeave(o) => ws2 == ws && gs2 == map_group(gs, group,
            |r: GroupRecord| GroupRecord { pending_outputs: r.pending_outputs.remove(o), ..r }),
        WorkspaceGroupEvent::WorkspaceEnter(w) => ws2 == with_workspace(ws, w) && gs2 == map_group(gs, group,
            |r: GroupRecord| GroupRecord { members: r.members.insert(w), ..r }),
        WorkspaceGroupEvent::WorkspaceLeave(w) => drops_workspaces(ws, ws2, set![w]) && gs2 == map_group(gs, group,
            |r: GroupRecord| GroupRecord { members: r.members.remove(w), ..r }),
        WorkspaceGroupEvent::Removed => drops_workspaces(ws, ws2, group_members(gs, group))
            && gs2 == without_group(gs, group),
        WorkspaceGroupEvent::Other => gs2 == gs && ws2 == ws,
    }
}

/// What event `ev` of workspace `w` does: the groups stay, and a state event
/// sets the workspace's pending active flag.
pub open spec fn workspace_event_effect(
    gs: Seq<(u32, GroupRecord)>,
    ws: Seq<(u32, WorkspaceData)>,
    gs2: Seq<(u32, GroupRecord)>,
    ws2: Seq<(u32, WorkspaceData)>,
    w: u32,
    ev: WorkspaceEvent,
) -> bool {
    gs2 == gs && match ev {
        WorkspaceEvent::State(a) => ws2 == map_workspace(ws, w, |d: WorkspaceData| WorkspaceData { pending_is_active: a, ..d }),
        WorkspaceEvent::Other => ws2 == ws,
    }
}

/// What manager event `ev` does: a new group is appended with an empty
/// record, and `Done` commits everything.
pub open spec fn manager_event_effect(
    gs: Seq<(u32, GroupRecord)>,
    ws: Seq<(u32, WorkspaceData)>,
    gs2: Seq<(u32, GroupRecord)>,
    ws2: Seq<(u32, WorkspaceData)>,
    ev: WorkspaceManagerEvent,
) -> bool {
    match ev {
        WorkspaceManagerEvent::WorkspaceGroup(g) => ws2 == ws
            && gs2 == (if has_key(gs, g) { gs } else { gs.push((g, empty_group())) }),
        WorkspaceManagerEvent::Done => gs2 == all_groups_committed(gs) && ws2 == all_workspaces_committed(ws),
        WorkspaceManagerEvent::Other => gs2 == gs && ws2 == ws,
    }
}

/// Tracks workspace groups and workspaces.
pub struct WorkspaceTracker {
    /// Workspace groups, by handle.
    pub groups: Vec<(u32, WorkspaceGroupData)>,
    /// Workspaces, by handle.
    pub workspaces: Vec<(u32, WorkspaceData)>,
}

impl WorkspaceTracker {
    /// The records of the groups, in order of announcement.
    pub open spec fn group_records(&self) -> Seq<(u32, GroupRecord)> {
        self.groups@.map_values(|e: (u32, WorkspaceGroupData)| (e.0, e.1@))
    }

    /// The workspace entries.
    pub open spec fn workspace_records(&self) -> Seq<(u32, WorkspaceData)> {
        self.workspaces@
    }

    /// Handles are unique in both lists.
    pub open spec fn wf(&self) -> bool {
        unique_keys(self.group_records()) && unique_keys(self.workspace_records())
    }

    /// A tracker with no groups and no workspaces.
    pub fn new() -> (r: Self)
        ensures
            r.wf(),
            r.group_records().len() == 0,
            r.workspace_records().len() == 0,
    {
        WorkspaceTracker { groups: Vec::new(), workspaces: Vec::new() }
    }

    fn find_group(&self, handle: u32) -> (r: Option<usize>)
        ensures
            r matches Some(i) ==> i < self.group_records().len() && self.group_records()[i as int].0 == handle,
            r is None ==> !has_key(self.group_records(), handle),
    {
        let mut i: usize = 0;
        while i < self.groups.len()
            invariant
                0 <= i <= self.groups@.len(),
                forall|j: int| 0 <= j < i ==> #[trigger] self.group_records()[j].0 != handle,
            decreases self.groups@.len() - i,
        {
            if self.groups[i].0 == handle {
                return Some(i);
            }
            i = i + 1;
        }
        None
    }

    fn find_workspace(&self, handle: u32) -> (r: Option<usize>)
        ensures
            r matches Some(i) ==> i < self.workspaces@.len() && self.workspaces@[i as int].0 == handle,
            r is None ==> !has_key(self.workspace_records(), handle),
    {
        let mut i: usize = 0;
        while i < self.workspaces.len()
            invariant
                0 <= i <= self.workspaces@.len(),
                forall|j: int| 0 <= j < i ==> #[trigger] self.workspaces@[j].0 != handle,
            decreases self.workspaces@.len() - i,
        {
            if self.workspaces[i].0 == handle {
                return Some(i);
            }
            i = i + 1;
        }
        None
    }

    /// Starts tracking a group with no outputs and no workspaces; a group already
    /// tracked keeps its record.
    pub fn add_group(&mut self, handle: u32)
        requires
            old(self).wf(),
        ensures
            final(self).wf(),
            final(self).workspace_records() == old(self).workspace_records(),
            has_key(old(self).group_records(), handle) ==> final(self).group_records() == old(self).group_records(),
            !has_key(old(self).group_records(), handle) ==> final(self).group_records() == old(self).group_records().push(
                (handle, GroupRecord { outputs: Set::empty(), pending_outputs: Set::empty(), members: Set::empty() }),
            ),
    {
        if self.find_group(handle).is_none() {
            let data = WorkspaceGroupData { output_ids: Vec::new(), pending_output_ids: Vec::new(), workspaces: Vec::new() };
            assert(data@ == GroupRecord { outputs: Set::empty(), pending_outputs: Set::empty(), members: Set::empty() }) by {
                assert(data@.outputs =~= Set::empty());
                assert(data@.pending_outputs =~= Set::empty());
                assert(data@.members =~= Set::empty());
            }
            self.groups.push((handle, data));
            assert(self.group_records() =~= old(self).group_records().push((handle, data@)));
        }
    }

    /// Stops tracking a workspace.
    fn remove_workspace(&mut self, handle: u32)
        requires
            old(self).wf(),
        ensures
            final(self).wf(),
            final(self).group_records() == old(self).group_records(),
            !has_key(final(self).workspace_records(), handle),
            forall|w: u32, d: WorkspaceData| w != handle ==> (has_entry(final(self).workspace_records(), w, d) == has_entry(old(self).workspace_records(), w, d)),
            forall|w: u32| w != handle ==> (has_key(final(self).workspace_records(), w) == has_key(old(self).workspace_records(), w)),
    {
        let ghost m = old(self).workspace_records();
        if let Some(i) = self.find_workspace(handle) {
            self.workspaces.remove(i);
            let ghost m2 = self.workspace_records();
            assert(m2 == m.remove(i as int));
            assert forall|w: u32, d: WorkspaceData| w != handle implies (has_entry(m2, w, d) == has_entry(m, w, d)) by {
                if has_entry(m, w, d) {
                    let j = choose|j: int| 0 <= j < m.len() && #[trigger] m[j] == (w, d);
                    if j < i { assert(m2[j] == (w, d)); } else { assert(m2[j - 1] == (w, d)); }
                }
                if has_entry(m2, w, d) {
                    let j = choose|j: int| 0 <= j < m2.len() && #[trigger] m2[j] == (w, d);
                    if j < i { assert(m[j] == (w, d)); } else { assert(m[j + 1] == (w, d)); }
                }
            }
            assert forall|w: u32| w != handle implies (has_key(m2, w) == has_key(m, w)) by {
                if has_key(m, w) {
                    let j = choose|j: int| 0 <= j < m.len() && #[trigger] m[j].0 == w;
                    if j < i { assert(m2[j].0 == w); } else { assert(m2[j - 1].0 == w); }
                }
                if has_key(m2, w) {
                    let j = choose|j: int| 0 <= j < m2.len() && #[trigger] m2[j].0 == w;
                    if j < i { assert(m[j].0 == w); } else { assert(m[j + 1].0 == w); }
                }
            }
            assert(!has_key(m2, handle)) by {
                if has_key(m2, handle) {
                    let j = choose|j: int| 0 <= j < m2.len() && #[trigger] m2[j].0 == handle;
                    if j < i { assert(m[j].0 == handle); } else { assert(m[j + 1].0 == handle); }
                }
            }
        }
    }
    /// Applies `f` to the pending outputs of group `group` (none if untracked).
    fn update_group_outputs(&mut self, group: u32, output_id: u32, insert: bool)
        requires
            old(self).wf(),
        ensures
            final(self).wf(),
            final(self).workspace_records() == old(self).workspace_records(),
            final(self).group_records() == map_group(
                old(self).group_records(),
                group,
                |r: GroupRecord| GroupRecord {
                    pending_outputs: if insert { r.pending_outputs.insert(output_id) } else { r.pending_outputs.remove(output_id) },
                    ..r
                },
            ),
    {
        let ghost s = old(self).group_records();
        let ghost f = |r: GroupRecord| GroupRecord {
            pending_outputs: if insert { r.pending_outputs.insert(output_id) } else { r.pending_outputs.remove(output_id) },
            ..r
        };
        match self.find_group(group) {
            Some(i) => {
                if insert {
                    ids_insert(&mut self.groups[i].1.pending_output_ids, output_id);
                } else {
                    ids_remove(&mut self.groups[i].1.pending_output_ids, output_id);
                }
                assert(self.group_records() =~= map_group(s, group, f)) by {
                    assert forall|k: int| 0 <= k < s.len() implies #[trigger] self.group_records()[k]
                        == map_group(s, group, f)[k] by {
                        if k != i {
                            assert(s[k].0 != group);
                        }
                    }
                }
            },
            None => {
                assert(self.group_records() =~= map_group(s, group, f));
            },
        }
    }

    /// Adds an output to a group's pending outputs.
    pub fn add_pending_group_output(&mut self, group: u32, output_id: u32)
        requires
            old(self).wf(),
        ensures
            final(self).wf(),
            final(self).workspace_records() == old(self).workspace_records(),
            final(self).group_records() == map_group(
                old(self).group_records(),
                group,
                |r: GroupRecord| GroupRecord { pending_outputs: r.pending_outputs.insert(output_id), ..r },
            ),
    {
        self.update_group_outputs(group, output_id, true);
        assert(self.group_records() =~= map_group(
                old(self).group_records(),
                group,
                |r: GroupRecord| GroupRecord { pending_outputs: r.pending_outputs.insert(output_id), ..r },
            ));
    }

    /// Removes an output from a group's pending outputs.
    pub fn remove_pending_group_output(&mut self, group: u32, output_id: u32)
        requires
            old(self).wf(),
        ensures
            final(self).wf(),
            final(self).workspace_records() == old(self).workspace_records(),
            final(self).group_records() == map_group(
                old(self).group_records(),
                group,
                |r: GroupRecord| GroupRecord { pending_outputs: r.pending_outputs.remove(output_id), ..r },
            ),
    {
        self.update_group_outputs(group, output_id, false);
        assert(self.group_records() =~= map_group(
                old(self).group_records(),
                group,
                |r: GroupRecord| GroupRecord { pending_outputs: r.pending_outputs.remove(output_id), ..r },
            ));
    }

    /// Adds a workspace to a group's members, and starts tracking the workspace
    /// (inactive) if it is not tracked yet.
    pub fn add_workspace_to_group(&mut self, group: u32, workspace: u32)
        requires
            old(self).wf(),
        ensures
            final(self).wf(),
            final(self).group_records() == map_group(
                old(self).group_records(),
                group,
                |r: GroupRecord| GroupRecord { members: r.members.insert(workspace), ..r },
            ),
            has_key(old(self).workspace_records(), workspace) ==> final(self).workspace_records() == old(self).workspace_records(),
            !has_key(old(self).workspace_records(), workspace) ==> final(self).workspace_records() == old(self).workspace_records().push(
                (workspace, WorkspaceData { is_active: false, pending_is_active: false }),
            ),
    {
        let ghost s = old(self).group_records();
        let ghost f = |r: GroupRecord| GroupRecord { members: r.members.insert(workspace), ..r };
        match self.find_group(group) {
            Some(i) => {
                ids_insert(&mut self.groups[i].1.workspaces, workspace);
                assert(self.group_records() =~= map_group(s, group, f)) by {
                    assert forall|k: int| 0 <= k < s.len() implies #[trigger] self.group_records()[k]
                        == map_group(s, group, f)[k] by {
                        if k != i {
                            assert(s[k].0 != group);
                        }
                    }
                }
            },
            None => {
                assert(self.group_records() =~= map_group(s, group, f));
            },
        }
        if self.find_workspace(workspace).is_none() {
            self.workspaces.push((workspace, WorkspaceData { is_active: false, pending_is_active: false }));
        }
    }

    /// Removes a workspace from a group's members and stops tracking it.
    pub fn remove_workspace_from_group(&mut self, group: u32, workspace: u32)
        requires
            old(self).wf(),
        ensures
            final(self).wf(),
            final(self).group_records() == map_group(
                old(self).group_records(),
                group,
                |r: GroupRecord| GroupRecord { members: r.members.remove(workspace), ..r },
            ),
            !has_key(final(self).workspace_records(), workspace),
            forall|w: u32, d: WorkspaceData| w != workspace ==> (has_entry(final(self).workspace_records(), w, d) == has_entry(old(self).workspace_records(), w, d)),
            forall|w: u32| w != workspace ==> (has_key(final(self).workspace_records(), w) == has_key(old(self).workspace_records(), w)),
    {
        let ghost s = old(self).group_records();
        let ghost f = |r: GroupRecord| GroupRecord { members: r.members.remove(workspace), ..r };
        match self.find_group(group) {
            Some(i) => {
                ids_remove(&mut self.groups[i].1.workspaces, workspace);
                assert(self.group_records() =~= map_group(s, group, f)) by {
                    assert forall|k: int| 0 <= k < s.len() implies #[trigger] self.group_records()[k]
                        == map_group(s, group, f)[k] by {
                        if k != i {
                            assert(s[k].0 != group);
                        }
                    }
                }
            },
            None => {
                assert(self.group_records() =~= map_group(s, group, f));
            },
        }
        self.remove_workspace(workspace);
    }

    /// Sets the pending active flag of a workspace (none if untracked).
    pub fn set_workspace_pending_active(&mut self, workspace: u32, active: bool)
        requires
            old(self).wf(),
        ensures
            final(self).wf(),
            final(self).group_records() == old(self).group_records(),
            final(self).workspace_records() == map_workspace(
                old(self).workspace_records(),
                workspace,
                |d: WorkspaceData| WorkspaceData { pending_is_active: active, ..d },
            ),
    {
        let ghost s = old(self).workspace_records();
        let ghost f = |d: WorkspaceData| WorkspaceData { pending_is_active: active, ..d };
        match self.find_workspace(workspace) {
            Some(i) => {
                self.workspaces[i].1.pending_is_active = active;
                assert(self.workspace_records() =~= map_workspace(s, workspace, f)) by {
                    assert forall|k: int| 0 <= k < s.len() implies #[trigger] self.workspace_records()[k]
                        == map_workspace(s, workspace, f)[k] by {
                        if k != i {
                            assert(s[k].0 != workspace);
                        }
                    }
                }
            },
            None => {
                assert(self.workspace_records() =~= map_workspace(s, workspace, f));
            },
        }
    }

    /// Commits a group's pending outputs; returns whether they changed.
    pub fn commit_group(&mut self, group: u32) -> (changed: bool)
        requires
            old(self).wf(),
        ensures
            final(self).wf(),
            final(self).workspace_records() == old(self).workspace_records(),
            final(self).group_records() == map_group(old(self).group_records(), group, |r: GroupRecord| group_committed(r)),
            changed == group_commit_changes_handle(old(self).group_records(), group),
    {
        let ghost s = old(self).group_records();
        let ghost f = |r: GroupRecord| group_committed(r);
        match self.find_group(group) {
            Some(i) => {
                let changed = !ids_same(&self.groups[i].1.output_ids, &self.groups[i].1.pending_output_ids);
                let copy = ids_copy(&self.groups[i].1.pending_output_ids);
                self.groups[i].1.output_ids = copy;
                assert(self.group_records() =~= map_group(s, group, f)) by {
                    assert forall|k: int| 0 <= k < s.len() implies #[trigger] self.group_records()[k]
                        == map_group(s, group, f)[k] by {
                        if k != i {
                            assert(s[k].0 != group);
                        }
                    }
                }
                proof {
                    if group_commit_changes_handle(s, group) {
                        let j = choose|j: int| 0 <= j < s.len() && #[trigger] s[j].0 == group && group_commit_changes(s[j].1);
                        assert(s[j].0 == s[i as int].0);
                    }
                }
                changed
            },
            None => {
                assert(self.group_records() =~= map_group(s, group, f));
                false
            },
        }
    }

    /// Commits a workspace's pending active flag; returns whether it changed.
    pub fn commit_workspace(&mut self, workspace: u32) -> (changed: bool)
        requires
            old(self).wf(),
        ensures
            final(self).wf(),
            final(self).group_records() == old(self).group_records(),
            final(self).workspace_records() == map_workspace(old(self).workspace_records(), workspace, |d: WorkspaceData| workspace_committed(d)),
            changed == workspace_commit_changes_handle(old(self).workspace_records(), workspace),
    {
        let ghost s = old(self).workspace_records();
        let ghost f = |d: WorkspaceData| workspace_committed(d);
        match self.find_workspace(workspace) {
            Some(i) => {
                let was_active = self.workspaces[i].1.is_active;
                let now_active = self.workspaces[i].1.pending_is_active;
                self.workspaces[i].1.is_active = now_active;
                assert(self.workspace_records() =~= map_workspace(s, workspace, f)) by {
                    assert forall|k: int| 0 <= k < s.len() implies #[trigger] self.workspace_records()[k]
                        == map_workspace(s, workspace, f)[k] by {
                        if k != i {
                            assert(s[k].0 != workspace);
                        }
                    }
                }
                proof {
                    if workspace_commit_changes_handle(s, workspace) {
                        let j = choose|j: int| 0 <= j < s.len() && #[trigger] s[j].0 == workspace && s[j].1.is_active != s[j].1.pending_is_active;
                        assert(s[j].0 == s[i as int].0);
                    }
                }
                was_active != now_active
            },
            None => {
                assert(self.workspace_records() =~= map_workspace(s, workspace, f));
                false
            },
        }
    }

    /// Commits every group and every workspace, as the manager's `Done` event
    /// asks; returns whether any group's outputs or workspace's flag changed.
    pub fn commit_all(&mut self) -> (changed: bool)
        requires
            old(self).wf(),
        ensures
            final(self).wf(),
            final(self).group_records() == all_groups_committed(old(self).group_records()),
            final(self).workspace_records() == all_workspaces_committed(old(self).workspace_records()),
            changed == commit_all_changes(old(self).group_records(), old(self).workspace_records()),
    {
        let ghost gs = old(self).group_records();
        let ghost ws = old(self).workspace_records();
        let mut group_changed = false;
        let mut i: usize = 0;
        while i < self.groups.len()
            invariant
                0 <= i <= self.groups@.len(),
                self.groups@.len() == gs.len(),
                self.workspace_records() == ws,
                forall|j: int| 0 <= j < i ==> #[trigger] self.group_records()[j] == (gs[j].0, group_committed(gs[j].1)),
                forall|j: int| i <= j < gs.len() ==> #[trigger] self.group_records()[j] == gs[j],
                group_changed == exists|j: int| 0 <= j < i && group_commit_changes(#[trigger] gs[j].1),
            decreases gs.len() - i,
        {
            let ghost prev = self.groups@;
            let ghost prev_records = self.group_records();
            assert(self.group_records()[i as int] == gs[i as int]);
            let c = !ids_same(&self.groups[i].1.output_ids, &self.groups[i].1.pending_output_ids);
            let copy = ids_copy(&self.groups[i].1.pending_output_ids);
            self.groups[i].1.output_ids = copy;
            proof {
                assert(self.groups@[i as int].1.output_ids@ == prev[i as int].1.pending_output_ids@);
                assert(self.groups@[i as int].1.pending_output_ids@ == prev[i as int].1.pending_output_ids@);
                assert(self.groups@[i as int].1.workspaces@ == prev[i as int].1.workspaces@);
                assert(self.group_records()[i as int] == (gs[i as int].0, group_committed(gs[i as int].1)));
                assert forall|j: int| 0 <= j < gs.len() && j != i implies #[trigger] self.group_records()[j] == prev_records[j] by {
                    assert(self.groups@[j] == prev[j]);
                }
                if c {
                    assert(group_commit_changes(gs[i as int].1));
                }
            }
            group_changed = group_changed || c;
            i = i + 1;
        }
        assert(self.group_records() =~= all_groups_committed(gs));
        let mut ws_changed = false;
        let mut k: usize = 0;
        while k < self.workspaces.len()
            invariant
                0 <= k <= self.workspaces@.len(),
                self.workspaces@.len() == ws.len(),
                self.group_records() == all_groups_committed(gs),
                forall|j: int| 0 <= j < k ==> #[trigger] self.workspaces@[j] == (ws[j].0, workspace_committed(ws[j].1)),
                forall|j: int| k <= j < ws.len() ==> #[trigger] self.workspaces@[j] == ws[j],
                ws_changed == exists|j: int| 0 <= j < k && (#[trigger] ws[j].1).is_active != ws[j].1.pending_is_active,
            decreases ws.len() - k,
        {
            let was_active = self.workspaces[k].1.is_active;
            let now_active = self.workspaces[k].1.pending_is_active;
            self.workspaces[k].1.is_active = now_active;
            proof {
                assert(self.workspaces@[k as int] == (ws[k as int].0, workspace_committed(ws[k as int].1)));
            }
            ws_changed = ws_changed || was_active != now_active;
            k = k + 1;
        }
        assert(self.workspace_records() =~= all_workspaces_committed(ws));
        proof {
            assert(forall|j: int, l: int| 0 <= j < gs.len() && 0 <= l < gs.len() && j != l ==> self.group_records()[j].0 == gs[j].0 && self.group_records()[l].0 == gs[l].0);
            assert(forall|j: int| 0 <= j < ws.len() ==> self.workspaces@[j].0 == #[trigger] ws[j].0);
        }
        group_changed || ws_changed
    }

    /// Whether workspace `workspace` is committed active.
    fn workspace_is_active(&self, workspace: u32) -> (r: bool)
        requires
            self.wf(),
        ensures
            r == is_active_in(self.workspace_records(), workspace),
    {
        match self.find_workspace(workspace) {
            Some(i) => {
                let r = self.workspaces[i].1.is_active;
                proof {
                    let ws = self.workspace_records();
                    if is_active_in(ws, workspace) {
                        let j = choose|j: int| 0 <= j < ws.len() && #[trigger] ws[j].0 == workspace && ws[j].1.is_active;
                        assert(ws[j].0 == ws[i as int].0);
                    }
                }
                r
            },
            None => false,
        }
    }

    /// The committed-active workspaces of every group bound to output `output_id`.
    pub fn get_active_workspace_ids_for_output(&self, output_id: u32) -> (r: Vec<u32>)
        requires
            self.wf(),
        ensures
            r@.to_set() == active_on(self.group_records(), self.workspace_records(), output_id),
    {
        let ghost gs = self.group_records();
        let ghost ws = self.workspace_records();
        let mut r: Vec<u32> = Vec::new();
        let mut i: usize = 0;
        while i < self.groups.len()
            invariant
                0 <= i <= self.groups@.len(),
                gs == self.group_records(),
                ws == self.workspace_records(),
                self.wf(),
                forall|w: u32|
                    r@.to_set().contains(w) <==> exists|g: int|
                        0 <= g < i && (#[trigger] gs[g].1).outputs.contains(output_id) && gs[g].1.members.contains(w)
                            && is_active_in(ws, w),
            decreases self.groups@.len() - i,
        {
            let ghost before = r@.to_set();
            let group = &self.groups[i].1;
            if ids_contains(&group.output_ids, output_id) {
                let mut k: usize = 0;
                while k < group.workspaces.len()
                    invariant
                        0 <= k <= group.workspaces@.len(),
                        group == &self.groups@[i as int].1,
                        i < self.groups@.len(),
                        ws == self.workspace_records(),
                        self.wf(),
                        forall|w: u32|
                            r@.to_set().contains(w) <==> (before.contains(w) || (is_active_in(ws, w) && exists|m: int|
                                0 <= m < k && #[trigger] group.workspaces@[m] == w)),
                    decreases group.workspaces@.len() - k,
                {
                    let w = group.workspaces[k];
                    let ghost b2 = r@.to_set();
                    if self.workspace_is_active(w) {
                        ids_insert(&mut r, w);
                    }
                    proof {
                        assert forall|x: u32|
                            r@.to_set().contains(x) <==> (before.contains(x) || (is_active_in(ws, x) && exists|m: int|
                                0 <= m < k + 1 && #[trigger] group.workspaces@[m] == x)) by {
                            if r@.to_set().contains(x) && x != w {
                                assert(b2.contains(x));
                                if !before.contains(x) {
                                    let m = choose|m: int| 0 <= m < k && #[trigger] group.workspaces@[m] == x;
                                    assert(group.workspaces@[m] == x);
                                }
                            }
                            if x == w && is_active_in(ws, x) {
                                assert(group.workspaces@[k as int] == x);
                            }
                            if is_active_in(ws, x) && exists|m: int| 0 <= m < k + 1 && #[trigger] group.workspaces@[m] == x {
                                let m = choose|m: int| 0 <= m < k + 1 && #[trigger] group.workspaces@[m] == x;
                                if m < k {
                                    assert(group.workspaces@[m] == x);
                                    assert(b2.contains(x));
                                }
                            }
                            if before.contains(x) {
                                assert(b2.contains(x));
                            }
                        }
                    }
                    k = k + 1;
                }
            }
            proof {
                let rec = gs[i as int].1;
                assert(rec == group@);
                assert forall|w: u32|
                    r@.to_set().contains(w) <==> exists|g: int|
                        0 <= g < i + 1 && (#[trigger] gs[g].1).outputs.contains(output_id) && gs[g].1.members.contains(w)
                            && is_active_in(ws, w) by {
                    if exists|g: int|
                        0 <= g < i + 1 && (#[trigger] gs[g].1).outputs.contains(output_id) && gs[g].1.members.contains(w)
                            && is_active_in(ws, w) {
                        let g = choose|g: int|
                            0 <= g < i + 1 && (#[trigger] gs[g].1).outputs.contains(output_id) && gs[g].1.members.contains(w)
                                && is_active_in(ws, w);
                        if g < i {
                            assert(gs[g].1.outputs.contains(output_id));
                        } else {
                            assert(group.output_ids@.to_set().contains(output_id));
                            assert(group.workspaces@.to_set().contains(w));
                            let m = choose|m: int| 0 <= m < group.workspaces@.len() && group.workspaces@[m] == w;
                            assert(group.workspaces@[m] == w);
                        }
                    }
                    if r@.to_set().contains(w) {
                        if before.contains(w) {
                            let g = choose|g: int|
                                0 <= g < i && (#[trigger] gs[g].1).outputs.contains(output_id) && gs[g].1.members.contains(w)
                                    && is_active_in(ws, w);
                            assert(gs[g].1.outputs.contains(output_id));
                        } else {
                            let m = choose|m: int| 0 <= m < group.workspaces@.len() && #[trigger] group.workspaces@[m] == w;
                            assert(group.workspaces@.contains(w));
                            assert(gs[i as int].1.outputs.contains(output_id));
                        }
                    }
                }
            }
            i = i + 1;
        }
        assert(r@.to_set() =~= active_on(gs, ws, output_id));
        r
    }

    /// Whether workspace `workspace_id` is active on output `output_id`.
    pub fn is_workspace_active_on_output(&self, workspace_id: u32, output_id: u32) -> (r: bool)
        requires
            self.wf(),
        ensures
            r == active_on(self.group_records(), self.workspace_records(), output_id).contains(workspace_id),
    {
        let ids = self.get_active_workspace_ids_for_output(output_id);
        ids_contains(&ids, workspace_id)
    }
    /// Stops tracking a group and every workspace that was a member of it.
    pub fn remove_group(&mut self, group: u32)
        requires
            old(self).wf(),
        ensures
            final(self).wf(),
            final(self).group_records() == without_group(old(self).group_records(), group),
            forall|w: u32, d: WorkspaceData| has_entry(final(self).workspace_records(), w, d) == (has_entry(old(self).workspace_records(), w, d)
                && !group_members(old(self).group_records(), group).contains(w)),
            forall|w: u32| has_key(final(self).workspace_records(), w) == (has_key(old(self).workspace_records(), w)
                && !group_members(old(self).group_records(), group).contains(w)),
    {
        let ghost gs = old(self).group_records();
        let ghost ws = old(self).workspace_records();
        match self.find_group(group) {
            Some(i) => {
                proof {
                    let k = choose|k: int| 0 <= k < gs.len() && #[trigger] gs[k].0 == group;
                    assert(k == i);
                }
                let (_, data) = self.groups.remove(i);
                assert(self.group_records() =~= gs.remove(i as int));
                let ghost members = data.workspaces@;
                proof {
                    assert forall|w: u32| group_members(gs, group).contains(w) == members.contains(w) by {
                        if group_members(gs, group).contains(w) {
                            let j = choose|j: int| 0 <= j < gs.len() && #[trigger] gs[j].0 == group && gs[j].1.members.contains(w);
                            assert(gs[j].0 == gs[i as int].0);
                        }
                        if members.contains(w) {
                            assert(gs[i as int].1.members.contains(w));
                        }
                    }
                }
                let ghost mut removed: Set<u32> = Set::empty();
                let mut k: usize = 0;
                while k < data.workspaces.len()
                    invariant
                        0 <= k <= data.workspaces@.len(),
                        members == data.workspaces@,
                        self.wf(),
                        self.group_records() == without_group(gs, group),
                        forall|w: u32| #[trigger] removed.contains(w) == in_prefix(members, k as int, w),
                        forall|w: u32, d: WorkspaceData| has_entry(self.workspace_records(), w, d) == (has_entry(ws, w, d)
                            && !removed.contains(w)),
                        forall|w: u32| has_key(self.workspace_records(), w) == (has_key(ws, w)
                            && !removed.contains(w)),
                    decreases data.workspaces@.len() - k,
                {
                    let x = data.workspaces[k];
                    self.remove_workspace(x);
                    proof {
                        let r2 = removed.insert(x);
                        assert forall|w: u32| #[trigger] r2.contains(w) == in_prefix(members, k + 1, w) by {
                            if w == x {
                                assert(members[k as int] == w);
                            }
                            if in_prefix(members, k + 1, w) {
                                let m = choose|m: int| 0 <= m < k + 1 && #[trigger] members[m] == w;
                                if m < k {
                                    assert(members[m] == w);
                                    assert(in_prefix(members, k as int, w));
                                }
                            }
                            if in_prefix(members, k as int, w) {
                                let m = choose|m: int| 0 <= m < k && #[trigger] members[m] == w;
                                assert(members[m] == w);
                            }
                        }
                        assert forall|w: u32, d: WorkspaceData| has_entry(self.workspace_records(), w, d) == (has_entry(ws, w, d)
                            && !r2.contains(w)) by {
                            if w == x {
                                if has_entry(self.workspace_records(), w, d) {
                                    let j = choose|j: int| 0 <= j < self.workspace_records().len() && #[trigger] self.workspace_records()[j] == (w, d);
                                    assert(self.workspace_records()[j].0 == w);
                                }
                            }
                        }
                        removed = r2;
                    }
                    k = k + 1;
                }
                proof {
                    assert forall|w: u32| removed.contains(w) == group_members(gs, group).contains(w) by {
                        assert(members.contains(w) == in_prefix(members, members.len() as int, w));
                    }
                }
            },
            None => {
                proof {
                    assert forall|w: u32| !group_members(gs, group).contains(w) by {
                        if group_members(gs, group).contains(w) {
                            let j = choose|j: int| 0 <= j < gs.len() && #[trigger] gs[j].0 == group && gs[j].1.members.contains(w);
                            assert(gs[j].0 == group);
                        }
                    }
                }
            },
        }
    }

    /// Handles an event of the workspace manager; returns whether a commit
    /// changed anything, which calls for a re-evaluation of the pause verdicts.
    pub fn handle_manager_event(&mut self, event: WorkspaceManagerEvent) -> (notify: bool)
        requires
            old(self).wf(),
        ensures
            final(self).wf(),
            manager_event_effect(old(self).group_records(), old(self).workspace_records(),
                final(self).group_records(), final(self).workspace_records(), event),
            notify == (event is Done && commit_all_changes(old(self).group_records(), old(self).workspace_records())),
    {
        match event {
            WorkspaceManagerEvent::WorkspaceGroup(g) => {
                self.add_group(g);
                false
            },
            WorkspaceManagerEvent::Done => self.commit_all(),
            WorkspaceManagerEvent::Other => false,
        }
    }

    /// Handles an event of a workspace group handle.
    pub fn handle_group_event(&mut self, group: u32, event: WorkspaceGroupEvent)
        requires
            old(self).wf(),
        ensures
            final(self).wf(),
            group_event_effect(old(self).group_records(), old(self).workspace_records(),
                final(self).group_records(), final(self).workspace_records(), group, event),
    {
        match event {
            WorkspaceGroupEvent::OutputEnter(o) => {
                self.add_pending_group_output(group, o);
                assert(self.group_records() == map_group(old(self).group_records(), group,
                    |r: GroupRecord| GroupRecord { pending_outputs: r.pending_outputs.insert(o), ..r }));
            },
            WorkspaceGroupEvent::OutputLeave(o) => {
                self.remove_pending_group_output(group, o);
                assert(self.group_records() == map_group(old(self).group_records(), group,
                    |r: GroupRecord| GroupRecord { pending_outputs: r.pending_outputs.remove(o), ..r }));
            },
            WorkspaceGroupEvent::WorkspaceEnter(w) => {
                self.add_workspace_to_group(group, w);
                assert(self.group_records() == map_group(old(self).group_records(), group,
                    |r: GroupRecord| GroupRecord { members: r.members.insert(w), ..r }));
            },
            WorkspaceGroupEvent::WorkspaceLeave(w) => {
                self.remove_workspace_from_group(group, w);
                assert(self.group_records() == map_group(old(self).group_records(), group,
                    |r: GroupRecord| GroupRecord { members: r.members.remove(w), ..r }));
                let ghost ws2 = self.workspace_records();
                assert forall|x: u32, d: WorkspaceData| has_entry(ws2, x, d) == (has_entry(old(self).workspace_records(), x, d)
                    && !set![w].contains(x)) by {
                    if x == w && has_entry(ws2, x, d) {
                        let j = choose|j: int| 0 <= j < ws2.len() && #[trigger] ws2[j] == (x, d);
                        assert(ws2[j].0 == w);
                    }
                }
                assert forall|x: u32| has_key(ws2, x) == (has_key(old(self).workspace_records(), x) && !set![w].contains(x)) by {}
            },
            WorkspaceGroupEvent::Removed => {
                self.remove_group(group);
            },
            WorkspaceGroupEvent::Other => {},
        }
    }

    /// Handles an event of a workspace handle.
    pub fn handle_workspace_event(&mut self, workspace: u32, event: WorkspaceEvent)
        requires
            old(self).wf(),
        ensures
            final(self).wf(),
            workspace_event_effect(old(self).group_records(), old(self).workspace_records(),
                final(self).group_records(), final(self).workspace_records(), workspace, event),
    {
        match event {
            WorkspaceEvent::State(a) => {
                self.set_workspace_pending_active(workspace, a);
                assert(self.workspace_records() == map_workspace(
                    old(self).workspace_records(), workspace, |d: WorkspaceData| WorkspaceData { pending_is_active: a, ..d }));
            },
            WorkspaceEvent::Other => {},
        }
    }
}

} // verus!
