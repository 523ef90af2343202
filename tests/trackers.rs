use glowberry::toplevel_info::states_from_bytes;
use glowberry::preview::{finish_preview, PreviewError};
use glowberry::toplevel_info::{ForeignToplevelEvent, ToplevelEvent, ToplevelTracker};
use glowberry::workspace_info::{WorkspaceEvent, WorkspaceGroupEvent, WorkspaceManagerEvent, WorkspaceTracker};

fn sorted(mut v: Vec<u32>) -> Vec<u32> {
    v.sort();
    v
}

#[test]
fn pending_state_is_invisible_until_done() {
    let mut t = ToplevelTracker::new();
    t.handle_toplevel_event(1, ToplevelEvent::OutputEnter(10));
    t.handle_toplevel_event(1, ToplevelEvent::State(vec![3]));
    assert!(!t.has_fullscreen_on_output_id(10));
    assert!(t.get_fullscreen_output_ids().is_empty());
    assert!(t.handle_toplevel_event(1, ToplevelEvent::Done));
    assert!(t.has_fullscreen_on_output_id(10));
    assert_eq!(t.get_fullscreen_output_ids(), vec![10]);
}

#[test]
fn commit_twice_reports_no_change() {
    let mut t = ToplevelTracker::new();
    t.add_toplevel(4);
    t.add_pending_output(4, 10);
    t.add_pending_workspace(4, 20);
    t.set_pending_state(4, vec![3]);
    assert!(t.commit_toplevel(4));
    assert!(!t.commit_toplevel(4));
    assert!(!t.commit_toplevel(99));

    let mut w = WorkspaceTracker::new();
    w.add_group(1);
    w.add_pending_group_output(1, 10);
    w.add_workspace_to_group(1, 5);
    w.set_workspace_pending_active(5, true);
    assert!(w.commit_all());
    assert!(!w.commit_all());
    assert!(!w.commit_workspace(5));
    assert!(!w.commit_group(1));
}

#[test]
fn empty_active_set_never_counts() {
    let mut t = ToplevelTracker::new();
    t.handle_toplevel_event(1, ToplevelEvent::OutputEnter(10));
    t.handle_toplevel_event(1, ToplevelEvent::WorkspaceEnter(20));
    t.handle_toplevel_event(1, ToplevelEvent::State(vec![3]));
    t.handle_toplevel_event(1, ToplevelEvent::Done);
    assert!(t.has_fullscreen_on_output_id(10));
    assert!(!t.has_active_fullscreen_on_output_id(10, &vec![]));
    assert!(t.has_active_fullscreen_on_output_id(10, &vec![20]));
    assert!(!t.has_active_fullscreen_on_output_id(10, &vec![21]));
    assert!(!t.has_active_fullscreen_on_output_id(11, &vec![20]));
}

#[test]
fn window_without_workspace_is_not_on_active_one() {
    let mut t = ToplevelTracker::new();
    t.handle_toplevel_event(1, ToplevelEvent::OutputEnter(10));
    t.handle_toplevel_event(1, ToplevelEvent::State(vec![3]));
    t.handle_toplevel_event(1, ToplevelEvent::Done);
    assert!(!t.has_active_fullscreen_on_output_id(10, &vec![20]));
}

#[test]
fn revisions_give_same_fullscreen_outputs() {
    let events = || {
        vec![
            ToplevelEvent::OutputEnter(10),
            ToplevelEvent::WorkspaceEnter(20),
            ToplevelEvent::OutputEnter(11),
            ToplevelEvent::OutputLeave(11),
            ToplevelEvent::State(vec![0, 3]),
            ToplevelEvent::Done,
        ]
    };
    let mut direct = ToplevelTracker::new();
    for e in events() {
        direct.handle_toplevel_event(7, e);
    }
    let mut foreign = ToplevelTracker::new();
    for e in events() {
        foreign.handle_foreign_cosmic_event(7, 70, e);
    }
    assert_eq!(foreign.get_cosmic_for_foreign(70), Some(7));
    assert_eq!(sorted(direct.get_fullscreen_output_ids()), sorted(foreign.get_fullscreen_output_ids()));
    assert_eq!(direct.get_fullscreen_output_ids(), vec![10]);
    assert_eq!(direct.has_active_fullscreen_on_output_id(10, &vec![20]), foreign.has_active_fullscreen_on_output_id(10, &vec![20]));
    assert!(foreign.has_active_fullscreen_on_output_id(10, &vec![20]));
}

#[test]
fn foreign_done_and_close_route_to_record() {
    let mut t = ToplevelTracker::new();
    t.handle_foreign_cosmic_event(7, 70, ToplevelEvent::OutputEnter(10));
    t.handle_foreign_cosmic_event(7, 70, ToplevelEvent::State(vec![3]));
    assert!(t.handle_foreign_event(70, ForeignToplevelEvent::Done));
    assert!(t.has_fullscreen_on_output_id(10));
    assert!(!t.handle_foreign_event(70, ForeignToplevelEvent::Done));
    // Closing a fullscreen window calls for a re-evaluation.
    assert!(t.handle_foreign_event(70, ForeignToplevelEvent::Closed));
    assert_eq!(t.toplevel_count(), 0);
    assert_eq!(t.get_cosmic_for_foreign(70), None);
    assert!(!t.has_fullscreen_on_output_id(10));
}

#[test]
fn foreign_revision_tracks_workspace_events() {
    let mut t = ToplevelTracker::new();
    t.handle_foreign_cosmic_event(7, 70, ToplevelEvent::WorkspaceEnter(20));
    t.handle_foreign_cosmic_event(7, 70, ToplevelEvent::OutputEnter(10));
    t.handle_foreign_cosmic_event(7, 70, ToplevelEvent::State(vec![3]));
    t.handle_foreign_cosmic_event(7, 70, ToplevelEvent::Done);
    assert!(t.has_active_fullscreen_on_output_id(10, &vec![20]));
    t.handle_foreign_cosmic_event(7, 70, ToplevelEvent::WorkspaceLeave(20));
    t.handle_foreign_cosmic_event(7, 70, ToplevelEvent::Done);
    assert!(!t.has_active_fullscreen_on_output_id(10, &vec![20]));
    // A close on the richer handle is left to the foreign handle.
    t.handle_foreign_cosmic_event(7, 70, ToplevelEvent::Closed);
    assert_eq!(t.toplevel_count(), 1);
}

#[test]
fn closing_non_fullscreen_foreign_window_does_not_notify() {
    let mut t = ToplevelTracker::new();
    t.handle_foreign_cosmic_event(7, 70, ToplevelEvent::OutputEnter(10));
    t.handle_foreign_cosmic_event(7, 70, ToplevelEvent::Done);
    assert!(!t.handle_foreign_event(70, ForeignToplevelEvent::Closed));
    assert!(!t.handle_foreign_event(71, ForeignToplevelEvent::Closed));
    assert_eq!(t.toplevel_count(), 0);
}

#[test]
fn closing_tracked_window_reports_fullscreen() {
    let mut t = ToplevelTracker::new();
    t.handle_toplevel_event(1, ToplevelEvent::State(vec![3]));
    t.handle_toplevel_event(1, ToplevelEvent::Done);
    t.handle_toplevel_event(2, ToplevelEvent::Other);
    assert_eq!(t.toplevel_count(), 2);
    assert!(t.handle_toplevel_event(1, ToplevelEvent::Closed));
    assert!(!t.handle_toplevel_event(2, ToplevelEvent::Closed));
    assert_eq!(t.toplevel_count(), 0);
}

#[test]
fn remove_pending_output_and_workspace() {
    let mut t = ToplevelTracker::new();
    t.add_toplevel(1);
    t.add_toplevel(1);
    assert_eq!(t.toplevel_count(), 1);
    t.add_pending_output(1, 10);
    t.add_pending_output(1, 11);
    t.remove_pending_output(1, 10);
    t.add_pending_workspace(1, 20);
    t.remove_pending_workspace(1, 20);
    t.set_pending_state(1, vec![3]);
    t.commit_toplevel(1);
    assert_eq!(t.get_fullscreen_output_ids(), vec![11]);
    assert!(!t.has_active_fullscreen_on_output_id(11, &vec![20]));
    t.remove_toplevel(1);
    assert_eq!(t.toplevel_count(), 0);
}

#[test]
fn active_workspaces_union_over_groups() {
    let mut w = WorkspaceTracker::new();
    w.handle_manager_event(WorkspaceManagerEvent::WorkspaceGroup(1));
    w.handle_manager_event(WorkspaceManagerEvent::WorkspaceGroup(2));
    w.handle_group_event(1, WorkspaceGroupEvent::OutputEnter(10));
    w.handle_group_event(2, WorkspaceGroupEvent::OutputEnter(10));
    w.handle_group_event(2, WorkspaceGroupEvent::OutputEnter(11));
    w.handle_group_event(1, WorkspaceGroupEvent::WorkspaceEnter(100));
    w.handle_group_event(1, WorkspaceGroupEvent::WorkspaceEnter(101));
    w.handle_group_event(2, WorkspaceGroupEvent::WorkspaceEnter(200));
    w.handle_workspace_event(100, WorkspaceEvent::State(true));
    w.handle_workspace_event(200, WorkspaceEvent::State(true));
    assert!(w.get_active_workspace_ids_for_output(10).is_empty());
    assert!(w.handle_manager_event(WorkspaceManagerEvent::Done));
    assert_eq!(sorted(w.get_active_workspace_ids_for_output(10)), vec![100, 200]);
    assert_eq!(w.get_active_workspace_ids_for_output(11), vec![200]);
    assert!(w.is_workspace_active_on_output(100, 10));
    assert!(!w.is_workspace_active_on_output(101, 10));
    assert!(!w.is_workspace_active_on_output(100, 11));

    w.handle_group_event(2, WorkspaceGroupEvent::OutputLeave(10));
    w.commit_group(2);
    assert_eq!(w.get_active_workspace_ids_for_output(10), vec![100]);

    w.handle_group_event(1, WorkspaceGroupEvent::WorkspaceLeave(100));
    assert!(w.get_active_workspace_ids_for_output(10).is_empty());
    assert!(!w.commit_workspace(100));

    w.handle_group_event(2, WorkspaceGroupEvent::Removed);
    assert!(w.get_active_workspace_ids_for_output(11).is_empty());
    w.remove_group(1);
    assert!(w.groups.is_empty());
    assert!(w.workspaces.is_empty());
}

#[test]
fn workspace_commit_reports_change() {
    let mut w = WorkspaceTracker::new();
    w.add_group(1);
    w.add_workspace_to_group(1, 5);
    w.set_workspace_pending_active(5, true);
    assert!(w.commit_workspace(5));
    assert!(!w.commit_workspace(5));
    w.add_pending_group_output(1, 3);
    assert!(w.commit_group(1));
    w.remove_pending_group_output(1, 3);
    assert!(w.commit_group(1));
    w.remove_workspace_from_group(1, 5);
    assert!(!w.commit_workspace(5));
}

#[test]
fn state_bytes_decode_in_machine_order() {
    let mut bytes = Vec::new();
    bytes.extend_from_slice(&3u32.to_ne_bytes());
    bytes.extend_from_slice(&258u32.to_ne_bytes());
    bytes.push(7);
    assert_eq!(states_from_bytes(&bytes), vec![3, 258]);
    assert!(states_from_bytes(&vec![1, 2, 3]).is_empty());
}

#[test]
fn renderer_error_comes_back_unchanged() {
    let r = finish_preview(2, 2, 256, Err(PreviewError::ShaderCompilation("bad token".to_string())));
    match r {
        Err(PreviewError::ShaderCompilation(msg)) => assert_eq!(msg, "bad token"),
        _ => panic!("expected the renderer's compile error"),
    }
}
