use glowberry::engine::background_for_output;
use glowberry::toplevel_info::ForeignToplevelEvent;
use glowberry::engine::{
    pause_reason, CosmicBg, EngineConfig, FrameDecision, OnBatteryAction, PauseReason, PowerSavingConfig,
    PowerState,
};
use glowberry::toplevel_info::{ToplevelEvent, ToplevelTracker};
use glowberry::workspace_info::{WorkspaceEvent, WorkspaceGroupEvent, WorkspaceManagerEvent, WorkspaceTracker};

fn no_policy() -> PowerSavingConfig {
    PowerSavingConfig {
        pause_on_fullscreen: true,
        pause_on_lid_closed: true,
        pause_on_low_battery: false,
        low_battery_threshold: 20,
        on_battery_action: OnBatteryAction::Nothing,
    }
}

fn mains() -> PowerState {
    PowerState { on_battery: false, lid_is_closed: false, battery_hundredths: Some(10000) }
}

#[test]
fn engine_config_defaults() {
    let config = EngineConfig::default();
    assert!(config.enable_wayland);
}

#[test]
fn shader_physical_size_prefers_layer_size_over_mode() {
    let size = Some((100, 50));
    let scale = Some(150);
    let mode = Some((1920, 1080));

    let result = CosmicBg::shader_physical_size(size, scale, mode);

    assert_eq!(result, (125, 62));
}

#[test]
fn shader_physical_size_uses_mode_when_size_missing() {
    let result = CosmicBg::shader_physical_size(None, Some(150), Some((1280, 720)));

    assert_eq!(result, (1280, 720));
}

#[test]
fn shader_physical_size_defaults_scale_to_120() {
    let result = CosmicBg::shader_physical_size(Some((1200, 800)), None, Some((640, 480)));

    assert_eq!(result, (1200, 800));
}

#[test]
fn shader_physical_size_falls_back_to_scaled_default() {
    assert_eq!(CosmicBg::shader_physical_size(None, Some(240), None), (3840, 2160));
    assert_eq!(CosmicBg::shader_physical_size(None, None, None), (1920, 1080));
}

#[test]
fn pause_reasons_in_order() {
    let mut config = no_policy();
    config.pause_on_low_battery = true;
    config.on_battery_action = OnBatteryAction::Pause;
    let all = PowerState { on_battery: true, lid_is_closed: true, battery_hundredths: Some(1500) };
    assert_eq!(pause_reason(&config, true, Some(all)), Some(PauseReason::FullscreenApp));
    assert_eq!(pause_reason(&config, false, Some(all)), Some(PauseReason::LidClosed));
    let open = PowerState { lid_is_closed: false, ..all };
    assert_eq!(
        pause_reason(&config, false, Some(open)),
        Some(PauseReason::LowBattery { percentage: 15, threshold: 20 })
    );
    let charged = PowerState { battery_hundredths: Some(2001), ..open };
    assert_eq!(pause_reason(&config, false, Some(charged)), Some(PauseReason::OnBattery));
    assert_eq!(pause_reason(&config, false, None), None);
    let at_threshold = PowerState { battery_hundredths: Some(2000), ..open };
    assert_eq!(
        pause_reason(&config, false, Some(at_threshold)),
        Some(PauseReason::LowBattery { percentage: 20, threshold: 20 })
    );
}

#[test]
fn fullscreen_policy_off_ignores_fullscreen() {
    let mut config = no_policy();
    config.pause_on_fullscreen = false;
    assert_eq!(pause_reason(&config, true, Some(mains())), None);
}

#[test]
fn on_battery_action_frame_rate() {
    assert_eq!(OnBatteryAction::LimitFrameRate(15).frame_rate(), Some(15));
    assert_eq!(OnBatteryAction::Pause.frame_rate(), None);
    assert_eq!(OnBatteryAction::Nothing.frame_rate(), None);
}

#[test]
fn battery_switch_pushes_override_to_canvases() {
    let mut config = no_policy();
    config.on_battery_action = OnBatteryAction::LimitFrameRate(10);
    let mut bg = CosmicBg::new(config, Some(mains()), None, None);
    bg.attach_layer(7, 60, 0);
    let resume = bg.on_power_state_changed(PowerState { on_battery: true, ..mains() });
    assert!(resume.is_empty());
    assert_eq!(bg.current_frame_rate_override, Some(10));
    assert_eq!(bg.layers[0].pacer.override_fps, Some(10));
    bg.on_power_state_changed(mains());
    assert_eq!(bg.current_frame_rate_override, None);
    assert_eq!(bg.layers[0].pacer.override_fps, None);
}

#[test]
fn frame_on_unknown_output_does_nothing() {
    let mut bg = CosmicBg::new(no_policy(), None, None, None);
    let d = bg.frame(3, 0);
    assert_eq!(d, FrameDecision { render: false, request_callback: false, pause: None });
}

#[test]
fn end_to_end_lid_pause_and_resume() {
    let mut bg = CosmicBg::new(no_policy(), Some(mains()), None, None);
    bg.attach_layer(1, 60, 0);
    assert!(!bg.should_pause_animation(1));

    // Renders and keeps requesting callbacks.
    let d = bg.frame(1, 20_000);
    assert!(d.render);
    assert!(d.request_callback);
    bg.mark_frame_rendered(1, 20_000);
    let d = bg.frame(1, 25_000);
    assert!(!d.render);
    assert!(d.request_callback);

    // Lid closes: paused, nothing rendered, no callback.
    let resume = bg.on_power_state_changed(PowerState { lid_is_closed: true, ..mains() });
    assert!(resume.is_empty());
    assert_eq!(bg.get_pause_reason(1), Some(PauseReason::LidClosed));
    let d = bg.frame(1, 1_000_000);
    assert_eq!(d, FrameDecision { render: false, request_callback: false, pause: Some(PauseReason::LidClosed) });

    // Lid opens: one callback request for the display.
    let resume = bg.on_power_state_changed(mains());
    assert_eq!(resume, vec![1]);
    let d = bg.frame(1, 2_000_000);
    assert!(d.render);
    assert!(d.request_callback);
}

#[test]
fn fullscreen_on_active_workspace_pauses_and_resumes() {
    let mut workspaces = WorkspaceTracker::new();
    workspaces.handle_manager_event(WorkspaceManagerEvent::WorkspaceGroup(50));
    workspaces.handle_group_event(50, WorkspaceGroupEvent::OutputEnter(1));
    workspaces.handle_group_event(50, WorkspaceGroupEvent::WorkspaceEnter(60));
    workspaces.handle_workspace_event(60, WorkspaceEvent::State(true));
    assert!(workspaces.handle_manager_event(WorkspaceManagerEvent::Done));

    let mut bg = CosmicBg::new(no_policy(), None, Some(ToplevelTracker::new()), Some(workspaces));
    bg.attach_layer(1, 30, 0);
    bg.attach_layer(2, 30, 0);
    assert!(bg.on_toplevel_event(9, ToplevelEvent::OutputEnter(1)).is_empty());
    bg.on_toplevel_event(9, ToplevelEvent::WorkspaceEnter(60));
    bg.on_toplevel_event(9, ToplevelEvent::State(vec![2, 3]));
    let resume = bg.on_toplevel_event(9, ToplevelEvent::Done);
    assert_eq!(resume, vec![2]);
    assert_eq!(bg.get_pause_reason(1), Some(PauseReason::FullscreenApp));
    assert_eq!(bg.get_pause_reason(2), None);

    bg.on_toplevel_event(9, ToplevelEvent::State(vec![2]));
    let mut resume = bg.on_toplevel_event(9, ToplevelEvent::Done);
    resume.sort();
    assert_eq!(resume, vec![1, 2]);
    assert_eq!(bg.get_pause_reason(1), None);
}

#[test]
fn fullscreen_without_workspace_tracking_never_pauses() {
    let mut bg = CosmicBg::new(no_policy(), None, Some(ToplevelTracker::new()), None);
    bg.attach_layer(1, 30, 0);
    bg.on_toplevel_event(9, ToplevelEvent::OutputEnter(1));
    bg.on_toplevel_event(9, ToplevelEvent::WorkspaceEnter(60));
    bg.on_toplevel_event(9, ToplevelEvent::State(vec![3]));
    bg.on_toplevel_event(9, ToplevelEvent::Done);
    assert_eq!(bg.get_pause_reason(1), None);
}

#[test]
fn closing_fullscreen_window_resumes() {
    let mut workspaces = WorkspaceTracker::new();
    workspaces.handle_manager_event(WorkspaceManagerEvent::WorkspaceGroup(50));
    workspaces.handle_group_event(50, WorkspaceGroupEvent::OutputEnter(1));
    workspaces.handle_group_event(50, WorkspaceGroupEvent::WorkspaceEnter(60));
    workspaces.handle_workspace_event(60, WorkspaceEvent::State(true));
    workspaces.handle_manager_event(WorkspaceManagerEvent::Done);
    let mut bg = CosmicBg::new(no_policy(), None, Some(ToplevelTracker::new()), Some(workspaces));
    bg.attach_layer(1, 30, 0);
    bg.on_toplevel_event(9, ToplevelEvent::OutputEnter(1));
    bg.on_toplevel_event(9, ToplevelEvent::WorkspaceEnter(60));
    bg.on_toplevel_event(9, ToplevelEvent::State(vec![3]));
    bg.on_toplevel_event(9, ToplevelEvent::Done);
    assert!(bg.should_pause_animation(1));
    let resume = bg.on_toplevel_event(9, ToplevelEvent::Closed);
    assert_eq!(resume, vec![1]);
    assert!(!bg.should_pause_animation(1));
}

#[test]
fn shader_physical_size_large_scale_does_not_overflow() {
    // 1920 * 3_000_000 overflows 32 bits, but the result fits.
    assert_eq!(CosmicBg::shader_physical_size(None, Some(3_000_000), None), (48_000_000, 27_000_000));
    assert_eq!(CosmicBg::shader_physical_size(Some((4000, 10)), Some(1_200_000), None), (40_000_000, 100_000));
}

#[test]
fn background_for_output_takes_first_match() {
    let outputs = vec!["DP-1".to_string(), "eDP-1".to_string(), "DP-1".to_string()];
    assert_eq!(background_for_output(&"DP-1".to_string(), &outputs), Some(0));
    assert_eq!(background_for_output(&"eDP-1".to_string(), &outputs), Some(1));
    assert_eq!(background_for_output(&"HDMI-A-1".to_string(), &outputs), None);
    assert_eq!(background_for_output(&"DP-1".to_string(), &vec![]), None);
}

#[test]
fn workspace_hooks_reach_the_tracker() {
    let mut bg = CosmicBg::new(no_policy(), None, Some(ToplevelTracker::new()), Some(WorkspaceTracker::new()));
    bg.attach_layer(1, 30, 0);
    bg.on_workspace_manager_event(WorkspaceManagerEvent::WorkspaceGroup(50));
    bg.on_workspace_group_event(50, WorkspaceGroupEvent::OutputEnter(1));
    bg.on_workspace_group_event(50, WorkspaceGroupEvent::WorkspaceEnter(60));
    bg.on_workspace_event(60, WorkspaceEvent::State(true));
    let resume = bg.on_workspace_manager_event(WorkspaceManagerEvent::Done);
    assert_eq!(resume, vec![1]);
    bg.on_toplevel_event(9, ToplevelEvent::OutputEnter(1));
    bg.on_toplevel_event(9, ToplevelEvent::WorkspaceEnter(60));
    bg.on_toplevel_event(9, ToplevelEvent::State(vec![3]));
    bg.on_toplevel_event(9, ToplevelEvent::Done);
    assert_eq!(bg.get_pause_reason(1), Some(PauseReason::FullscreenApp));
    // The workspace becomes inactive: the window no longer counts.
    bg.on_workspace_event(60, WorkspaceEvent::State(false));
    assert_eq!(bg.get_pause_reason(1), Some(PauseReason::FullscreenApp));
    let resume = bg.on_workspace_manager_event(WorkspaceManagerEvent::Done);
    assert_eq!(resume, vec![1]);
    assert_eq!(bg.get_pause_reason(1), None);
    // Removing the group drops its workspace.
    bg.on_workspace_group_event(50, WorkspaceGroupEvent::Removed);
    assert!(bg.workspace_tracker.as_ref().unwrap().workspaces.is_empty());
}

#[test]
fn foreign_hooks_map_and_close() {
    let mut bg = CosmicBg::new(no_policy(), None, Some(ToplevelTracker::new()), None);
    bg.on_foreign_cosmic_event(7, 70, ToplevelEvent::OutputEnter(1));
    assert_eq!(bg.toplevel_tracker.as_ref().unwrap().get_cosmic_for_foreign(70), Some(7));
    assert!(bg.on_foreign_event(70, ForeignToplevelEvent::Closed).is_empty());
    assert_eq!(bg.toplevel_tracker.as_ref().unwrap().get_cosmic_for_foreign(70), None);
    assert_eq!(bg.toplevel_tracker.as_ref().unwrap().toplevel_count(), 0);
}

#[test]
fn closing_fullscreen_foreign_window_resumes() {
    let mut workspaces = WorkspaceTracker::new();
    workspaces.handle_manager_event(WorkspaceManagerEvent::WorkspaceGroup(50));
    workspaces.handle_group_event(50, WorkspaceGroupEvent::OutputEnter(1));
    workspaces.handle_group_event(50, WorkspaceGroupEvent::WorkspaceEnter(60));
    workspaces.handle_workspace_event(60, WorkspaceEvent::State(true));
    workspaces.handle_manager_event(WorkspaceManagerEvent::Done);
    let mut bg = CosmicBg::new(no_policy(), None, Some(ToplevelTracker::new()), Some(workspaces));
    bg.attach_layer(1, 30, 0);
    bg.on_foreign_cosmic_event(7, 70, ToplevelEvent::OutputEnter(1));
    bg.on_foreign_cosmic_event(7, 70, ToplevelEvent::WorkspaceEnter(60));
    bg.on_foreign_cosmic_event(7, 70, ToplevelEvent::State(vec![3]));
    bg.on_foreign_event(70, ForeignToplevelEvent::Done);
    assert_eq!(bg.get_pause_reason(1), Some(PauseReason::FullscreenApp));
    assert_eq!(bg.on_foreign_event(70, ForeignToplevelEvent::Closed), vec![1]);
    assert_eq!(bg.get_pause_reason(1), None);
}

#[test]
fn checked_physical_size_reports_overflow() {
    assert_eq!(CosmicBg::checked_physical_size(Some((100, 50)), Some(150), None), Some((125, 62)));
    assert_eq!(CosmicBg::checked_physical_size(None, Some(150), Some((1280, 720))), Some((1280, 720)));
    assert_eq!(CosmicBg::checked_physical_size(Some((u32::MAX, 1)), Some(240), None), None);
    assert_eq!(CosmicBg::checked_physical_size(None, Some(u32::MAX), None), None);
}

#[test]
fn attach_keeps_other_layers() {
    let mut bg = CosmicBg::new(no_policy(), None, None, None);
    bg.attach_layer(1, 30, 5);
    bg.attach_layer(2, 60, 6);
    bg.attach_layer(1, 10, 7);
    assert_eq!(bg.layers.len(), 2);
    assert_eq!(bg.layers[1].output_id, 2);
    assert_eq!(bg.layers[1].pacer.configured_fps, 60);
    assert_eq!(bg.layers[1].pacer.last_frame, 6);
    assert_eq!(bg.layers[0].pacer.configured_fps, 10);
}
