//! The animation controller: pause verdicts, frame-rate policy and frame
//! callback decisions for every display that shows a shader wallpaper.

use vstd::prelude::*;

use crate::pacing::FramePacer;
use crate::toplevel_info::{
    active_fullscreen_on, has_foreign, has_handle, is_fullscreen_handle, maps_to, without_handle, ForeignToplevelEvent,
    ToplevelEvent,
    ToplevelTracker,
};
use crate::workspace_info::{
    active_on, commit_all_changes, group_event_effect, manager_event_effect, workspace_event_effect, WorkspaceEvent,
    WorkspaceGroupEvent, WorkspaceManagerEvent, WorkspaceTracker,
};

verus! {

/// Options of the engine.
#[derive(Debug)]
pub struct EngineConfig {
    /// Whether to connect to the compositor.
    pub enable_wayland: bool,
}

impl Default for EngineConfig {
    fn default() -> (r: Self)
        ensures
            r.enable_wayland,
    {
        EngineConfig { enable_wayland: true }
    }
}

/// What to do on battery power.
#[derive(Clone, Copy, PartialEq, Eq, Structural, Debug)]
pub enum OnBatteryAction {
    /// Keep animating at the configured rate.
    Nothing,
    /// Pause the animation.
    Pause,
    /// Animate at this many frames per second.
    LimitFrameRate(u8),
}

impl OnBatteryAction {
    /// The frame rate that this action imposes, if any.
    pub open spec fn frame_rate_spec(self) -> Option<u8> {
        match self {
            OnBatteryAction::LimitFrameRate(f) => Some(f),
            _ => None,
        }
    }

    /// The frame rate that this action imposes, if any.
    pub fn frame_rate(&self) -> (r: Option<u8>)
        ensures
            r == self.frame_rate_spec(),
    {
        match self {
            OnBatteryAction::LimitFrameRate(f) => Some(*f),
            _ => None,
        }
    }
}

/// Power-saving policy.
#[derive(Clone, Copy, PartialEq, Eq, Structural, Debug)]
pub struct PowerSavingConfig {
    /// Pause a display covered by a fullscreen window on its active workspace.
    pub pause_on_fullscreen: bool,
    /// Pause while the lid is closed.
    pub pause_on_lid_closed: bool,
    /// Pause while the battery is at or below the threshold.
    pub pause_on_low_battery: bool,
    /// The low-battery threshold, in percent.
    pub low_battery_threshold: u8,
    /// What to do on battery power.
    pub on_battery_action: OnBatteryAction,
}

/// What the power monitor reports.
#[derive(Clone, Copy, PartialEq, Eq, Structural, Debug)]
pub struct PowerState {
    /// Whether the machine runs on battery.
    pub on_battery: bool,
    /// Whether the lid is closed.
    pub lid_is_closed: bool,
    /// The battery charge in hundredths of a percent, rounded up, if known.
    pub battery_hundredths: Option<u32>,
}

/// Why a display's animation is paused.
#[derive(Clone, Copy, PartialEq, Eq, Structural, Debug)]
pub enum PauseReason {
    /// A fullscreen window covers the display on its active workspace.
    FullscreenApp,
    /// The lid is closed.
    LidClosed,
    /// The battery is at or below the threshold.
    LowBattery { percentage: u8, threshold: u8 },
    /// The machine runs on battery and the policy pauses then.
    OnBattery,
}

/// Whether the battery charge is at or below the threshold of `config`.
pub open spec fn battery_low(config: PowerSavingConfig, power: PowerState) -> bool {
    match power.battery_hundredths {
        Some(h) => h <= config.low_battery_threshold as u32 * 100,
        None => false,
    }
}

/// The pause reason that the power state alone gives, in order of precedence.
pub open spec fn power_pause_reason(config: PowerSavingConfig, power: Option<PowerState>) -> Option<PauseReason> {
    match power {
        None => None,
        Some(p) => if config.pause_on_lid_closed && p.lid_is_closed {
            Some(PauseReason::LidClosed)
        } else if config.pause_on_low_battery && battery_low(config, p) {
            Some(
                PauseReason::LowBattery {
                    percentage: (p.battery_hundredths.unwrap() / 100) as u8,
                    threshold: config.low_battery_threshold,
                },
            )
        } else if p.on_battery && config.on_battery_action == OnBatteryAction::Pause {
            Some(PauseReason::OnBattery)
        } else {
            None
        },
    }
}

/// The pause verdict of a display: a fullscreen window first, then the power
/// state.
pub open spec fn pause_reason_spec(
    config: PowerSavingConfig,
    fullscreen_active: bool,
    power: Option<PowerState>,
) -> Option<PauseReason> {
    if config.pause_on_fullscreen && fullscreen_active {
        Some(PauseReason::FullscreenApp)
    } else {
        power_pause_reason(config, power)
    }
}

/// The pause reason that the power state alone gives.
pub fn power_pause_reason_of(config: &PowerSavingConfig, power: Option<PowerState>) -> (r: Option<PauseReason>)
    ensures
        r == power_pause_reason(*config, power),
{
    match power {
        None => None,
        Some(p) => {
            if config.pause_on_lid_closed && p.lid_is_closed {
                return Some(PauseReason::LidClosed);
            }
            if config.pause_on_low_battery {
                if let Some(h) = p.battery_hundredths {
                    if h <= config.low_battery_threshold as u32 * 100 {
                        return Some(
                            PauseReason::LowBattery {
                                percentage: (h / 100) as u8,
                                threshold: config.low_battery_threshold,
                            },
                        );
                    }
                }
            }
            if p.on_battery && config.on_battery_action == OnBatteryAction::Pause {
                return Some(PauseReason::OnBattery);
            }
            None
        },
    }
}

/// The pause verdict of a display, given whether an active fullscreen window
/// covers it and the power state (none without a power monitor).
pub fn pause_reason(config: &PowerSavingConfig, fullscreen_active: bool, power: Option<PowerState>) -> (r: Option<PauseReason>)
    ensures
        r == pause_reason_spec(*config, fullscreen_active, power),
{
    if config.pause_on_fullscreen && fullscreen_active {
        Some(PauseReason::FullscreenApp)
    } else {
        power_pause_reason_of(config, power)
    }
}

/// The frame-rate override that the policy imposes.
pub open spec fn override_for(config: PowerSavingConfig, on_battery: bool) -> Option<u8> {
    if on_battery {
        config.on_battery_action.frame_rate_spec()
    } else {
        None
    }
}

/// The physical pixel size of a shader surface: the logical size scaled by
/// `scale / 120` if the logical size is known, else the current mode, else a
/// 1920x1080 default scaled the same way. A missing scale counts as 120.
pub open spec fn physical_size_spec(
    layer_size: Option<(u32, u32)>,
    fractional_scale: Option<u32>,
    mode: Option<(u32, u32)>,
) -> (int, int) {
    let scale: int = match fractional_scale {
        Some(s) => s as int,
        None => 120,
    };
    match layer_size {
        Some((w, h)) => (w as int * scale / 120, h as int * scale / 120),
        None => match mode {
            Some((w, h)) => (w as int, h as int),
            None => (1920 * scale / 120, 1080 * scale / 120),
        },
    }
}

/// Whether both sides of `physical_size_spec` fit in 32 bits.
pub open spec fn physical_size_fits(
    layer_size: Option<(u32, u32)>,
    fractional_scale: Option<u32>,
    mode: Option<(u32, u32)>,
) -> bool {
    let r = physical_size_spec(layer_size, fractional_scale, mode);
    r.0 <= u32::MAX && r.1 <= u32::MAX
}

/// Which configured background a display gets: the first entry whose output
/// name is the display's name, or none, in which case the default background
/// applies.
pub fn background_for_output(name: &String, outputs: &Vec<String>) -> (r: Option<usize>)
    ensures
        r matches Some(i) ==> i < outputs@.len() && outputs@[i as int]@ == name@
            && forall|j: int| 0 <= j < i ==> (#[trigger] outputs@[j])@ != name@,
        r is None <==> forall|j: int| 0 <= j < outputs@.len() ==> (#[trigger] outputs@[j])@ != name@,
{
    let mut i: usize = 0;
    while i < outputs.len()
        invariant
            0 <= i <= outputs@.len(),
            forall|j: int| 0 <= j < i ==> (#[trigger] outputs@[j])@ != name@,
        decreases outputs@.len() - i,
    {
        if outputs[i] == *name {
            return Some(i);
        }
        i = i + 1;
    }
    None
}

/// The state of one display that shows a live shader wallpaper.
#[derive(Clone, Copy, Debug)]
pub struct ShaderLayer {
    /// The object ID of the display's output.
    pub output_id: u32,
    /// The pacing state of its canvas.
    pub pacer: FramePacer,
}

/// What to do on a frame callback of a display.
#[derive(Clone, Copy, PartialEq, Eq, Structural, Debug)]
pub struct FrameDecision {
    /// Render and present a frame now.
    pub render: bool,
    /// Request the next frame callback.
    pub request_callback: bool,
    /// Why the animation is paused, if it is.
    pub pause: Option<PauseReason>,
}

/// Whether two layers share an output.
pub open spec fn unique_outputs(ls: Seq<ShaderLayer>) -> bool {
    forall|i: int, j: int| 0 <= i < ls.len() && 0 <= j < ls.len() && i != j ==> ls[i].output_id != ls[j].output_id
}

/// Whether some layer is on output `o`.
pub open spec fn has_layer(ls: Seq<ShaderLayer>, o: u32) -> bool {
    exists|i: int| 0 <= i < ls.len() && #[trigger] ls[i].output_id == o
}

/// Whether some of the first `n` layers is on output `o`.
pub open spec fn output_in_prefix(ls: Seq<ShaderLayer>, n: int, o: u32) -> bool {
    exists|j: int| 0 <= j < n && #[trigger] ls[j].output_id == o
}

/// The decisions of the background daemon that do not depend on the
/// compositor connection or the GPU.
pub struct CosmicBg {
    /// Power-saving policy.
    pub power_saving_config: PowerSavingConfig,
    /// The last power state reported, if there is a power monitor.
    pub power: Option<PowerState>,
    /// The frame-rate override pushed to every canvas.
    pub current_frame_rate_override: Option<u8>,
    /// Whether the machine ran on battery at the last check.
    pub was_on_battery: bool,
    /// Fullscreen detection, if the protocol is available.
    pub toplevel_tracker: Option<ToplevelTracker>,
    /// Workspace awareness, if the protocol is available.
    pub workspace_tracker: Option<WorkspaceTracker>,
    /// The displays with a live shader canvas.
    pub layers: Vec<ShaderLayer>,
}

impl CosmicBg {
    /// The trackers are well formed, outputs are unique, and every canvas has
    /// the current override.
    pub open spec fn wf(&self) -> bool {
        &&& (self.toplevel_tracker matches Some(t) ==> t.wf())
        &&& (self.workspace_tracker matches Some(w) ==> w.wf())
        &&& unique_outputs(self.layers@)
        &&& forall|i: int| 0 <= i < self.layers@.len() ==> (#[trigger] self.layers@[i]).pacer.override_fps == self.current_frame_rate_override
    }

    /// The workspaces active on output `o`; none without workspace tracking.
    pub open spec fn active_workspaces(&self, o: u32) -> Set<u32> {
        match self.workspace_tracker {
            Some(w) => active_on(w.group_records(), w.workspace_records(), o),
            None => Set::empty(),
        }
    }

    /// Whether a fullscreen window on an active workspace covers output `o`.
    pub open spec fn fullscreen_active(&self, o: u32) -> bool {
        match self.toplevel_tracker {
            Some(t) => active_fullscreen_on(t.records(), o, self.active_workspaces(o)),
            None => false,
        }
    }

    /// The pause verdict of output `o`.
    pub open spec fn verdict(&self, o: u32) -> Option<PauseReason> {
        pause_reason_spec(self.power_saving_config, self.fullscreen_active(o), self.power)
    }

    /// Whether the power state alone pauses every display.
    pub open spec fn paused_globally(&self) -> bool {
        power_pause_reason(self.power_saving_config, self.power) is Some
    }

    /// Whether the last reported state is on battery (false without a monitor).
    pub open spec fn on_battery(&self) -> bool {
        match self.power {
            Some(p) => p.on_battery,
            None => false,
        }
    }

    /// The outputs to request a frame callback for on resumption: those with a
    /// canvas whose verdict is not to pause.
    pub open spec fn resumable(&self) -> Set<u32> {
        Set::new(|o: u32| has_layer(self.layers@, o) && self.verdict(o) is None)
    }

    /// A controller with no canvas yet.
    pub fn new(
        power_saving_config: PowerSavingConfig,
        power: Option<PowerState>,
        toplevel_tracker: Option<ToplevelTracker>,
        workspace_tracker: Option<WorkspaceTracker>,
    ) -> (r: Self)
        requires
            toplevel_tracker matches Some(t) ==> t.wf(),
            workspace_tracker matches Some(w) ==> w.wf(),
        ensures
            r.wf(),
            r.power_saving_config == power_saving_config,
            r.power == power,
            r.current_frame_rate_override is None,
            !r.was_on_battery,
            r.toplevel_tracker == toplevel_tracker,
            r.workspace_tracker == workspace_tracker,
            r.layers@.len() == 0,
    {
        CosmicBg {
            power_saving_config,
            power,
            current_frame_rate_override: None,
            was_on_battery: false,
            toplevel_tracker,
            workspace_tracker,
            layers: Vec::new(),
        }
    }

    fn find_layer(&self, output_id: u32) -> (r: Option<usize>)
        ensures
            r matches Some(i) ==> i < self.layers@.len() && self.layers@[i as int].output_id == output_id,
            r is None ==> !has_layer(self.layers@, output_id),
    {
        let mut i: usize = 0;
        while i < self.layers.len()
            invariant
                0 <= i <= self.layers@.len(),
                forall|j: int| 0 <= j < i ==> #[trigger] self.layers@[j].output_id != output_id,
            decreases self.layers@.len() - i,
        {
            if self.layers[i].output_id == output_id {
                return Some(i);
            }
            i = i + 1;
        }
        None
    }

    /// Starts animating output `output_id` at `configured_fps`, with the current
    /// override; a canvas already on that output is replaced.
    pub fn attach_layer(&mut self, output_id: u32, configured_fps: u8, now: u64)
        requires
            old(self).wf(),
        ensures
            final(self).wf(),
            has_layer(final(self).layers@, output_id),
            forall|o: u32| o != output_id ==> has_layer(final(self).layers@, o) == has_layer(old(self).layers@, o),
            forall|l: ShaderLayer| l.output_id != output_id ==> (final(self).layers@.contains(l) == old(self).layers@.contains(l)),
            forall|i: int| 0 <= i < final(self).layers@.len() && (#[trigger] final(self).layers@[i]).output_id == output_id
                ==> final(self).layers@[i].pacer == (FramePacer {
                    configured_fps,
                    override_fps: old(self).current_frame_rate_override,
                    last_frame: now,
                }),
            final(self).power == old(self).power,
            final(self).power_saving_config == old(self).power_saving_config,
            final(self).current_frame_rate_override == old(self).current_frame_rate_override,
            final(self).was_on_battery == old(self).was_on_battery,
            final(self).toplevel_tracker == old(self).toplevel_tracker,
            final(self).workspace_tracker == old(self).workspace_tracker,
    {
        let mut pacer = FramePacer::new(configured_fps, now);
        pacer.set_frame_rate_override(self.current_frame_rate_override);
        let layer = ShaderLayer { output_id, pacer };
        let ghost ls = self.layers@;
        match self.find_layer(output_id) {
            Some(i) => {
                self.layers.set(i, layer);
                assert forall|o: u32| o != output_id implies has_layer(self.layers@, o) == has_layer(ls, o) by {
                    if has_layer(ls, o) {
                        let j = choose|j: int| 0 <= j < ls.len() && #[trigger] ls[j].output_id == o;
                        assert(self.layers@[j].output_id == o);
                    }
                    if has_layer(self.layers@, o) {
                        let j = choose|j: int| 0 <= j < ls.len() && #[trigger] self.layers@[j].output_id == o;
                        assert(ls[j].output_id == o);
                    }
                }
                assert(self.layers@[i as int].output_id == output_id);
                assert forall|l: ShaderLayer| l.output_id != output_id implies (self.layers@.contains(l) == ls.contains(l)) by {
                    if ls.contains(l) {
                        let j = choose|j: int| 0 <= j < ls.len() && ls[j] == l;
                        assert(self.layers@[j] == l);
                    }
                    if self.layers@.contains(l) {
                        let j = choose|j: int| 0 <= j < ls.len() && self.layers@[j] == l;
                        assert(ls[j] == l);
                    }
                }
            },
            None => {
                self.layers.push(layer);
                assert forall|l: ShaderLayer| l.output_id != output_id implies (self.layers@.contains(l) == ls.contains(l)) by {
                    if ls.contains(l) {
                        let j = choose|j: int| 0 <= j < ls.len() && ls[j] == l;
                        assert(self.layers@[j] == l);
                    }
                    if self.layers@.contains(l) {
                        let j = choose|j: int| 0 <= j < self.layers@.len() && self.layers@[j] == l;
                        assert(j < ls.len());
                        assert(ls[j] == l);
                    }
                }
                assert forall|o: u32| o != output_id implies has_layer(self.layers@, o) == has_layer(ls, o) by {
                    if has_layer(ls, o) {
                        let j = choose|j: int| 0 <= j < ls.len() && #[trigger] ls[j].output_id == o;
                        assert(self.layers@[j].output_id == o);
                    }
                }
                assert(self.layers@[ls.len() as int].output_id == output_id);
            },
        }
    }

    /// Stops animating output `output_id`.
    pub fn detach_layer(&mut self, output_id: u32)
        requires
            old(self).wf(),
        ensures
            final(self).wf(),
            !has_layer(final(self).layers@, output_id),
            forall|o: u32| o != output_id ==> has_layer(final(self).layers@, o) == has_layer(old(self).layers@, o),
            forall|l: ShaderLayer| l.output_id != output_id ==> (final(self).layers@.contains(l) == old(self).layers@.contains(l)),
            final(self).power == old(self).power,
            final(self).power_saving_config == old(self).power_saving_config,
            final(self).current_frame_rate_override == old(self).current_frame_rate_override,
            final(self).was_on_battery == old(self).was_on_battery,
            final(self).toplevel_tracker == old(self).toplevel_tracker,
            final(self).workspace_tracker == old(self).workspace_tracker,
    {
        let ghost ls = self.layers@;
        if let Some(i) = self.find_layer(output_id) {
            self.layers.remove(i);
            let ghost l2 = self.layers@;
            assert(l2 == ls.remove(i as int));
            assert forall|o: u32| o != output_id implies has_layer(l2, o) == has_layer(ls, o) by {
                if has_layer(ls, o) {
                    let j = choose|j: int| 0 <= j < ls.len() && #[trigger] ls[j].output_id == o;
                    if j < i { assert(l2[j].output_id == o); } else { assert(l2[j - 1].output_id == o); }
                }
                if has_layer(l2, o) {
                    let j = choose|j: int| 0 <= j < l2.len() && #[trigger] l2[j].output_id == o;
                    if j < i { assert(ls[j].output_id == o); } else { assert(ls[j + 1].output_id == o); }
                }
            }
            assert(!has_layer(l2, output_id)) by {
                if has_layer(l2, output_id) {
                    let j = choose|j: int| 0 <= j < l2.len() && #[trigger] l2[j].output_id == output_id;
                    if j < i { assert(ls[j].output_id == output_id); } else { assert(ls[j + 1].output_id == output_id); }
                }
            }
            assert forall|l: ShaderLayer| l.output_id != output_id implies (l2.contains(l) == ls.contains(l)) by {
                if ls.contains(l) {
                    let j = choose|j: int| 0 <= j < ls.len() && ls[j] == l;
                    if j < i { assert(l2[j] == l); } else { assert(l2[j - 1] == l); }
                }
                if l2.contains(l) {
                    let j = choose|j: int| 0 <= j < l2.len() && l2[j] == l;
                    if j < i { assert(ls[j] == l); } else { assert(ls[j + 1] == l); }
                }
            }
        }
    }

    /// Whether a fullscreen window on an active workspace covers `output_id`.
    pub fn has_active_fullscreen(&self, output_id: u32) -> (r: bool)
        requires
            self.wf(),
        ensures
            r == self.fullscreen_active(output_id),
    {
        match &self.toplevel_tracker {
            Some(t) => {
                let active = match &self.workspace_tracker {
                    Some(w) => w.get_active_workspace_ids_for_output(output_id),
                    None => Vec::new(),
                };
                proof {
                    if self.workspace_tracker is None {
                        assert(active@.to_set() =~= Set::<u32>::empty());
                    }
                }
                t.has_active_fullscreen_on_output_id(output_id, &active)
            },
            None => false,
        }
    }

    /// The pause verdict of output `output_id`, in order of precedence:
    /// fullscreen window, lid closed, low battery, on battery.
    pub fn get_pause_reason(&self, output_id: u32) -> (r: Option<PauseReason>)
        requires
            self.wf(),
        ensures
            r == self.verdict(output_id),
    {
        let fullscreen = if self.power_saving_config.pause_on_fullscreen {
            self.has_active_fullscreen(output_id)
        } else {
            false
        };
        pause_reason(&self.power_saving_config, fullscreen, self.power)
    }

    /// Whether the animation of output `output_id` is paused.
    pub fn should_pause_animation(&self, output_id: u32) -> (r: bool)
        requires
            self.wf(),
        ensures
            r == self.verdict(output_id) is Some,
    {
        self.get_pause_reason(output_id).is_some()
    }

    /// Whether the power state alone pauses every display.
    pub fn should_pause_animation_global(&self) -> (r: bool)
        ensures
            r == self.paused_globally(),
    {
        power_pause_reason_of(&self.power_saving_config, self.power).is_some()
    }

    /// Recomputes the frame-rate override from the power state and pushes it to
    /// every canvas.
    pub fn reapply_frame_rates(&mut self)
        requires
            old(self).wf(),
        ensures
            final(self).wf(),
            final(self).current_frame_rate_override == override_for(old(self).power_saving_config, old(self).on_battery()),
            final(self).layers@.len() == old(self).layers@.len(),
            forall|i: int| 0 <= i < old(self).layers@.len() ==> #[trigger] final(self).layers@[i] == (ShaderLayer {
                pacer: FramePacer { override_fps: override_for(old(self).power_saving_config, old(self).on_battery()), ..old(self).layers@[i].pacer },
                ..old(self).layers@[i]
            }),
            final(self).power == old(self).power,
            final(self).power_saving_config == old(self).power_saving_config,
            final(self).was_on_battery == old(self).was_on_battery,
            final(self).toplevel_tracker == old(self).toplevel_tracker,
            final(self).workspace_tracker == old(self).workspace_tracker,
    {
        let on_battery = match self.power {
            Some(p) => p.on_battery,
            None => false,
        };
        let new_override = if on_battery {
            self.power_saving_config.on_battery_action.frame_rate()
        } else {
            None
        };
        self.current_frame_rate_override = new_override;
        let ghost ls = self.layers@;
        let mut i: usize = 0;
        while i < self.layers.len()
            invariant
                0 <= i <= self.layers@.len(),
                self.layers@.len() == ls.len(),
                self.current_frame_rate_override == new_override,
                self.power == old(self).power,
                self.power_saving_config == old(self).power_saving_config,
                self.was_on_battery == old(self).was_on_battery,
                self.toplevel_tracker == old(self).toplevel_tracker,
                self.workspace_tracker == old(self).workspace_tracker,
                forall|j: int| 0 <= j < i ==> #[trigger] self.layers@[j] == (ShaderLayer {
                    pacer: FramePacer { override_fps: new_override, ..ls[j].pacer },
                    ..ls[j]
                }),
                forall|j: int| i <= j < ls.len() ==> #[trigger] self.layers@[j] == ls[j],
            decreases ls.len() - i,
        {
            self.layers[i].pacer.set_frame_rate_override(new_override);
            i = i + 1;
        }
        assert forall|a: int, b: int| 0 <= a < ls.len() && 0 <= b < ls.len() && a != b implies self.layers@[a].output_id != self.layers@[b].output_id by {
            assert(self.layers@[a].output_id == ls[a].output_id);
            assert(self.layers@[b].output_id == ls[b].output_id);
        }
    }

    /// Reapplies the frame rates if the on-battery status changed since the last
    /// check; returns whether it did.
    pub fn check_and_update_frame_rates(&mut self) -> (changed: bool)
        requires
            old(self).wf(),
        ensures
            final(self).wf(),
            changed == (old(self).power is Some && old(self).on_battery() != old(self).was_on_battery),
            changed ==> final(self).was_on_battery == old(self).on_battery()
                && final(self).current_frame_rate_override == override_for(old(self).power_saving_config, old(self).on_battery()),
            !changed ==> *final(self) == *old(self),
            final(self).layers@.len() == old(self).layers@.len(),
            forall|i: int| 0 <= i < old(self).layers@.len() ==> (#[trigger] final(self).layers@[i]).output_id == old(self).layers@[i].output_id
                && final(self).layers@[i].pacer.configured_fps == old(self).layers@[i].pacer.configured_fps
                && final(self).layers@[i].pacer.last_frame == old(self).layers@[i].pacer.last_frame,
            final(self).power == old(self).power,
            final(self).power_saving_config == old(self).power_saving_config,
            final(self).toplevel_tracker == old(self).toplevel_tracker,
            final(self).workspace_tracker == old(self).workspace_tracker,
    {
        match self.power {
            None => false,
            Some(p) => {
                if p.on_battery == self.was_on_battery {
                    false
                } else {
                    self.was_on_battery = p.on_battery;
                    self.reapply_frame_rates();
                    true
                }
            },
        }
    }

    /// The outputs with a canvas whose verdict is not to pause: those to request
    /// a frame callback for, so that a paused animation resumes.
    pub fn request_frame_callbacks_if_needed(&self) -> (r: Vec<u32>)
        requires
            self.wf(),
        ensures
            r@.to_set() == self.resumable(),
            r@.no_duplicates(),
    {
        let mut r: Vec<u32> = Vec::new();
        let mut i: usize = 0;
        while i < self.layers.len()
            invariant
                0 <= i <= self.layers@.len(),
                self.wf(),
                r@.no_duplicates(),
                forall|k: int| 0 <= k < r@.len() ==> output_in_prefix(self.layers@, i as int, #[trigger] r@[k]),
                forall|o: u32| r@.contains(o) <==> output_in_prefix(self.layers@, i as int, o) && self.verdict(o) is None,
            decreases self.layers@.len() - i,
        {
            let o = self.layers[i].output_id;
            let ghost before = r@;
            if !self.should_pause_animation(o) {
                proof {
                    assert(!before.contains(o)) by {
                        if before.contains(o) {
                            let k = choose|k: int| 0 <= k < before.len() && before[k] == o;
                            assert(output_in_prefix(self.layers@, i as int, before[k]));
                            let j = choose|j: int| 0 <= j < i && #[trigger] self.layers@[j].output_id == before[k];
                            assert(self.layers@[j].output_id == self.layers@[i as int].output_id);
                        }
                    }
                }
                r.push(o);
                proof {
                    assert forall|k: int| 0 <= k < r@.len() implies output_in_prefix(self.layers@, i + 1, #[trigger] r@[k]) by {
                        if k < before.len() {
                            assert(r@[k] == before[k]);
                            assert(output_in_prefix(self.layers@, i as int, before[k]));
                            let j = choose|j: int| 0 <= j < i && #[trigger] self.layers@[j].output_id == before[k];
                            assert(self.layers@[j].output_id == r@[k]);
                        } else {
                            assert(self.layers@[i as int].output_id == r@[k]);
                        }
                    }
                    assert(r@ == before.push(o));
                }
            }
            proof {
                assert forall|x: u32| r@.contains(x) <==> output_in_prefix(self.layers@, i + 1, x) && self.verdict(x) is None by {
                    if r@.contains(x) && x != o {
                        assert(before.contains(x)) by {
                            let k = choose|k: int| 0 <= k < r@.len() && r@[k] == x;
                            if k < before.len() { assert(before[k] == x); }
                        }
                        let j = choose|j: int| 0 <= j < i && #[trigger] self.layers@[j].output_id == x;
                        assert(self.layers@[j].output_id == x);
                    }
                    if x == o && self.verdict(x) is None {
                        assert(self.layers@[i as int].output_id == x);
                        assert(r@.contains(x)) by {
                            assert(r@[r@.len() - 1] == x);
                        }
                    }
                    if output_in_prefix(self.layers@, i + 1, x) && self.verdict(x) is None && x != o {
                        let j = choose|j: int| 0 <= j < i + 1 && #[trigger] self.layers@[j].output_id == x;
                        assert(j < i);
                        assert(output_in_prefix(self.layers@, i as int, x));
                        assert(before.contains(x));
                        let k = choose|k: int| 0 <= k < before.len() && before[k] == x;
                        assert(r@[k] == x);
                    }
                }
            }
            i = i + 1;
        }
        assert forall|o: u32| output_in_prefix(self.layers@, self.layers@.len() as int, o) == has_layer(self.layers@, o) by {}
        assert(r@.to_set() =~= self.resumable());
        r
    }

    /// Handles a frame callback of output `output_id` at time `now`: first
    /// reapplies the frame rates if the on-battery status changed, then decides
    /// whether to render and whether to request the next callback. A paused
    /// display renders nothing and requests no callback.
    pub fn frame(&mut self, output_id: u32, now: u64) -> (d: FrameDecision)
        requires
            old(self).wf(),
        ensures
            final(self).wf(),
            final(self).power == old(self).power,
            final(self).power_saving_config == old(self).power_saving_config,
            final(self).toplevel_tracker == old(self).toplevel_tracker,
            final(self).workspace_tracker == old(self).workspace_tracker,
            final(self).layers@.len() == old(self).layers@.len(),
            forall|i: int| 0 <= i < old(self).layers@.len() ==> (#[trigger] final(self).layers@[i]).output_id == old(self).layers@[i].output_id
                && final(self).layers@[i].pacer.configured_fps == old(self).layers@[i].pacer.configured_fps
                && final(self).layers@[i].pacer.last_frame == old(self).layers@[i].pacer.last_frame,
            (old(self).power is Some && old(self).on_battery() != old(self).was_on_battery) ==> final(self).was_on_battery == old(self).on_battery()
                && final(self).current_frame_rate_override == override_for(old(self).power_saving_config, old(self).on_battery()),
            !(old(self).power is Some && old(self).on_battery() != old(self).was_on_battery) ==> *final(self) == *old(self),
            !has_layer(old(self).layers@, output_id) ==> d == (FrameDecision { render: false, request_callback: false, pause: None }),
            has_layer(old(self).layers@, output_id) ==> d.pause == old(self).verdict(output_id)
                && d.request_callback == (old(self).verdict(output_id) is None)
                && d.render == (old(self).verdict(output_id) is None && exists|i: int| 0 <= i < final(self).layers@.len()
                    && #[trigger] final(self).layers@[i].output_id == output_id && final(self).layers@[i].pacer.due(now)),
    {
        self.check_and_update_frame_rates();
        match self.find_layer(output_id) {
            None => {
                proof {
                    if has_layer(old(self).layers@, output_id) {
                        let j = choose|j: int| 0 <= j < old(self).layers@.len() && #[trigger] old(self).layers@[j].output_id == output_id;
                        assert(self.layers@[j].output_id == output_id);
                    }
                }
                FrameDecision { render: false, request_callback: false, pause: None }
            },
            Some(i) => {
                let reason = self.get_pause_reason(output_id);
                let render = reason.is_none() && self.layers[i].pacer.should_render(now);
                proof {
                    assert(old(self).layers@[i as int].output_id == output_id);
                    if old(self).verdict(output_id) is None && exists|k: int| 0 <= k < self.layers@.len()
                        && #[trigger] self.layers@[k].output_id == output_id && self.layers@[k].pacer.due(now) {
                        let k = choose|k: int| 0 <= k < self.layers@.len()
                            && #[trigger] self.layers@[k].output_id == output_id && self.layers@[k].pacer.due(now);
                        assert(k == i);
                    }
                }
                FrameDecision { render, request_callback: reason.is_none(), pause: reason }
            },
        }
    }

    /// Records that a frame of output `output_id` was presented at `now`.
    pub fn mark_frame_rendered(&mut self, output_id: u32, now: u64)
        requires
            old(self).wf(),
        ensures
            final(self).wf(),
            final(self).layers@.len() == old(self).layers@.len(),
            forall|i: int| 0 <= i < old(self).layers@.len() ==> #[trigger] final(self).layers@[i] == if old(self).layers@[i].output_id == output_id {
                ShaderLayer { pacer: FramePacer { last_frame: now, ..old(self).layers@[i].pacer }, ..old(self).layers@[i] }
            } else {
                old(self).layers@[i]
            },
            final(self).power == old(self).power,
            final(self).power_saving_config == old(self).power_saving_config,
            final(self).current_frame_rate_override == old(self).current_frame_rate_override,
            final(self).was_on_battery == old(self).was_on_battery,
            final(self).toplevel_tracker == old(self).toplevel_tracker,
            final(self).workspace_tracker == old(self).workspace_tracker,
    {
        if let Some(i) = self.find_layer(output_id) {
            self.layers[i].pacer.mark_frame_rendered(now);
            assert forall|j: int| 0 <= j < old(self).layers@.len() && j != i implies old(self).layers@[j].output_id != output_id by {}
        }
    }

    /// Replaces the power-saving policy and reapplies the frame rates.
    pub fn set_power_saving_config(&mut self, config: PowerSavingConfig)
        requires
            old(self).wf(),
        ensures
            final(self).wf(),
            final(self).power_saving_config == config,
            final(self).current_frame_rate_override == override_for(config, old(self).on_battery()),
            final(self).layers@.len() == old(self).layers@.len(),
            forall|i: int| 0 <= i < old(self).layers@.len() ==> (#[trigger] final(self).layers@[i]).output_id == old(self).layers@[i].output_id
                && final(self).layers@[i].pacer.configured_fps == old(self).layers@[i].pacer.configured_fps
                && final(self).layers@[i].pacer.last_frame == old(self).layers@[i].pacer.last_frame,
            final(self).power == old(self).power,
            final(self).toplevel_tracker == old(self).toplevel_tracker,
            final(self).workspace_tracker == old(self).workspace_tracker,
    {
        self.power_saving_config = config;
        self.reapply_frame_rates();
    }

    /// Handles a new power state: reapplies the frame rates, and returns the
    /// outputs to request a frame callback for if the change lifted a pause
    /// that held on every display (none otherwise).
    pub fn on_power_state_changed(&mut self, power: PowerState) -> (resume: Vec<u32>)
        requires
            old(self).wf(),
        ensures
            final(self).wf(),
            final(self).power == Some(power),
            final(self).was_on_battery == power.on_battery,
            final(self).current_frame_rate_override == override_for(old(self).power_saving_config, power.on_battery),
            final(self).power_saving_config == old(self).power_saving_config,
            final(self).toplevel_tracker == old(self).toplevel_tracker,
            final(self).workspace_tracker == old(self).workspace_tracker,
            final(self).layers@.len() == old(self).layers@.len(),
            forall|i: int| 0 <= i < old(self).layers@.len() ==> (#[trigger] final(self).layers@[i]).output_id == old(self).layers@[i].output_id
                && final(self).layers@[i].pacer.configured_fps == old(self).layers@[i].pacer.configured_fps
                && final(self).layers@[i].pacer.last_frame == old(self).layers@[i].pacer.last_frame,
            (old(self).paused_globally() && !final(self).paused_globally()) ==> resume@.to_set() == final(self).resumable() && resume@.no_duplicates(),
            !(old(self).paused_globally() && !final(self).paused_globally()) ==> resume@.len() == 0,
    {
        let was_paused = self.should_pause_animation_global();
        self.power = Some(power);
        self.was_on_battery = power.on_battery;
        self.reapply_frame_rates();
        let is_paused = self.should_pause_animation_global();
        if was_paused && !is_paused {
            self.request_frame_callbacks_if_needed()
        } else {
            Vec::new()
        }
    }

    /// Handles an event of a toplevel handle (direct protocol revision); returns
    /// the outputs to request a frame callback for if the event changed what
    /// fullscreen detection sees (none otherwise, and none without a tracker).
    pub fn on_toplevel_event(&mut self, handle: u32, event: ToplevelEvent) -> (resume: Vec<u32>)
        requires
            old(self).wf(),
        ensures
            final(self).wf(),
            final(self).power == old(self).power,
            final(self).power_saving_config == old(self).power_saving_config,
            final(self).workspace_tracker == old(self).workspace_tracker,
            final(self).layers == old(self).layers,
            final(self).toplevel_tracker is Some == old(self).toplevel_tracker is Some,
            old(self).toplevel_tracker is None ==> resume@.len() == 0,
            forall|t: ToplevelTracker| old(self).toplevel_tracker == Some(t) ==> final(self).toplevel_tracker.unwrap().records()
                == crate::toplevel_info::direct_step(t.records(), handle, event),
            forall|t: ToplevelTracker| old(self).toplevel_tracker == Some(t) ==> (
                if crate::toplevel_info::direct_step_notifies(t.records(), handle, event) {
                    resume@.to_set() == final(self).resumable() && resume@.no_duplicates()
                } else {
                    resume@.len() == 0
                }),
    {
        let ghost ev = event;
        let notify = match &mut self.toplevel_tracker {
            Some(t) => t.handle_toplevel_event(handle, event),
            None => false,
        };
        if notify {
            self.request_frame_callbacks_if_needed()
        } else {
            Vec::new()
        }
    }

    /// Handles an event of a richer toplevel handle obtained for foreign handle
    /// `foreign` (later protocol revision); returns the outputs to request a
    /// frame callback for if a commit changed a window.
    pub fn on_foreign_cosmic_event(&mut self, handle: u32, foreign: u32, event: ToplevelEvent) -> (resume: Vec<u32>)
        requires
            old(self).wf(),
        ensures
            final(self).wf(),
            final(self).power == old(self).power,
            final(self).power_saving_config == old(self).power_saving_config,
            final(self).workspace_tracker == old(self).workspace_tracker,
            final(self).layers == old(self).layers,
            final(self).toplevel_tracker is Some == old(self).toplevel_tracker is Some,
            old(self).toplevel_tracker is None ==> resume@.len() == 0,
            forall|t: ToplevelTracker| old(self).toplevel_tracker == Some(t) ==> final(self).toplevel_tracker.unwrap().records()
                == crate::toplevel_info::foreign_step(t.records(), handle, event),
            forall|t: ToplevelTracker| old(self).toplevel_tracker == Some(t) && !has_handle(t.records(), handle)
                ==> maps_to(final(self).toplevel_tracker.unwrap().foreign(), foreign, handle),
            forall|t: ToplevelTracker| old(self).toplevel_tracker == Some(t) && has_handle(t.records(), handle)
                ==> final(self).toplevel_tracker.unwrap().foreign() == t.foreign(),
            forall|t: ToplevelTracker| old(self).toplevel_tracker == Some(t) ==> (
                if event is Done && crate::toplevel_info::commit_changes_handle(crate::toplevel_info::with_handle(t.records(), handle), handle) {
                    resume@.to_set() == final(self).resumable() && resume@.no_duplicates()
                } else {
                    resume@.len() == 0
                }),
    {
        let notify = match &mut self.toplevel_tracker {
            Some(t) => t.handle_foreign_cosmic_event(handle, foreign, event),
            None => false,
        };
        if notify {
            self.request_frame_callbacks_if_needed()
        } else {
            Vec::new()
        }
    }

    /// Handles an event of a foreign toplevel handle; returns the outputs to
    /// request a frame callback for if a commit changed the window, or if the
    /// window closed while it was fullscreen.
    pub fn on_foreign_event(&mut self, foreign: u32, event: ForeignToplevelEvent) -> (resume: Vec<u32>)
        requires
            old(self).wf(),
        ensures
            final(self).wf(),
            final(self).power == old(self).power,
            final(self).power_saving_config == old(self).power_saving_config,
            final(self).workspace_tracker == old(self).workspace_tracker,
            final(self).layers == old(self).layers,
            final(self).toplevel_tracker is Some == old(self).toplevel_tracker is Some,
            old(self).toplevel_tracker is None ==> resume@.len() == 0,
            event is Other ==> resume@.len() == 0,
            forall|t: ToplevelTracker| old(self).toplevel_tracker == Some(t) && event is Closed
                ==> !has_foreign(final(self).toplevel_tracker.unwrap().foreign(), foreign),
            forall|t: ToplevelTracker| old(self).toplevel_tracker == Some(t) && event is Closed
                && !has_foreign(t.foreign(), foreign) ==> resume@.len() == 0,
            forall|t: ToplevelTracker, c: u32| old(self).toplevel_tracker == Some(t) && event is Closed
                && maps_to(t.foreign(), foreign, c) ==> (if is_fullscreen_handle(t.records(), c) {
                    resume@.to_set() == final(self).resumable() && resume@.no_duplicates()
                } else {
                    resume@.len() == 0
                }),
            forall|t: ToplevelTracker, c: u32| old(self).toplevel_tracker == Some(t) && event is Closed
                && maps_to(t.foreign(), foreign, c) ==> final(self).toplevel_tracker.unwrap().records() == without_handle(t.records(), c),
            forall|t: ToplevelTracker| old(self).toplevel_tracker == Some(t) && !has_foreign(t.foreign(), foreign)
                && !(event is Other) ==> final(self).toplevel_tracker.unwrap().records() == t.records(),
            forall|t: ToplevelTracker| old(self).toplevel_tracker == Some(t) && event is Other
                ==> final(self).toplevel_tracker.unwrap().records() == t.records()
                && final(self).toplevel_tracker.unwrap().foreign() == t.foreign(),
            forall|t: ToplevelTracker, c: u32| old(self).toplevel_tracker == Some(t) && event is Done
                && crate::toplevel_info::maps_to(t.foreign(), foreign, c) ==> final(self).toplevel_tracker.unwrap().records()
                    == crate::toplevel_info::commit_record(t.records(), c)
                && (if crate::toplevel_info::commit_changes_handle(t.records(), c) {
                    resume@.to_set() == final(self).resumable() && resume@.no_duplicates()
                } else {
                    resume@.len() == 0
                }),
    {
        let notify = match &mut self.toplevel_tracker {
            Some(t) => t.handle_foreign_event(foreign, event),
            None => false,
        };
        if notify {
            self.request_frame_callbacks_if_needed()
        } else {
            Vec::new()
        }
    }

    /// Handles an event of the workspace manager; returns the outputs to
    /// request a frame callback for if its `Done` changed a group or workspace.
    pub fn on_workspace_manager_event(&mut self, event: WorkspaceManagerEvent) -> (resume: Vec<u32>)
        requires
            old(self).wf(),
        ensures
            final(self).wf(),
            final(self).power == old(self).power,
            final(self).power_saving_config == old(self).power_saving_config,
            final(self).toplevel_tracker == old(self).toplevel_tracker,
            final(self).layers == old(self).layers,
            final(self).workspace_tracker is Some == old(self).workspace_tracker is Some,
            old(self).workspace_tracker is None || !(event is Done) ==> resume@.len() == 0,
            forall|w: WorkspaceTracker| old(self).workspace_tracker == Some(w) ==> manager_event_effect(
                w.group_records(), w.workspace_records(),
                final(self).workspace_tracker.unwrap().group_records(), final(self).workspace_tracker.unwrap().workspace_records(),
                event),
            forall|w: WorkspaceTracker| old(self).workspace_tracker == Some(w) && event is Done ==> (
                if commit_all_changes(w.group_records(), w.workspace_records()) {
                    resume@.to_set() == final(self).resumable() && resume@.no_duplicates()
                } else {
                    resume@.len() == 0
                }),
    {
        let notify = match &mut self.workspace_tracker {
            Some(w) => w.handle_manager_event(event),
            None => false,
        };
        if notify {
            self.request_frame_callbacks_if_needed()
        } else {
            Vec::new()
        }
    }

    /// Handles an event of a workspace group handle (none without workspace
    /// tracking).
    pub fn on_workspace_group_event(&mut self, group: u32, event: WorkspaceGroupEvent)
        requires
            old(self).wf(),
        ensures
            final(self).wf(),
            forall|w: WorkspaceTracker| old(self).workspace_tracker == Some(w) ==> group_event_effect(
                w.group_records(), w.workspace_records(),
                final(self).workspace_tracker.unwrap().group_records(), final(self).workspace_tracker.unwrap().workspace_records(),
                group, event),
            final(self).power == old(self).power,
            final(self).power_saving_config == old(self).power_saving_config,
            final(self).toplevel_tracker == old(self).toplevel_tracker,
            final(self).layers == old(self).layers,
            final(self).workspace_tracker is Some == old(self).workspace_tracker is Some,
    {
        if let Some(w) = &mut self.workspace_tracker {
            w.handle_group_event(group, event);
        }
    }

    /// Handles an event of a workspace handle (none without workspace tracking).
    pub fn on_workspace_event(&mut self, workspace: u32, event: WorkspaceEvent)
        requires
            old(self).wf(),
        ensures
            final(self).wf(),
            forall|w: WorkspaceTracker| old(self).workspace_tracker == Some(w) ==> workspace_event_effect(
                w.group_records(), w.workspace_records(),
                final(self).workspace_tracker.unwrap().group_records(), final(self).workspace_tracker.unwrap().workspace_records(),
                workspace, event),
            final(self).power == old(self).power,
            final(self).power_saving_config == old(self).power_saving_config,
            final(self).toplevel_tracker == old(self).toplevel_tracker,
            final(self).layers == old(self).layers,
            final(self).workspace_tracker is Some == old(self).workspace_tracker is Some,
    {
        if let Some(w) = &mut self.workspace_tracker {
            w.handle_workspace_event(workspace, event);
        }
    }

    /// The physical pixel size of a shader surface, or `None` if a side does not
    /// fit in 32 bits.
    pub fn checked_physical_size(
        layer_size: Option<(u32, u32)>,
        fractional_scale: Option<u32>,
        output_mode_dims: Option<(u32, u32)>,
    ) -> (r: Option<(u32, u32)>)
        ensures
            r is Some <==> physical_size_fits(layer_size, fractional_scale, output_mode_dims),
            r matches Some(v) ==> (v.0 as int, v.1 as int) == physical_size_spec(layer_size, fractional_scale, output_mode_dims),
    {
        let scale: u64 = match fractional_scale {
            Some(s) => s as u64,
            None => 120,
        };
        let (w, h): (u64, u64) = match (layer_size, output_mode_dims) {
            (Some((w, h)), _) => (w as u64, h as u64),
            (None, Some((w, h))) => return Some((w, h)),
            (None, None) => (1920, 1080),
        };
        assert(w * scale <= u64::MAX && h * scale <= u64::MAX) by (nonlinear_arith)
            requires w <= u32::MAX, h <= u32::MAX, scale <= u32::MAX;
        let pw = (w * scale) / 120;
        let ph = (h * scale) / 120;
        if pw > u32::MAX as u64 || ph > u32::MAX as u64 {
            None
        } else {
            Some((pw as u32, ph as u32))
        }
    }

    /// The physical pixel size of a shader surface.
    pub fn shader_physical_size(
        layer_size: Option<(u32, u32)>,
        fractional_scale: Option<u32>,
        output_mode_dims: Option<(u32, u32)>,
    ) -> (r: (u32, u32))
        requires
            physical_size_fits(layer_size, fractional_scale, output_mode_dims),
        ensures
            (r.0 as int, r.1 as int) == physical_size_spec(layer_size, fractional_scale, output_mode_dims),
    {
        let scale: u64 = match fractional_scale {
            Some(s) => s as u64,
            None => 120,
        };
        let (w, h): (u64, u64) = match (layer_size, output_mode_dims) {
            (Some((w, h)), _) => (w as u64, h as u64),
            (None, Some((w, h))) => return (w, h),
            (None, None) => (1920, 1080),
        };
        assert(w * scale <= u64::MAX && h * scale <= u64::MAX) by (nonlinear_arith)
            requires w <= u32::MAX, h <= u32::MAX, scale <= u32::MAX;
        (((w * scale) / 120) as u32, ((h * scale) / 120) as u32)
    }
}

} // verus!
