//! Power- and visibility-aware animation control for a shader wallpaper daemon.
//!
//! The library holds the decisions of the daemon: which protocol windows are
//! fullscreen on which displays, which workspaces are active, whether a display's
//! animation is paused and why, how frames are paced, and how rendered pixels are
//! laid out for shared memory. The compositor connection, the GPU and the power
//! monitor are driven from outside and hand their observations in as plain values.

pub mod engine;
pub mod ids;
pub mod pacing;
pub mod preview;
pub mod shader_analysis;
pub mod shm;
pub mod toplevel_info;
pub mod workspace_info;
