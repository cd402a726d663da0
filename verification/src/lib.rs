//! Desktop input control: mouse and keyboard events, gestures and recordings, verified
//! movement of the cursor, and a policy that acts on screenshots.

pub mod action;
pub mod agent;
pub mod batch;
pub mod bytes;
pub mod control;
pub mod controller;
pub mod cursor;
pub mod endpoint;
pub mod event;
pub mod extraction;
pub mod focus;
pub mod frame;
pub mod frame_run;
pub mod frame_source;
pub mod json;
pub mod key_names;
pub mod keyboard;
pub mod linux;
pub mod listen;
pub mod mouse_playback;
pub mod number;
pub mod path;
pub mod playback;
pub mod policy;
pub mod record;
pub mod sort;
pub mod text;
pub mod trajectory;
pub mod video;
pub mod x11;

pub use crate::action::Action;
pub use crate::agent::{AgentDecision, Policy, Transition};
pub use crate::controller::{Controller, MouseBackend};
pub use crate::cursor::{move_cursor_to, CursorBackend, CursorMotion};
pub use crate::event::{Button, ButtonState, MouseEvent, Timestamp};
pub use crate::extraction::{extract_video_frames, extract_video_frames_sampled};
pub use crate::frame::Frame;
pub use crate::frame_source::{FrameSequence, FrameSource};
pub use crate::keyboard::{
    Key, KeyState, KeyboardBackend, KeyboardController, KeyboardEvent, KeyboardPlaybackFilter,
};
pub use crate::linux::{LinuxKeyboard, LinuxMouse};
pub use crate::listen::{KeyboardListener, Listener, X11ButtonListener};
pub use crate::mouse_playback::PlaybackFilter;
pub use crate::trajectory::{
    CursorEstimate, MouseTrajectory, Point, Segment, TrajectoryError, Turn,
};
pub use crate::x11::CursorLocation;
