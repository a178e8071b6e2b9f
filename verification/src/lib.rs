//! Falling-text animation engine: the message queue, the streaks that fall
//! down one lane each, the lanes, and the engine's command protocol.

pub mod column;
pub mod engine;
pub mod message;
pub mod roll;
pub mod streak;

pub use crate::column::{Column, ScreenOp};
pub use crate::engine::{
    key_action, outgoing, ForkedScene, Key, KeyAction, Phase, Received, ThreadMsg, Turn,
};
pub use crate::message::{ColorChar, ColorString, Message, MessageQueue};
pub use crate::roll::{RollSource, ScriptedRolls, ThreadRolls};
pub use crate::streak::{Draw, Streak};
