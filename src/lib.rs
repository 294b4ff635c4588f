//! A real-time chat relay core: a bounded per-room message history and a
//! fan-out broadcaster with independent read cursors and lag recovery.
pub mod message;
pub mod history;
pub mod broadcast;
pub mod session;
pub mod relay;
pub mod cors;
