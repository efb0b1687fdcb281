//! Core of a scrolling tiling window manager.
//!
//! Managed windows sit side by side on one horizontal strip. The strip scrolls
//! so that the focused window is fully on screen. Everything here works on
//! plain values: the caller queries the operating system, hands the answers
//! in, and carries out the window moves and focus changes that come back.

pub mod filter;
pub mod hook;
pub mod orchestrator;
pub mod snapshot;
pub mod strip;
pub mod tiler;
pub mod window;
