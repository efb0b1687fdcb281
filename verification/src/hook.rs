//! The events that drive the tiler: key presses and window changes, merged
//! into one stream.

use vstd::prelude::*;

pub mod key;
pub mod window;

verus! {

/// One event of the merged stream.
#[derive(Debug, Clone, Copy, PartialEq, Eq, Structural)]
pub enum Event {
    /// A key that is no modifier was pressed.
    Key(key::Event),
    /// The set of windows or the focus may have changed.
    Window,
}

} // verus!
