//! The set of managed windows seen at one moment.

use vstd::prelude::*;
use crate::window::Window;

verus! {

/// The managed windows observed at one point in time.
///
/// As a set it says which windows exist. It also remembers the order in which
/// the windows were reported, so that everything derived from a snapshot is
/// reproducible.
pub struct WindowSnapshot {
    windows: Vec<Window>,
}

impl View for WindowSnapshot {
    type V = Seq<Window>;

    /// The windows in the order in which they were inserted.
    closed spec fn view(&self) -> Seq<Window> {
        self.windows@
    }
}

impl WindowSnapshot {
    /// No window occurs twice.
    pub open spec fn wf(&self) -> bool {
        self@.no_duplicates()
    }

    /// The windows of the snapshot as a set.
    pub open spec fn members(&self) -> Set<Window> {
        self@.to_set()
    }

    /// The snapshot without any window.
    pub fn new() -> (snapshot: WindowSnapshot)
        ensures
            snapshot.wf(),
            snapshot@ == Seq::<Window>::empty(),
    {
        WindowSnapshot { windows: Vec::new() }
    }

    /// The number of windows.
    pub fn len(&self) -> (count: usize)
        ensures
            count == self@.len(),
    {
        self.windows.len()
    }

    /// Whether the snapshot holds no window at all.
    pub fn is_empty(&self) -> (empty: bool)
        ensures
            empty == (self@.len() == 0),
    {
        self.windows.len() == 0
    }

    /// The window that was inserted as number `index`, counting from zero.
    pub fn get(&self, index: usize) -> (window: Window)
        requires
            index < self@.len(),
        ensures
            window == self@[index as int],
    {
        self.windows[index]
    }

    /// Whether `window` belongs to the snapshot.
    pub fn contains(&self, window: Window) -> (found: bool)
        ensures
            found == self@.contains(window),
    {
        let mut index: usize = 0;
        while index < self.windows.len()
            invariant
                index <= self.windows.len(),
                forall|k: int| 0 <= k < index ==> self.windows@[k] != window,
            decreases self.windows.len() - index,
        {
            if self.windows[index].hwnd == window.hwnd {
                return true;
            }
            index += 1;
        }
        false
    }

    /// Adds `window` unless it is already there, and says whether it was added.
    /// A new window comes after all earlier ones.
    pub fn insert(&mut self, window: Window) -> (added: bool)
        requires
            old(self).wf(),
        ensures
            final(self).wf(),
            added == !old(self)@.contains(window),
            added ==> final(self)@ == old(self)@.push(window),
            !added ==> final(self)@ == old(self)@,
    {
        if self.contains(window) {
            false
        } else {
            self.windows.push(window);
            true
        }
    }
}

} // verus!
