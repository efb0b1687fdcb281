//! What each event asks of the tiler, and what is left for the caller to do.

use vstd::prelude::*;
use crate::filter::{opened, opened_windows, Candidate};
use crate::hook::key::{Key, Modifiers, CTRL, WIN};
use crate::hook::Event;
use crate::tiler::{ScrollTiler, TilerError, WindowMove};
use crate::window::Window;

verus! {

/// What a shortcut asks for.
#[derive(Debug, Clone, Copy, PartialEq, Eq, Structural)]
pub enum Command {
    /// Exchange the focused window with its left neighbour.
    SwapLeft,
    /// Exchange the focused window with its right neighbour.
    SwapRight,
    /// Move the focus to the left neighbour.
    FocusLeft,
    /// Move the focus to the right neighbour.
    FocusRight,
}

/// The command of a key pressed while `modifiers` are held. The arrow keys
/// swap while windows and control are held, and move the focus while windows
/// is held without control. Further modifiers do not matter. Nothing else is
/// a command.
pub open spec fn command_of(modifiers: Modifiers, key: Key) -> Option<Command> {
    if key == Key::LeftArrow && modifiers.has(Modifiers { bits: CTRL | WIN }) {
        Some(Command::SwapLeft)
    } else if key == Key::RightArrow && modifiers.has(Modifiers { bits: CTRL | WIN }) {
        Some(Command::SwapRight)
    } else if key == Key::LeftArrow && modifiers.has(Modifiers { bits: WIN }) {
        Some(Command::FocusLeft)
    } else if key == Key::RightArrow && modifiers.has(Modifiers { bits: WIN }) {
        Some(Command::FocusRight)
    } else {
        None
    }
}

/// See `command_of`.
pub fn command_for(modifiers: Modifiers, key: Key) -> (command: Option<Command>)
    ensures
        command == command_of(modifiers, key),
{
    let swaps = modifiers.contains(Modifiers::ctrl().union(Modifiers::win()));
    let focuses = modifiers.contains(Modifiers::win());
    match key {
        Key::LeftArrow => if swaps {
            Some(Command::SwapLeft)
        } else if focuses {
            Some(Command::FocusLeft)
        } else {
            None
        },
        Key::RightArrow => if swaps {
            Some(Command::SwapRight)
        } else if focuses {
            Some(Command::FocusRight)
        } else {
            None
        },
        _ => None,
    }
}

/// What is left to do once the tiler has seen an event.
#[derive(Debug, Clone, Copy, PartialEq, Eq, Structural)]
pub enum Step {
    /// Take a fresh snapshot of the managed windows and hand it to the tiler.
    Refresh,
    /// Give the focus to this window.
    Focus(Window),
    /// Nothing.
    Idle,
}

/// Lets the tiler see `event` while `focused` has the focus, and says what is
/// left to do.
///
/// A window change asks for a refresh. A swap exchanges the focused window
/// with its neighbour and asks for a refresh, so that the new order is laid
/// out. A focus command names the neighbour to focus and asks for no refresh:
/// the change of focus will come back as a window change. Any other key is
/// ignored.
pub fn dispatch(tiler: &mut ScrollTiler, event: Event, focused: Option<Window>) -> (step: Step)
    requires
        old(tiler).wf(),
    ensures
        final(tiler).wf(),
        match event {
            Event::Window => step == Step::Refresh && final(tiler)@ == old(tiler)@,
            Event::Key(pressed) => match command_of(pressed.0, pressed.1) {
                Some(Command::SwapLeft) => step == Step::Refresh && final(tiler)@ == old(
                    tiler,
                )@.swapped_left(focused),
                Some(Command::SwapRight) => step == Step::Refresh && final(tiler)@ == old(
                    tiler,
                )@.swapped_right(focused),
                Some(Command::FocusLeft) => final(tiler)@ == old(tiler)@ && step == match old(
                    tiler,
                )@.left_neighbour(focused) {
                    Some(window) => Step::Focus(window),
                    None => Step::Idle,
                },
                Some(Command::FocusRight) => final(tiler)@ == old(tiler)@ && step == match old(
                    tiler,
                )@.right_neighbour(focused) {
                    Some(window) => Step::Focus(window),
                    None => Step::Idle,
                },
                None => step == Step::Idle && final(tiler)@ == old(tiler)@,
            },
        },
{
    match event {
        Event::Window => Step::Refresh,
        Event::Key(pressed) => match command_for(pressed.0, pressed.1) {
            Some(Command::SwapLeft) => {
                tiler.swap_current_left(focused);
                Step::Refresh
            },
            Some(Command::SwapRight) => {
                tiler.swap_current_right(focused);
                Step::Refresh
            },
            Some(Command::FocusLeft) => match tiler.focus_left(focused) {
                Some(window) => Step::Focus(window),
                None => Step::Idle,
            },
            Some(Command::FocusRight) => match tiler.focus_right(focused) {
                Some(window) => Step::Focus(window),
                None => Step::Idle,
            },
            None => Step::Idle,
        },
    }
}

/// Brings the tiler up to date with the top-level windows that the platform
/// enumerates now, while `focused` has the focus: the managed ones among
/// `candidates` are the snapshot that the tiler handles. The result is that
/// of `ScrollTiler::handle_window_snapshot`: the moves to carry out.
pub fn refresh(tiler: &mut ScrollTiler, candidates: &Vec<Candidate>, focused: Option<Window>) -> (result:
    Result<Vec<WindowMove>, TilerError>)
    requires
        old(tiler).wf(),
    ensures
        final(tiler).wf(),
        old(tiler)@.accepts(opened(candidates@), focused) ==> result is Ok && final(tiler)@ == old(
            tiler,
        )@.after_snapshot(opened(candidates@), focused),
        !old(tiler)@.accepts(opened(candidates@), focused) ==> result == Err::<
            Vec<WindowMove>,
            TilerError,
        >(TilerError::CoordinateOverflow) && final(tiler)@ == old(tiler)@,
        match result {
            Ok(requests) => if old(tiler)@.relayouts(opened(candidates@), focused) {
                final(tiler)@.lays_out(requests@)
            } else {
                requests@.len() == 0
            },
            Err(_) => true,
        },
{
    let snapshot = opened_windows(candidates);
    tiler.handle_window_snapshot(&snapshot, focused)
}

} // verus!
