use scroll_tiler::filter::{Candidate, WindowFacts};
use scroll_tiler::hook::key::{Event as KeyEvent, Input, Key, Keyboard, Modifiers};
use scroll_tiler::hook::Event;
use scroll_tiler::orchestrator::{command_for, dispatch, refresh, Command, Step};
use scroll_tiler::tiler::{ScrollTiler, WindowMove};
use scroll_tiler::window::{Rectangle, Window};

const A: Window = Window { hwnd: 1 };
const B: Window = Window { hwnd: 2 };
const C: Window = Window { hwnd: 3 };

fn managed(window: Window) -> Candidate {
    Candidate {
        hwnd: window.hwnd,
        facts: WindowFacts {
            visible: Some(true),
            cloaked: Some(false),
            ancestor: Some(window),
            title: Some(Some("Title".to_string())),
            class: Some("Class".to_string()),
            process_name: Some("app.exe".to_string()),
        },
    }
}

fn tiler_with(windows: &[Window]) -> ScrollTiler {
    let mut tiler = ScrollTiler::with_padding(10, 1920, 1080);
    let candidates: Vec<Candidate> = windows.iter().map(|window| managed(*window)).collect();
    refresh(&mut tiler, &candidates, None).unwrap();
    tiler
}

fn strip_of(tiler: &ScrollTiler) -> Vec<Window> {
    tiler.windows().iter().map(|item| item.inner).collect()
}

fn win() -> Modifiers {
    Modifiers::win()
}

fn win_ctrl() -> Modifiers {
    Modifiers::win().union(Modifiers::ctrl())
}

#[test]
fn shortcut_table() {
    assert_eq!(command_for(win_ctrl(), Key::LeftArrow), Some(Command::SwapLeft));
    assert_eq!(command_for(win_ctrl(), Key::RightArrow), Some(Command::SwapRight));
    assert_eq!(command_for(win(), Key::LeftArrow), Some(Command::FocusLeft));
    assert_eq!(command_for(win(), Key::RightArrow), Some(Command::FocusRight));
}

#[test]
fn anything_else_is_no_shortcut() {
    assert_eq!(command_for(Modifiers::empty(), Key::LeftArrow), None);
    assert_eq!(command_for(Modifiers::ctrl(), Key::LeftArrow), None);
    assert_eq!(command_for(Modifiers::ctrl().union(Modifiers::alt()), Key::RightArrow), None);
    assert_eq!(command_for(win(), Key::UpArrow), None);
    assert_eq!(command_for(win_ctrl(), Key::KeyA), None);
}

#[test]
fn further_modifiers_do_not_matter() {
    let all = win_ctrl().union(Modifiers::shift()).union(Modifiers::alt());
    assert_eq!(command_for(all, Key::LeftArrow), Some(Command::SwapLeft));
    assert_eq!(
        command_for(win().union(Modifiers::shift()), Key::RightArrow),
        Some(Command::FocusRight)
    );
}

#[test]
fn window_change_asks_for_a_refresh() {
    let mut tiler = tiler_with(&[A, B]);
    assert_eq!(dispatch(&mut tiler, Event::Window, Some(A)), Step::Refresh);
    assert_eq!(strip_of(&tiler), vec![A, B]);
}

#[test]
fn swap_shortcut_swaps_and_asks_for_a_refresh() {
    let mut tiler = tiler_with(&[A, B, C]);
    let left = Event::Key(KeyEvent(win_ctrl(), Key::LeftArrow));
    assert_eq!(dispatch(&mut tiler, left, Some(B)), Step::Refresh);
    assert_eq!(strip_of(&tiler), vec![B, A, C]);
    let right = Event::Key(KeyEvent(win_ctrl(), Key::RightArrow));
    assert_eq!(dispatch(&mut tiler, right, Some(A)), Step::Refresh);
    assert_eq!(strip_of(&tiler), vec![B, C, A]);
    assert_eq!(dispatch(&mut tiler, right, Some(A)), Step::Refresh);
    assert_eq!(strip_of(&tiler), vec![B, C, A]);
}

#[test]
fn focus_shortcut_names_the_neighbour_and_asks_for_no_refresh() {
    let mut tiler = tiler_with(&[A, B, C]);
    let left = Event::Key(KeyEvent(win(), Key::LeftArrow));
    let right = Event::Key(KeyEvent(win(), Key::RightArrow));
    assert_eq!(dispatch(&mut tiler, left, Some(B)), Step::Focus(A));
    assert_eq!(dispatch(&mut tiler, right, Some(B)), Step::Focus(C));
    assert_eq!(dispatch(&mut tiler, left, Some(A)), Step::Idle);
    assert_eq!(dispatch(&mut tiler, right, None), Step::Idle);
    assert_eq!(strip_of(&tiler), vec![A, B, C]);
}

#[test]
fn other_keys_are_ignored() {
    let mut tiler = tiler_with(&[A, B]);
    let key = Event::Key(KeyEvent(Modifiers::ctrl(), Key::LeftArrow));
    assert_eq!(dispatch(&mut tiler, key, Some(B)), Step::Idle);
    assert_eq!(strip_of(&tiler), vec![A, B]);
}

#[test]
fn grabbed_win_ctrl_left_swaps_the_focused_window() {
    let mut keyboard = Keyboard::new();
    keyboard.handle(Input::Press(Key::MetaLeft));
    keyboard.handle(Input::Press(Key::ControlLeft));
    let reaction = keyboard.handle(Input::Press(Key::LeftArrow));
    assert!(!reaction.forward);
    let pressed = reaction.event.unwrap();
    assert_eq!(pressed, KeyEvent(win_ctrl(), Key::LeftArrow));

    let mut tiler = tiler_with(&[A, B, C]);
    assert_eq!(dispatch(&mut tiler, Event::Key(pressed), Some(C)), Step::Refresh);
    assert_eq!(strip_of(&tiler), vec![A, C, B]);
}

#[test]
fn refresh_filters_and_lays_out() {
    let mut tiler = ScrollTiler::with_padding(10, 1920, 1080);
    let mut hidden = managed(B);
    hidden.facts.visible = Some(false);
    let moves = refresh(&mut tiler, &vec![managed(A), hidden, managed(C)], Some(C)).unwrap();
    assert_eq!(strip_of(&tiler), vec![A, C]);
    assert_eq!(tiler.scroll_offset(), 680);
    assert_eq!(
        moves,
        vec![
            WindowMove { window: A, frame: Rectangle { x: -670, y: 10, width: 1280, height: 1060 } },
            WindowMove { window: C, frame: Rectangle { x: 630, y: 10, width: 1280, height: 1060 } },
        ]
    );
}

#[test]
fn swap_then_refresh_lays_out_the_new_order() {
    let mut tiler = tiler_with(&[A, B]);
    let left = Event::Key(KeyEvent(win_ctrl(), Key::LeftArrow));
    assert_eq!(dispatch(&mut tiler, left, Some(B)), Step::Refresh);
    let moves = refresh(&mut tiler, &vec![managed(A), managed(B)], Some(B)).unwrap();
    assert_eq!(strip_of(&tiler), vec![B, A]);
    assert_eq!(tiler.scroll_offset(), 0);
    assert!(moves.is_empty());
}
