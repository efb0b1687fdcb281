use scroll_tiler::hook::key::{
    modifier_of, Event, Input, Key, Keyboard, Modifiers, Reaction, ALT, CTRL, SHIFT, WIN,
};

fn quiet() -> Reaction {
    Reaction { event: None, forward: true }
}

#[test]
fn modifier_bits_are_distinct() {
    assert_eq!((SHIFT, CTRL, ALT, WIN), (1, 2, 4, 8));
    assert_eq!(Modifiers::shift().bits(), 1);
    assert_eq!(Modifiers::ctrl().bits(), 2);
    assert_eq!(Modifiers::alt().bits(), 4);
    assert_eq!(Modifiers::win().bits(), 8);
    assert!(Modifiers::empty().is_empty());
}

#[test]
fn modifiers_insert_remove_contains() {
    let mut held = Modifiers::empty();
    held.insert(Modifiers::win());
    held.insert(Modifiers::ctrl());
    assert_eq!(held, Modifiers { bits: 10 });
    assert!(held.contains(Modifiers::win()));
    assert!(held.contains(Modifiers::ctrl().union(Modifiers::win())));
    assert!(!held.contains(Modifiers::shift()));
    assert!(!held.contains(Modifiers::shift().union(Modifiers::win())));
    held.remove(Modifiers::win());
    assert_eq!(held, Modifiers::ctrl());
    held.remove(Modifiers::alt());
    assert_eq!(held, Modifiers::ctrl());
    assert!(held.contains(Modifiers::empty()));
}

#[test]
fn both_keys_of_a_pair_are_the_same_modifier() {
    assert_eq!(modifier_of(Key::ShiftLeft), SHIFT);
    assert_eq!(modifier_of(Key::ShiftRight), SHIFT);
    assert_eq!(modifier_of(Key::ControlLeft), CTRL);
    assert_eq!(modifier_of(Key::ControlRight), CTRL);
    assert_eq!(modifier_of(Key::Alt), ALT);
    assert_eq!(modifier_of(Key::AltGr), ALT);
    assert_eq!(modifier_of(Key::MetaLeft), WIN);
    assert_eq!(modifier_of(Key::MetaRight), WIN);
}

#[test]
fn unknown_key_92_is_the_windows_key() {
    assert_eq!(modifier_of(Key::Unknown(92)), WIN);
    assert_eq!(modifier_of(Key::Unknown(91)), 0);
    assert_eq!(modifier_of(Key::Unknown(0)), 0);
    let mut keyboard = Keyboard::new();
    assert_eq!(keyboard.handle(Input::Press(Key::Unknown(92))), quiet());
    assert_eq!(keyboard.modifiers(), Modifiers::win());
    assert_eq!(keyboard.handle(Input::Release(Key::Unknown(92))), quiet());
    assert_eq!(keyboard.modifiers(), Modifiers::empty());
}

#[test]
fn other_keys_are_no_modifiers() {
    for key in [Key::LeftArrow, Key::RightArrow, Key::KeyA, Key::Space, Key::Tab, Key::CapsLock] {
        assert_eq!(modifier_of(key), 0);
    }
}

#[test]
fn win_ctrl_left_is_reported_and_swallowed() {
    let mut keyboard = Keyboard::new();
    assert_eq!(keyboard.handle(Input::Press(Key::MetaLeft)), quiet());
    assert_eq!(keyboard.handle(Input::Press(Key::ControlLeft)), quiet());
    let reaction = keyboard.handle(Input::Press(Key::LeftArrow));
    assert_eq!(
        reaction,
        Reaction { event: Some(Event(Modifiers { bits: WIN | CTRL }, Key::LeftArrow)), forward: false }
    );
    assert_eq!(keyboard.modifiers(), Modifiers { bits: 10 });
}

#[test]
fn modifiers_follow_presses_and_releases() {
    let mut keyboard = Keyboard::new();
    assert_eq!(keyboard.modifiers(), Modifiers::empty());
    keyboard.handle(Input::Press(Key::ShiftRight));
    keyboard.handle(Input::Press(Key::Alt));
    assert_eq!(keyboard.modifiers(), Modifiers { bits: SHIFT | ALT });
    keyboard.handle(Input::Press(Key::KeyA));
    keyboard.handle(Input::Release(Key::KeyA));
    keyboard.handle(Input::Other);
    assert_eq!(keyboard.modifiers(), Modifiers { bits: SHIFT | ALT });
    keyboard.handle(Input::Release(Key::ShiftRight));
    assert_eq!(keyboard.modifiers(), Modifiers::alt());
    keyboard.handle(Input::Release(Key::Alt));
    assert_eq!(keyboard.modifiers(), Modifiers::empty());
}

#[test]
fn modifier_press_sends_no_event() {
    for key in [
        Key::ShiftLeft,
        Key::ShiftRight,
        Key::ControlLeft,
        Key::ControlRight,
        Key::Alt,
        Key::AltGr,
        Key::MetaLeft,
        Key::MetaRight,
        Key::Unknown(92),
    ] {
        let mut keyboard = Keyboard::new();
        assert_eq!(keyboard.handle(Input::Press(key)), quiet());
        assert_eq!(keyboard.handle(Input::Release(key)), quiet());
    }
}

#[test]
fn key_without_win_is_reported_and_forwarded() {
    let mut keyboard = Keyboard::new();
    keyboard.handle(Input::Press(Key::ControlLeft));
    assert_eq!(
        keyboard.handle(Input::Press(Key::KeyC)),
        Reaction { event: Some(Event(Modifiers::ctrl(), Key::KeyC)), forward: true }
    );
}

#[test]
fn key_with_win_is_not_forwarded() {
    let mut keyboard = Keyboard::new();
    keyboard.handle(Input::Press(Key::MetaLeft));
    let reaction = keyboard.handle(Input::Press(Key::KeyE));
    assert_eq!(reaction.event, Some(Event(Modifiers::win(), Key::KeyE)));
    assert!(!reaction.forward);
    keyboard.handle(Input::Release(Key::MetaLeft));
    assert!(keyboard.handle(Input::Press(Key::KeyE)).forward);
}

#[test]
fn releases_and_other_inputs_send_nothing() {
    let mut keyboard = Keyboard::new();
    keyboard.handle(Input::Press(Key::MetaLeft));
    assert_eq!(keyboard.handle(Input::Release(Key::LeftArrow)), quiet());
    assert_eq!(keyboard.handle(Input::Other), quiet());
    assert_eq!(keyboard.modifiers(), Modifiers::win());
}

#[test]
fn releasing_one_key_of_a_pair_clears_the_modifier() {
    let mut keyboard = Keyboard::new();
    keyboard.handle(Input::Press(Key::ShiftLeft));
    keyboard.handle(Input::Press(Key::ShiftRight));
    keyboard.handle(Input::Release(Key::ShiftLeft));
    assert_eq!(keyboard.modifiers(), Modifiers::empty());
}
