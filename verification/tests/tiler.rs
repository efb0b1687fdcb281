use scroll_tiler::snapshot::WindowSnapshot;
use scroll_tiler::strip::WindowItem;
use scroll_tiler::tiler::{ScrollTiler, TilerError, WindowMove};
use scroll_tiler::window::{Rectangle, Window};

const A: Window = Window { hwnd: 0x10 };
const B: Window = Window { hwnd: 0x20 };
const C: Window = Window { hwnd: 0x30 };
const D: Window = Window { hwnd: 0x40 };

fn snapshot_of(windows: &[Window]) -> WindowSnapshot {
    let mut snapshot = WindowSnapshot::new();
    for window in windows {
        snapshot.insert(*window);
    }
    snapshot
}

fn strip_of(tiler: &ScrollTiler) -> Vec<Window> {
    tiler.windows().iter().map(|item| item.inner).collect()
}

fn tiler_with(windows: &[Window]) -> ScrollTiler {
    let mut tiler = ScrollTiler::with_padding(10, 1920, 1080);
    tiler.handle_window_snapshot(&snapshot_of(windows), None).unwrap();
    tiler
}

fn request(window: Window, x: i32) -> WindowMove {
    WindowMove { window, frame: Rectangle { x, y: 10, width: 1280, height: 1060 } }
}

#[test]
fn new_tiler_is_empty_and_unscrolled() {
    let tiler = ScrollTiler::with_padding(10, 1920, 1080);
    assert!(tiler.windows().is_empty());
    assert_eq!(tiler.padding(), 10);
    assert_eq!(tiler.scroll_offset(), 0);
    assert_eq!(tiler.windows_positions(), Vec::<i32>::new());
}

#[test]
fn window_item_keeps_window_and_width() {
    let item = WindowItem::new(A, 640);
    assert_eq!(item, WindowItem { inner: A, width: 640 });
}

#[test]
fn empty_start_takes_two_windows_in_snapshot_order() {
    let mut tiler = ScrollTiler::with_padding(10, 1920, 1080);
    let moves = tiler.handle_window_snapshot(&snapshot_of(&[A, B]), None).unwrap();
    assert_eq!(strip_of(&tiler), vec![A, B]);
    assert_eq!(tiler.windows_positions(), vec![10, 1310]);
    assert_eq!(moves, vec![request(A, 10), request(B, 1310)]);
    assert_eq!(tiler.scroll_offset(), 0);
}

#[test]
fn new_windows_get_two_thirds_of_the_screen_width() {
    let tiler = tiler_with(&[A]);
    assert_eq!(tiler.windows()[0].width, 1280);

    let mut narrow = ScrollTiler::with_padding(0, 1366, 768);
    narrow.handle_window_snapshot(&snapshot_of(&[A]), None).unwrap();
    assert_eq!(narrow.windows()[0].width, 911);

    let mut tiny = ScrollTiler::with_padding(0, 1, 1);
    tiny.handle_window_snapshot(&snapshot_of(&[A]), None).unwrap();
    assert_eq!(tiny.windows()[0].width, 1);

    let mut even = ScrollTiler::with_padding(0, 3, 1);
    even.handle_window_snapshot(&snapshot_of(&[A]), None).unwrap();
    assert_eq!(even.windows()[0].width, 2);
}

#[test]
fn closed_window_leaves_and_the_rest_packs() {
    let mut tiler = tiler_with(&[A, B, C]);
    assert_eq!(tiler.windows_positions(), vec![10, 1310, 2610]);
    let moves = tiler.handle_window_snapshot(&snapshot_of(&[A, C]), None).unwrap();
    assert_eq!(strip_of(&tiler), vec![A, C]);
    assert_eq!(tiler.windows_positions(), vec![10, 1310]);
    assert_eq!(moves, vec![request(A, 10), request(C, 1310)]);
}

#[test]
fn empty_snapshot_clears_the_strip_and_moves_nothing() {
    let mut tiler = tiler_with(&[A, B]);
    tiler.handle_window_snapshot(&snapshot_of(&[A, B]), Some(B)).unwrap();
    assert_eq!(tiler.scroll_offset(), 680);
    let moves = tiler.handle_window_snapshot(&WindowSnapshot::new(), Some(B)).unwrap();
    assert!(moves.is_empty());
    assert!(tiler.windows().is_empty());
    assert_eq!(tiler.scroll_offset(), 680);
}

#[test]
fn strip_holds_exactly_the_snapshot() {
    let mut tiler = tiler_with(&[A, B, C]);
    tiler.handle_window_snapshot(&snapshot_of(&[D, B]), None).unwrap();
    let mut held = strip_of(&tiler);
    held.sort_by_key(|window| window.hwnd);
    assert_eq!(held, vec![B, D]);
}

#[test]
fn survivors_keep_their_order_and_newcomers_join_at_the_end() {
    let mut tiler = tiler_with(&[A, B, C]);
    tiler.handle_window_snapshot(&snapshot_of(&[D, C, A]), None).unwrap();
    assert_eq!(strip_of(&tiler), vec![A, C, D]);
    tiler.handle_window_snapshot(&snapshot_of(&[B, D, C, A]), None).unwrap();
    assert_eq!(strip_of(&tiler), vec![A, C, D, B]);
}

#[test]
fn same_size_snapshot_with_other_members_is_reconciled() {
    let mut tiler = tiler_with(&[A, B]);
    let moves = tiler.handle_window_snapshot(&snapshot_of(&[A, C]), None).unwrap();
    assert_eq!(strip_of(&tiler), vec![A, C]);
    assert_eq!(moves, vec![request(A, 10), request(C, 1310)]);
}

#[test]
fn unchanged_snapshot_without_scroll_moves_nothing() {
    let mut tiler = tiler_with(&[A, B]);
    let moves = tiler.handle_window_snapshot(&snapshot_of(&[B, A]), Some(A)).unwrap();
    assert!(moves.is_empty());
    assert_eq!(strip_of(&tiler), vec![A, B]);
    assert_eq!(tiler.scroll_offset(), 0);
}

#[test]
fn unchanged_snapshot_with_scroll_lays_out_again() {
    let mut tiler = tiler_with(&[A, B]);
    let moves = tiler.handle_window_snapshot(&snapshot_of(&[A, B]), Some(B)).unwrap();
    assert_eq!(tiler.scroll_offset(), 680);
    assert_eq!(moves, vec![request(A, -670), request(B, 630)]);
}

#[test]
fn positions_increase_by_width_and_two_paddings() {
    let tiler = tiler_with(&[A, B, C, D]);
    let positions = tiler.windows_positions();
    assert_eq!(positions, vec![10, 1310, 2610, 3910]);
    for k in 0..positions.len() - 1 {
        assert!(positions[k] < positions[k + 1]);
        assert_eq!(positions[k + 1] - positions[k], tiler.windows()[k].width + 2 * 10);
    }
}

#[test]
fn swap_right_of_the_last_window_changes_nothing() {
    let mut tiler = tiler_with(&[A, B, C]);
    let before = tiler.windows_positions();
    tiler.swap_current_right(Some(C));
    assert_eq!(strip_of(&tiler), vec![A, B, C]);
    assert_eq!(tiler.scroll_offset(), 0);
    let moves = tiler.handle_window_snapshot(&snapshot_of(&[A, B, C]), None).unwrap();
    assert!(moves.is_empty());
    assert_eq!(tiler.windows_positions(), before);
}

#[test]
fn swap_left_of_the_first_window_changes_nothing() {
    let mut tiler = tiler_with(&[A, B, C]);
    tiler.swap_current_left(Some(A));
    assert_eq!(strip_of(&tiler), vec![A, B, C]);
}

#[test]
fn swap_exchanges_the_focused_window_with_its_neighbour() {
    let mut tiler = tiler_with(&[A, B, C]);
    tiler.swap_current_left(Some(B));
    assert_eq!(strip_of(&tiler), vec![B, A, C]);
    tiler.swap_current_right(Some(A));
    assert_eq!(strip_of(&tiler), vec![B, C, A]);
    tiler.swap_current_right(None);
    tiler.swap_current_left(Some(D));
    assert_eq!(strip_of(&tiler), vec![B, C, A]);
}

#[test]
fn swap_keeps_each_width_with_its_window() {
    let mut tiler = ScrollTiler::with_padding(10, 1920, 1080);
    tiler.handle_window_snapshot(&snapshot_of(&[A, B]), None).unwrap();
    tiler.swap_current_right(Some(A));
    assert_eq!(
        tiler.windows().clone(),
        vec![WindowItem { inner: B, width: 1280 }, WindowItem { inner: A, width: 1280 }]
    );
}

#[test]
fn focus_moves_to_the_neighbour() {
    let tiler = tiler_with(&[A, B, C]);
    assert_eq!(tiler.focus_left(Some(B)), Some(A));
    assert_eq!(tiler.focus_right(Some(B)), Some(C));
    assert_eq!(tiler.focus_left(Some(A)), None);
    assert_eq!(tiler.focus_right(Some(C)), None);
    assert_eq!(tiler.focus_left(None), None);
    assert_eq!(tiler.focus_right(Some(D)), None);
}

#[test]
fn focused_window_off_the_right_is_scrolled_in() {
    let mut tiler = tiler_with(&[A, B]);
    let positions = tiler.windows_positions();
    // The cell of B reaches from 1300 to 2600 on a screen of 1920.
    assert_eq!(tiler.adjust_scroll(&positions, Some(B)), Ok(true));
    assert_eq!(tiler.scroll_offset(), 680);
    let moves = tiler.layout_windows(&positions).unwrap();
    assert_eq!(moves[1], request(B, 630));
    assert_eq!(moves[1].frame.x + 1280 + 10, 1920);
}

#[test]
fn focus_left_then_window_event_scrolls_back() {
    let mut tiler = tiler_with(&[A, B]);
    tiler.handle_window_snapshot(&snapshot_of(&[A, B]), Some(B)).unwrap();
    assert_eq!(tiler.scroll_offset(), 680);
    assert_eq!(tiler.focus_left(Some(B)), Some(A));
    // The cell of A now reaches from -680 to 620.
    let moves = tiler.handle_window_snapshot(&snapshot_of(&[A, B]), Some(A)).unwrap();
    assert_eq!(tiler.scroll_offset(), 0);
    assert_eq!(moves, vec![request(A, 10), request(B, 1310)]);
}

#[test]
fn visible_focused_window_leaves_the_scroll_alone() {
    let mut tiler = tiler_with(&[A, B]);
    let positions = tiler.windows_positions();
    assert_eq!(tiler.adjust_scroll(&positions, Some(A)), Ok(false));
    assert_eq!(tiler.scroll_offset(), 0);
    assert_eq!(tiler.adjust_scroll(&positions, None), Ok(false));
    assert_eq!(tiler.adjust_scroll(&positions, Some(C)), Ok(false));
    assert_eq!(tiler.scroll_offset(), 0);
}

#[test]
fn window_wider_than_the_screen_aligns_its_nearer_edge() {
    let mut tiler = ScrollTiler::with_padding(400, 1920, 1080);
    tiler.handle_window_snapshot(&snapshot_of(&[A]), None).unwrap();
    let positions = tiler.windows_positions();
    assert_eq!(positions, vec![400]);
    // The cell of A reaches from 0 to 2080: its left edge is on the screen edge.
    assert_eq!(tiler.adjust_scroll(&positions, Some(A)), Ok(false));
    assert_eq!(tiler.scroll_offset(), 0);
    // Seen 100 further left, it reaches from -100 to 1980: the right edge is
    // the nearer one, 60 away.
    assert_eq!(tiler.adjust_scroll(&vec![300], Some(A)), Ok(true));
    assert_eq!(tiler.scroll_offset(), 60);
    // Now it reaches from -60 to 2020: the left edge is the nearer one.
    assert_eq!(tiler.adjust_scroll(&positions, Some(A)), Ok(true));
    assert_eq!(tiler.scroll_offset(), 0);
}

#[test]
fn wide_window_beyond_the_right_edge_is_scrolled_by_its_left_distance() {
    let mut tiler = ScrollTiler::with_padding(400, 1920, 1080);
    tiler.handle_window_snapshot(&snapshot_of(&[A, B]), None).unwrap();
    let positions = tiler.windows_positions();
    assert_eq!(positions, vec![400, 2480]);
    // The cell of B reaches from 2080 to 4160: the left edge is 2080 from the
    // left screen edge, the right one 2240 from the right screen edge.
    assert_eq!(tiler.adjust_scroll(&positions, Some(B)), Ok(true));
    assert_eq!(tiler.scroll_offset(), -2080);
}

#[test]
fn tie_between_the_edges_goes_to_the_right_edge() {
    let mut tiler = ScrollTiler::with_padding(320, 1920, 1080);
    tiler.handle_window_snapshot(&snapshot_of(&[A, B]), None).unwrap();
    let positions = tiler.windows_positions();
    assert_eq!(positions, vec![320, 2240]);
    // The cell of B reaches from 1920 to 3840: both distances are 1920.
    assert_eq!(tiler.adjust_scroll(&positions, Some(B)), Ok(true));
    assert_eq!(tiler.scroll_offset(), 1920);
}

#[test]
fn layout_places_every_window() {
    let mut tiler = tiler_with(&[A, B, C]);
    let positions = tiler.windows_positions();
    assert_eq!(tiler.adjust_scroll(&positions, Some(C)), Ok(true));
    assert_eq!(tiler.scroll_offset(), 1980);
    assert_eq!(
        tiler.layout_windows(&positions),
        Ok(vec![request(A, -1970), request(B, -670), request(C, 630)])
    );
}

#[test]
fn layout_height_is_the_screen_less_two_paddings() {
    let mut tiler = ScrollTiler::with_padding(25, 800, 600);
    let moves = tiler.handle_window_snapshot(&snapshot_of(&[A]), None).unwrap();
    assert_eq!(
        moves,
        vec![WindowMove { window: A, frame: Rectangle { x: 25, y: 25, width: 533, height: 550 } }]
    );
}

#[test]
fn strip_longer_than_the_coordinates_is_refused() {
    let mut tiler = ScrollTiler::with_padding(0, i32::MAX, 1080);
    tiler.handle_window_snapshot(&snapshot_of(&[A]), None).unwrap();
    assert_eq!(tiler.windows()[0].width, 1431655765);
    let result = tiler.handle_window_snapshot(&snapshot_of(&[A, B]), None);
    assert_eq!(result, Err(TilerError::CoordinateOverflow));
    assert_eq!(strip_of(&tiler), vec![A]);
    assert_eq!(tiler.scroll_offset(), 0);
}

#[test]
fn scroll_beyond_the_coordinates_is_refused() {
    let mut tiler = tiler_with(&[A]);
    // Seen at the far left, the cell of A reaches from i32::MIN - 10 to
    // i32::MIN + 1290: its left edge is the nearer one, and the offset would
    // fall below the least coordinate.
    assert_eq!(tiler.adjust_scroll(&vec![i32::MIN], Some(A)), Err(TilerError::CoordinateOverflow));
    assert_eq!(tiler.scroll_offset(), 0);
    // Seen at the far right, it reaches from i32::MAX - 10 to i32::MAX + 1290:
    // its right edge is the nearer one, i32::MAX - 630 from the screen edge.
    assert_eq!(tiler.adjust_scroll(&vec![i32::MAX], Some(A)), Ok(true));
    assert_eq!(tiler.scroll_offset(), i32::MAX - 630);
}

#[test]
fn layout_beyond_the_coordinates_is_refused() {
    let mut tiler = tiler_with(&[A, B]);
    tiler.handle_window_snapshot(&snapshot_of(&[A, B]), Some(B)).unwrap();
    assert_eq!(tiler.scroll_offset(), 680);
    assert_eq!(
        tiler.layout_windows(&vec![i32::MIN + 680, i32::MAX]),
        Ok(vec![request(A, i32::MIN), request(B, i32::MAX - 680)])
    );
    assert_eq!(
        tiler.layout_windows(&vec![0, i32::MIN + 679]),
        Err(TilerError::CoordinateOverflow)
    );
}
