use scroll_tiler::snapshot::WindowSnapshot;
use scroll_tiler::window::{Edges, Rectangle, Window, WindowError};

const W: Window = Window { hwnd: 77 };

#[test]
fn null_handle_is_no_window() {
    assert_eq!(Window::from(0), Err(WindowError::InvalidHandle));
}

#[test]
fn other_handles_are_windows() {
    assert_eq!(Window::from(0x5046e), Ok(Window { hwnd: 0x5046e }));
    assert_eq!(Window::from(-1), Ok(Window { hwnd: -1 }));
    assert_eq!(Window::from(0x5046e).unwrap().handle(), 0x5046e);
}

#[test]
fn window_is_its_own_ancestor_only() {
    assert!(W.is_ancestor(W));
    assert!(!W.is_ancestor(Window { hwnd: 78 }));
}

#[test]
fn window_is_focused_when_it_is_the_foreground_window() {
    assert!(W.is_focused(Some(W)));
    assert!(!W.is_focused(Some(Window { hwnd: 78 })));
    assert!(!W.is_focused(None));
}

#[test]
fn rectangle_from_edges() {
    let edges = Edges { left: -8, top: 20, right: 1288, bottom: 740 };
    assert_eq!(Rectangle::from(edges), Some(Rectangle { x: -8, y: 20, width: 1296, height: 720 }));
    let flipped = Edges { left: 10, top: 10, right: 0, bottom: 5 };
    assert_eq!(Rectangle::from(flipped), Some(Rectangle { x: 10, y: 10, width: -10, height: -5 }));
}

#[test]
fn rectangle_too_large_for_coordinates() {
    let wide = Edges { left: -1, top: 0, right: i32::MAX, bottom: 1 };
    assert_eq!(Rectangle::from(wide), None);
    let high = Edges { left: 0, top: i32::MAX, right: 1, bottom: -2 };
    assert_eq!(Rectangle::from(high), None);
    let largest = Edges { left: 0, top: -1, right: i32::MAX, bottom: i32::MAX - 1 };
    assert_eq!(
        Rectangle::from(largest),
        Some(Rectangle { x: 0, y: -1, width: i32::MAX, height: i32::MAX })
    );
}

#[test]
fn process_name_is_the_last_component() {
    assert_eq!(W.process_name("C:\\Program Files\\ShareX\\ShareX.exe"), "ShareX.exe");
    assert_eq!(W.process_name("editor.exe"), "editor.exe");
    assert_eq!(W.process_name("C:\\Windows\\"), "");
    assert_eq!(W.process_name(""), "");
    assert_eq!(W.process_name("\\\\server\\share\\töol.exe"), "töol.exe");
    assert_eq!(W.process_name("C:/bin/tool.exe"), "C:/bin/tool.exe");
}

#[test]
fn padding_is_the_distance_on_each_side() {
    let rect = Edges { left: 93, top: 100, right: 1407, bottom: 907 };
    let shown = Edges { left: 100, top: 100, right: 1400, bottom: 900 };
    assert_eq!(W.padding(rect, shown), Some([7, 0, 7, 7]));
    assert_eq!(W.padding(shown, rect), Some([7, 0, 7, 7]));
    assert_eq!(W.padding(rect, rect), Some([0, 0, 0, 0]));
}

#[test]
fn padding_too_large_for_coordinates() {
    let far = Edges { left: i32::MIN, top: 0, right: 0, bottom: 0 };
    let near = Edges { left: 0, top: 0, right: 0, bottom: 0 };
    assert_eq!(W.padding(far, near), None);
    let at_most = Edges { left: i32::MIN + 1, top: 0, right: 0, bottom: 0 };
    assert_eq!(W.padding(at_most, near), Some([i32::MAX, 0, 0, 0]));
}

#[test]
fn move_request_widens_by_border_and_padding() {
    assert_eq!(
        W.move_window(100, 10, 1280, 1060, [7, 0, 7, 7]),
        Some(Rectangle { x: 92, y: 9, width: 1295, height: 1068 })
    );
    assert_eq!(
        W.move_window(0, 0, 10, 10, [0, 0, 0, 0]),
        Some(Rectangle { x: -1, y: -1, width: 11, height: 11 })
    );
    assert_eq!(
        W.move_window(5, 6, 7, 8, [1, 2, 3, 4]),
        Some(Rectangle { x: 3, y: 3, width: 12, height: 15 })
    );
}

#[test]
fn move_request_too_large_for_coordinates() {
    assert_eq!(W.move_window(i32::MIN, 0, 10, 10, [0, 0, 0, 0]), None);
    assert_eq!(W.move_window(0, 0, i32::MAX, 10, [0, 0, 0, 0]), None);
    assert_eq!(W.move_window(0, 0, 10, i32::MAX - 1, [0, 1, 0, 0]), None);
    assert_eq!(
        W.move_window(i32::MIN + 1, 0, i32::MAX - 1, 10, [0, 0, 0, 0]),
        Some(Rectangle { x: i32::MIN, y: -1, width: i32::MAX, height: 11 })
    );
}

#[test]
fn snapshot_holds_each_window_once() {
    let mut snapshot = WindowSnapshot::new();
    assert!(snapshot.is_empty());
    assert!(snapshot.insert(W));
    assert!(snapshot.insert(Window { hwnd: 5 }));
    assert!(!snapshot.insert(W));
    assert_eq!(snapshot.len(), 2);
    assert!(!snapshot.is_empty());
    assert_eq!(snapshot.get(0), W);
    assert_eq!(snapshot.get(1), Window { hwnd: 5 });
    assert!(snapshot.contains(W));
    assert!(!snapshot.contains(Window { hwnd: 6 }));
}
