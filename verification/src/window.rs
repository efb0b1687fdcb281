//! Window handles and the geometry of window frames.

use vstd::prelude::*;
use vstd::string::*;

verus! {

/// Why a raw handle value was not accepted as a window.
#[derive(Debug, Clone, Copy, PartialEq, Eq, Structural)]
pub enum WindowError {
    /// The raw handle is the null handle.
    InvalidHandle,
}

/// A top-level window, named by the numeric value of its platform handle.
///
/// Two windows are the same window exactly when their handle values are equal.
#[derive(Debug, Clone, Copy, PartialEq, Eq, Structural, Hash)]
pub struct Window {
    pub hwnd: isize,
}

impl Window {
    /// Accepts every handle value but the null handle.
    pub fn from(hwnd: isize) -> (result: Result<Window, WindowError>)
        ensures
            hwnd != 0 ==> result == Ok::<Window, WindowError>(Window { hwnd }),
            hwnd == 0 ==> result == Err::<Window, WindowError>(WindowError::InvalidHandle),
    {
        if hwnd == 0 {
            Err(WindowError::InvalidHandle)
        } else {
            Ok(Window { hwnd })
        }
    }

    /// The numeric value of the platform handle.
    pub fn handle(self) -> (hwnd: isize)
        ensures
            hwnd == self.hwnd,
    {
        self.hwnd
    }

    /// Whether this window is its own root ancestor, given the root ancestor
    /// that the platform reported for it.
    pub fn is_ancestor(self, ancestor: Window) -> (own_root: bool)
        ensures
            own_root == (self == ancestor),
    {
        self.hwnd == ancestor.hwnd
    }

    /// Whether this window has the focus, given the foreground window that the
    /// platform reported (`None` when it reported none).
    pub fn is_focused(self, foreground: Option<Window>) -> (focused: bool)
        ensures
            focused == (foreground == Some(self)),
    {
        match foreground {
            Some(window) => window.hwnd == self.hwnd,
            None => false,
        }
    }
}

/// A frame on the screen: its top-left corner and its size, in pixels.
#[derive(Debug, Clone, Copy, PartialEq, Eq, Structural)]
pub struct Rectangle {
    pub x: i32,
    pub y: i32,
    pub width: i32,
    pub height: i32,
}

/// A frame on the screen by its four edges, as the platform reports frames.
#[derive(Debug, Clone, Copy, PartialEq, Eq, Structural)]
pub struct Edges {
    pub left: i32,
    pub top: i32,
    pub right: i32,
    pub bottom: i32,
}

/// Whether `value` is a 32-bit pixel coordinate.
pub open spec fn is_coordinate(value: int) -> bool {
    i32::MIN <= value <= i32::MAX
}

/// The distance between `a` and `b`.
pub open spec fn gap(a: int, b: int) -> int {
    if a < b {
        b - a
    } else {
        a - b
    }
}

/// `value` as a 32-bit coordinate, if it is one.
fn coordinate(value: i64) -> (narrow: Option<i32>)
    ensures
        narrow == if is_coordinate(value as int) {
            Some(value as i32)
        } else {
            None
        },
{
    if value < i32::MIN as i64 || value > i32::MAX as i64 {
        None
    } else {
        Some(value as i32)
    }
}

impl Rectangle {
    /// The frame with the given edges: its size is the distance from left to
    /// right and from top to bottom. There is none where a size is no 32-bit
    /// coordinate.
    pub fn from(edges: Edges) -> (frame: Option<Rectangle>)
        ensures
            frame == if is_coordinate(edges.right - edges.left) && is_coordinate(
                edges.bottom - edges.top,
            ) {
                Some(
                    Rectangle {
                        x: edges.left,
                        y: edges.top,
                        width: (edges.right - edges.left) as i32,
                        height: (edges.bottom - edges.top) as i32,
                    },
                )
            } else {
                None
            },
    {
        let width = coordinate(edges.right as i64 - edges.left as i64);
        let height = coordinate(edges.bottom as i64 - edges.top as i64);
        match (width, height) {
            (Some(width), Some(height)) => Some(
                Rectangle { x: edges.left, y: edges.top, width, height },
            ),
            _ => None,
        }
    }
}

/// Whether `name` is the file name of `path`: what follows the last backslash
/// of `path`, or all of `path` if it has none.
pub open spec fn is_file_name_of(name: Seq<char>, path: Seq<char>) -> bool {
    exists|start: int|
        #![trigger path.subrange(start, path.len() as int)]
        {
            &&& 0 <= start <= path.len()
            &&& name == path.subrange(start, path.len() as int)
            &&& !name.contains('\\')
            &&& start == 0 || path[start - 1] == '\\'
        }
}

impl Window {
    /// The name of the executable that owns the window, given the full path
    /// of that executable as the platform reports it.
    pub fn process_name(self, path: &str) -> (name: String)
        ensures
            is_file_name_of(name@, path@),
    {
        let length = path.unicode_len();
        let mut start: usize = 0;
        let mut index: usize = 0;
        while index < length
            invariant
                length == path@.len(),
                start <= index <= length,
                start == 0 || path@[start - 1] == '\\',
                forall|k: int| start <= k < index ==> path@[k] != '\\',
            decreases length - index,
        {
            if path.get_char(index) == '\\' {
                start = index + 1;
            }
            index += 1;
        }
        let name = path.substring_char(start, length).to_owned();
        proof {
            let tail = path@.subrange(start as int, length as int);
            assert forall|k: int| 0 <= k < tail.len() implies tail[k] != '\\' by {
                assert(tail[k] == path@[start + k]);
            }
        }
        name
    }

    /// How far the frame that the compositor shows lies inside the frame that
    /// the platform reports for the window, on each side: left, top, right,
    /// bottom. `rect` is the reported frame and `shown` the visible one.
    /// There is no answer where a distance is no 32-bit coordinate.
    pub fn padding(self, rect: Edges, shown: Edges) -> (padding: Option<[i32; 4]>)
        ensures
            match padding {
                Some(sides) => {
                    &&& sides@[0] == gap(rect.left as int, shown.left as int)
                    &&& sides@[1] == gap(rect.top as int, shown.top as int)
                    &&& sides@[2] == gap(rect.right as int, shown.right as int)
                    &&& sides@[3] == gap(rect.bottom as int, shown.bottom as int)
                },
                None => {
                    ||| !is_coordinate(gap(rect.left as int, shown.left as int))
                    ||| !is_coordinate(gap(rect.top as int, shown.top as int))
                    ||| !is_coordinate(gap(rect.right as int, shown.right as int))
                    ||| !is_coordinate(gap(rect.bottom as int, shown.bottom as int))
                },
            },
    {
        let left = side_gap(rect.left, shown.left);
        let top = side_gap(rect.top, shown.top);
        let right = side_gap(rect.right, shown.right);
        let bottom = side_gap(rect.bottom, shown.bottom);
        match (left, top, right, bottom) {
            (Some(left), Some(top), Some(right), Some(bottom)) => Some([left, top, right, bottom]),
            _ => None,
        }
    }

    /// The frame to hand to the platform so that the visible frame of the
    /// window comes to lie at `x`, `y` with the given size.
    ///
    /// The request is first widened by one pixel to the left and to the top,
    /// for a border that the platform leaves there. Then it is widened on
    /// each side by the `padding` of that side, which the platform frame has
    /// around the visible one. There is no answer where a number of the
    /// frame is no 32-bit coordinate.
    pub fn move_window(self, x: i32, y: i32, width: i32, height: i32, padding: [i32; 4]) -> (request:
        Option<Rectangle>)
        ensures
            request == if is_coordinate(x - 1 - padding@[0]) && is_coordinate(y - 1 - padding@[1])
                && is_coordinate(width + 1 + padding@[2] + padding@[0]) && is_coordinate(
                height + 1 + padding@[3] + padding@[1],
            ) {
                Some(
                    Rectangle {
                        x: (x - 1 - padding@[0]) as i32,
                        y: (y - 1 - padding@[1]) as i32,
                        width: (width + 1 + padding@[2] + padding@[0]) as i32,
                        height: (height + 1 + padding@[3] + padding@[1]) as i32,
                    },
                )
            } else {
                None
            },
    {
        let left = padding[0] as i64;
        let top = padding[1] as i64;
        let right = padding[2] as i64;
        let bottom = padding[3] as i64;
        let frame_x = coordinate(x as i64 - 1 - left);
        let frame_y = coordinate(y as i64 - 1 - top);
        let frame_width = coordinate(width as i64 + 1 + right + left);
        let frame_height = coordinate(height as i64 + 1 + bottom + top);
        match (frame_x, frame_y, frame_width, frame_height) {
            (Some(x), Some(y), Some(width), Some(height)) => Some(
                Rectangle { x, y, width, height },
            ),
            _ => None,
        }
    }
}

/// The distance between two edges, if it is a 32-bit coordinate.
fn side_gap(a: i32, b: i32) -> (distance: Option<i32>)
    ensures
        distance == if is_coordinate(gap(a as int, b as int)) {
            Some(gap(a as int, b as int) as i32)
        } else {
            None
        },
{
    let difference = a as i64 - b as i64;
    coordinate(if difference < 0 {
        -difference
    } else {
        difference
    })
}

} // verus!
