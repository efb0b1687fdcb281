//! The tiler: it keeps the strip in step with the managed windows, scrolls it
//! so that the focused window is in view, and says where every window goes.

use vstd::prelude::*;
use crate::snapshot::WindowSnapshot;
use crate::strip::{
    arrivals, extent, focused_index, handles, in_snapshot, initial_width, lemma_arrivals_push,
    lemma_extent_bound, lemma_extent_prefix, lemma_filter_keeps_order, lemma_newcomers_at_tail,
    lemma_position_step, lemma_reconciled_keeps_order, lemma_reconciled_members,
    lemma_reconciled_size, lemma_reconciled_valid, lemma_same_membership, lemma_survivors_push,
    lemma_swapped_valid, newcomers, position, precedes, reconciled, same_membership, survivors,
    swapped, WindowItem,
};
use crate::window::{is_coordinate, Rectangle, Window};

verus! {

/// A request to put the visible frame of `window` at `frame`.
#[derive(Debug, Clone, Copy, PartialEq, Eq, Structural)]
pub struct WindowMove {
    pub window: Window,
    pub frame: Rectangle,
}

/// Why the tiler refused to go on.
#[derive(Debug, Clone, Copy, PartialEq, Eq, Structural)]
pub enum TilerError {
    /// A position, the scroll offset or a frame coordinate would leave the
    /// range of 32-bit pixel coordinates.
    CoordinateOverflow,
}

/// The distance of `x` from zero.
pub open spec fn distance(x: int) -> int {
    if x < 0 {
        -x
    } else {
        x
    }
}

/// Whether a cell from `left` to `right` lies wholly on a screen that reaches
/// from 0 to `screen_width`.
pub open spec fn on_screen(left: int, right: int, screen_width: int) -> bool {
    0 <= left && right <= screen_width
}

/// The scroll offset chosen for a focused cell that lies from `left` to
/// `right` on the screen while the strip is scrolled by `offset`.
///
/// A cell that is wholly on screen leaves the offset as it is. Otherwise the
/// offset moves by the smaller of two distances: that of the cell's left edge
/// from the left screen edge, by which the offset is lowered, or that of its
/// right edge from the right screen edge, by which it is raised. On a tie the
/// right edge wins.
pub open spec fn scroll_target(left: int, right: int, screen_width: int, offset: int) -> int {
    if on_screen(left, right, screen_width) {
        offset
    } else if distance(left) < distance(right - screen_width) {
        offset - distance(left)
    } else {
        offset + distance(right - screen_width)
    }
}

/// The cells on which the scroll rule does not bring the cell into view. Such
/// a cell is at least as wide as the screen and sticks out on one side only:
/// to the left while it ends short of the right screen edge, or to the right,
/// being wider than the screen, while it starts inside the screen. The rule
/// measures distances without their direction, and here it takes the edge
/// that is already inside for the nearer one and moves the cell further out.
pub open spec fn scrolls_astray(left: int, right: int, screen_width: int) -> bool {
    ||| left < 0 && right < screen_width && right - left >= screen_width
    ||| left > 0 && right > screen_width && right - left > screen_width
}

/// What a scroll adjustment is for. A cell that lay from `left` to `right` and
/// now lies from `new_left` to `new_right` is wholly on screen, or else it is
/// wider than the screen and the edge that was nearer to its screen edge now
/// lies on it.
pub open spec fn shown(
    left: int,
    right: int,
    new_left: int,
    new_right: int,
    screen_width: int,
) -> bool {
    on_screen(new_left, new_right, screen_width) || (right - left > screen_width && if distance(
        left,
    ) < distance(right - screen_width) {
        new_left == 0
    } else {
        new_right == screen_width
    })
}

/// The scroll rule shows a cell exactly when it does not scroll it astray.
pub proof fn lemma_scroll_shows(left: int, right: int, screen_width: int, offset: int)
    requires
        left < right,
    ensures
        shown(
            left,
            right,
            left + offset - scroll_target(left, right, screen_width, offset),
            right + offset - scroll_target(left, right, screen_width, offset),
            screen_width,
        ) == !scrolls_astray(left, right, screen_width),
{
}

/// What a tiler holds, as mathematical values.
pub struct TilerView {
    /// The managed windows from left to right.
    pub strip: Seq<WindowItem>,
    /// The gap kept on each side of every window.
    pub padding: int,
    /// How far the strip is scrolled to the left.
    pub scroll_offset: int,
    /// The width of the screen in pixels.
    pub screen_width: int,
    /// The height of the screen in pixels.
    pub screen_height: int,
}

impl TilerView {
    /// The strip holds no window twice, widths are positive, the padding is
    /// not negative, the screen is at least one pixel wide, and every number
    /// that a layout is made of is a 32-bit pixel coordinate.
    pub open spec fn wf(self) -> bool {
        &&& 0 <= self.padding <= i32::MAX
        &&& 1 <= self.screen_width <= i32::MAX
        &&& i32::MIN <= self.screen_height - 2 * self.padding
        &&& self.screen_height <= i32::MAX
        &&& i32::MIN <= self.scroll_offset <= i32::MAX
        &&& handles(self.strip).no_duplicates()
        &&& forall|k: int| 0 <= k < self.strip.len() ==> (#[trigger] self.strip[k]).width > 0
        &&& extent(self.strip, self.padding) <= i32::MAX
    }

    /// The same tiler scrolled by `offset`.
    pub open spec fn scrolled_to(self, offset: int) -> TilerView {
        TilerView { scroll_offset: offset, ..self }
    }

    /// The left edge on screen of the cell of a window whose logical left edge
    /// is `position`. The cell is the window with one padding on each side.
    pub open spec fn cell_left(self, position: int) -> int {
        position - self.padding - self.scroll_offset
    }

    /// The right edge on screen of the cell of the window at `index`, whose
    /// logical left edge is `position`.
    pub open spec fn cell_right(self, index: int, position: int) -> int {
        self.cell_left(position) + self.strip[index].width + 2 * self.padding
    }

    /// The scroll offset that brings the window at `index` into view, when that
    /// window's logical left edge is `position`.
    pub open spec fn scroll_towards(self, index: int, position: int) -> int {
        scroll_target(
            self.cell_left(position),
            self.cell_right(index, position),
            self.screen_width,
            self.scroll_offset,
        )
    }

    /// Whether the scroll rule fails the window at `index`, whose logical left
    /// edge is `position`: see `scrolls_astray`.
    pub open spec fn astray(self, index: int, position: int) -> bool {
        scrolls_astray(
            self.cell_left(position),
            self.cell_right(index, position),
            self.screen_width,
        )
    }

    /// Whether scrolling from this tiler to `next` has shown the window at
    /// `index`, whose logical left edge is `position`: see `shown`.
    pub open spec fn shows(self, next: TilerView, index: int, position: int) -> bool {
        shown(
            self.cell_left(position),
            self.cell_right(index, position),
            next.cell_left(position),
            next.cell_right(index, position),
            self.screen_width,
        )
    }

    /// The scroll offset after an adjustment for the focused window: unchanged
    /// when no window of the strip is focused.
    pub open spec fn adjusted_offset(self, focused: Option<Window>) -> int {
        match focused_index(self.strip, focused) {
            Some(index) => self.scroll_towards(index, position(self.strip, self.padding, index)),
            None => self.scroll_offset,
        }
    }

    /// The tiler after `snapshot` has been handled while `focused` had the
    /// focus: the strip is reconciled with the snapshot and, unless the
    /// snapshot is empty, scrolled towards the focused window.
    pub open spec fn after_snapshot(self, snapshot: Seq<Window>, focused: Option<Window>) -> TilerView {
        let fitted = TilerView {
            strip: reconciled(self.strip, snapshot, initial_width(self.screen_width)),
            ..self
        };
        if snapshot.len() == 0 {
            fitted
        } else {
            fitted.scrolled_to(fitted.adjusted_offset(focused))
        }
    }

    /// Whether handling `snapshot` lays the strip out anew: the snapshot is
    /// not empty, and it changed the strip or the scroll offset.
    pub open spec fn relayouts(self, snapshot: Seq<Window>, focused: Option<Window>) -> bool {
        snapshot.len() > 0 && (!same_membership(self.strip, snapshot) || self.after_snapshot(
            snapshot,
            focused,
        ).scroll_offset != self.scroll_offset)
    }

    /// Whether every horizontal coordinate of a layout of this strip is a
    /// 32-bit coordinate.
    pub open spec fn frames_fit(self) -> bool {
        forall|k: int|
            0 <= k < self.strip.len() ==> i32::MIN <= #[trigger] position(
                self.strip,
                self.padding,
                k,
            ) - self.scroll_offset <= i32::MAX
    }

    /// Whether `snapshot` can be handled within 32-bit pixel coordinates: the
    /// new strip is not too long, the new scroll offset is in range and so is
    /// every frame that is laid out.
    pub open spec fn accepts(self, snapshot: Seq<Window>, focused: Option<Window>) -> bool {
        let next = self.after_snapshot(snapshot, focused);
        snapshot.len() == 0 || {
            &&& extent(next.strip, next.padding) <= i32::MAX
            &&& i32::MIN <= next.scroll_offset <= i32::MAX
            &&& self.relayouts(snapshot, focused) ==> next.frames_fit()
        }
    }

    /// The left neighbour of the focused window, if it has one.
    pub open spec fn left_neighbour(self, focused: Option<Window>) -> Option<Window> {
        match focused_index(self.strip, focused) {
            Some(index) => if index > 0 {
                Some(self.strip[index - 1].inner)
            } else {
                None
            },
            None => None,
        }
    }

    /// The right neighbour of the focused window, if it has one.
    pub open spec fn right_neighbour(self, focused: Option<Window>) -> Option<Window> {
        match focused_index(self.strip, focused) {
            Some(index) => if index + 1 < self.strip.len() {
                Some(self.strip[index + 1].inner)
            } else {
                None
            },
            None => None,
        }
    }

    /// The tiler with the focused window and its left neighbour in each
    /// other's place, and unchanged where there is no such pair.
    pub open spec fn swapped_left(self, focused: Option<Window>) -> TilerView {
        match focused_index(self.strip, focused) {
            Some(index) => if index > 0 {
                TilerView { strip: swapped(self.strip, index - 1), ..self }
            } else {
                self
            },
            None => self,
        }
    }

    /// The tiler with the focused window and its right neighbour in each
    /// other's place, and unchanged where there is no such pair.
    pub open spec fn swapped_right(self, focused: Option<Window>) -> TilerView {
        match focused_index(self.strip, focused) {
            Some(index) => if index + 1 < self.strip.len() {
                TilerView { strip: swapped(self.strip, index), ..self }
            } else {
                self
            },
            None => self,
        }
    }

    /// Whether `request` asks to put the window at `index` where the layout
    /// wants it, when that window's logical left edge is `position`: scrolled
    /// horizontally, one padding below the top of the screen, as wide as the
    /// item says and as high as the screen less two paddings.
    pub open spec fn places(self, request: WindowMove, index: int, position: int) -> bool {
        &&& request.window == self.strip[index].inner
        &&& request.frame.x == position - self.scroll_offset
        &&& request.frame.y == self.padding
        &&& request.frame.width == self.strip[index].width
        &&& request.frame.height == self.screen_height - 2 * self.padding
    }

    /// Whether `requests` is the layout of the whole strip, window by window,
    /// with every window at its own position.
    pub open spec fn lays_out(self, requests: Seq<WindowMove>) -> bool {
        &&& requests.len() == self.strip.len()
        &&& forall|k: int|
            0 <= k < requests.len() ==> self.places(
                #[trigger] requests[k],
                k,
                position(self.strip, self.padding, k),
            )
    }
}

/// A snapshot is accepted whenever the numbers are small: every cell of the
/// strip and the cell of a new window are at most `cell` wide, and twice as
/// many such cells as the strip and the snapshot have windows together, twice
/// the distance scrolled and the screen width add up to a 32-bit coordinate.
pub proof fn lemma_accepts_small(
    view: TilerView,
    snapshot: Seq<Window>,
    focused: Option<Window>,
    cell: int,
)
    requires
        view.wf(),
        snapshot.no_duplicates(),
        forall|k: int|
            0 <= k < view.strip.len() ==> (#[trigger] view.strip[k]).width + 2 * view.padding
                <= cell,
        initial_width(view.screen_width) + 2 * view.padding <= cell,
        2 * ((view.strip.len() + snapshot.len()) * cell) + 2 * distance(view.scroll_offset)
            + view.screen_width <= i32::MAX,
    ensures
        view.accepts(snapshot, focused),
{
    let width = initial_width(view.screen_width);
    let next = view.after_snapshot(snapshot, focused);
    let strip = next.strip;
    let span = (view.strip.len() + snapshot.len()) * cell;
    lemma_reconciled_size(view.strip, snapshot, width);
    lemma_reconciled_valid(view.strip, snapshot, width);
    assert forall|k: int| 0 <= k < strip.len() implies (#[trigger] strip[k]).width + 2
        * view.padding <= cell by {
        if view.strip.contains(strip[k]) {
            let i = choose|i: int| 0 <= i < view.strip.len() && view.strip[i] == strip[k];
            assert(view.strip[i].width + 2 * view.padding <= cell);
        }
    }
    lemma_extent_bound(strip, view.padding, cell);
    assert(strip.len() * cell <= span) by (nonlinear_arith)
        requires
            strip.len() <= view.strip.len() + snapshot.len(),
            0 <= cell,
            span == (view.strip.len() + snapshot.len()) * cell,
    ;
    assert forall|k: int| 0 <= k < strip.len() implies 0 <= #[trigger] position(
        strip,
        view.padding,
        k,
    ) <= span by {
        lemma_extent_prefix(strip, view.padding, k);
    }
    if let Some(window) = focused {
        handles(strip).index_of_first_ensures(window);
    }
    if snapshot.len() > 0 {
        if let Some(index) = focused_index(strip, focused) {
            assert(0 <= position(strip, view.padding, index) <= span);
            lemma_extent_prefix(strip, view.padding, index);
        }
    }
}

/// The strip of managed windows and its scroll state.
pub struct ScrollTiler {
    windows: Vec<WindowItem>,
    padding: i32,
    scroll_offset: i32,
    screen_width: i32,
    screen_height: i32,
}

impl View for ScrollTiler {
    type V = TilerView;

    closed spec fn view(&self) -> TilerView {
        TilerView {
            strip: self.windows@,
            padding: self.padding as int,
            scroll_offset: self.scroll_offset as int,
            screen_width: self.screen_width as int,
            screen_height: self.screen_height as int,
        }
    }
}

/// The logical left edges of `items`, computed from left to right.
fn strip_positions(items: &Vec<WindowItem>, padding: i32) -> (result: Vec<i32>)
    requires
        0 <= padding,
        forall|k: int| 0 <= k < items@.len() ==> (#[trigger] items@[k]).width > 0,
        extent(items@, padding as int) <= i32::MAX,
    ensures
        result@.len() == items@.len(),
        forall|k: int|
            0 <= k < result@.len() ==> (#[trigger] result@[k]) == position(
                items@,
                padding as int,
                k,
            ),
{
    let mut result: Vec<i32> = Vec::new();
    let mut current: i32 = 0;
    let mut index: usize = 0;
    while index < items.len()
        invariant
            0 <= padding,
            forall|k: int| 0 <= k < items@.len() ==> (#[trigger] items@[k]).width > 0,
            extent(items@, padding as int) <= i32::MAX,
            index <= items@.len(),
            result@.len() == index,
            current == extent(items@.take(index as int), padding as int),
            forall|k: int|
                0 <= k < index ==> (#[trigger] result@[k]) == position(items@, padding as int, k),
        decreases items@.len() - index,
    {
        proof {
            lemma_extent_prefix(items@, padding as int, index as int);
            lemma_position_step(items@, padding as int, index as int);
        }
        current = current + padding;
        result.push(current);
        current = current + (items[index].width + padding);
        index += 1;
    }
    result
}

/// The place of the first item of `items` whose window is `focused`.
fn find_focused(items: &Vec<WindowItem>, focused: Option<Window>) -> (found: Option<usize>)
    ensures
        match found {
            Some(index) => focused_index(items@, focused) == Some(index as int) && index
                < items@.len(),
            None => focused_index(items@, focused) is None,
        },
{
    match focused {
        None => None,
        Some(window) => {
            let mut index: usize = 0;
            while index < items.len()
                invariant
                    focused == Some(window),
                    index <= items@.len(),
                    forall|k: int| 0 <= k < index ==> handles(items@)[k] != window,
                decreases items@.len() - index,
            {
                if items[index].inner.hwnd == window.hwnd {
                    proof {
                        handles(items@).index_of_first_ensures(window);
                        assert(handles(items@)[index as int] == window);
                    }
                    return Some(index);
                }
                index += 1;
            }
            proof {
                handles(items@).index_of_first_ensures(window);
            }
            None
        },
    }
}

/// The scroll offset that `scroll_target` chooses, in 64-bit arithmetic.
fn choose_offset(left: i64, right: i64, screen_width: i32, offset: i32) -> (target: i64)
    requires
        -0x2_0000_0000 <= left <= 0x2_0000_0000,
        -0x4_0000_0000 <= right <= 0x4_0000_0000,
    ensures
        target == scroll_target(left as int, right as int, screen_width as int, offset as int),
{
    let width: i64 = screen_width as i64;
    let start: i64 = offset as i64;
    if 0 <= left && right <= width {
        return start;
    }
    let from_left: i64 = if left < 0 {
        -left
    } else {
        left
    };
    let beyond: i64 = right - width;
    let from_right: i64 = if beyond < 0 {
        -beyond
    } else {
        beyond
    };
    if from_left < from_right {
        start - from_left
    } else {
        start + from_right
    }
}

/// The items of `items` whose window belongs to `snapshot`, in their order.
fn keep_survivors(items: &Vec<WindowItem>, snapshot: &WindowSnapshot) -> (kept: Vec<WindowItem>)
    ensures
        kept@ == survivors(items@, snapshot.members()),
{
    let mut kept: Vec<WindowItem> = Vec::new();
    let mut index: usize = 0;
    proof {
        reveal(Seq::filter);
        assert(items@.take(0).len() == 0);
    }
    while index < items.len()
        invariant
            index <= items@.len(),
            kept@ == survivors(items@.take(index as int), snapshot.members()),
        decreases items@.len() - index,
    {
        let item = items[index];
        proof {
            lemma_survivors_push(items@.take(index as int), item, snapshot.members());
            assert(items@.take(index as int).push(item) == items@.take(index + 1));
        }
        if snapshot.contains(item.inner) {
            kept.push(item);
        }
        index += 1;
    }
    proof {
        assert(items@.take(index as int) == items@);
    }
    kept
}

/// Whether `items` holds `window`.
fn holds_window(items: &Vec<WindowItem>, window: Window) -> (held: bool)
    ensures
        held == handles(items@).contains(window),
{
    let mut index: usize = 0;
    while index < items.len()
        invariant
            index <= items@.len(),
            forall|k: int| 0 <= k < index ==> handles(items@)[k] != window,
        decreases items@.len() - index,
    {
        if items[index].inner.hwnd == window.hwnd {
            assert(handles(items@)[index as int] == window);
            return true;
        }
        index += 1;
    }
    false
}

/// `kept`, followed by one item of the given width for every window of
/// `snapshot` that `known` does not hold, in the order of the snapshot.
fn append_new_windows(
    kept: Vec<WindowItem>,
    known: &Vec<WindowItem>,
    snapshot: &WindowSnapshot,
    width: i32,
) -> (next: Vec<WindowItem>)
    ensures
        next@ == kept@ + newcomers(arrivals(known@, snapshot@), width as int),
{
    let mut next = kept;
    let mut index: usize = 0;
    proof {
        reveal(Seq::filter);
        assert(snapshot@.take(0).len() == 0);
        assert(next@ == kept@ + newcomers(arrivals(known@, snapshot@.take(0)), width as int));
    }
    while index < snapshot.len()
        invariant
            index <= snapshot@.len(),
            next@ == kept@ + newcomers(
                arrivals(known@, snapshot@.take(index as int)),
                width as int,
            ),
        decreases snapshot@.len() - index,
    {
        let window = snapshot.get(index);
        let ghost seen = arrivals(known@, snapshot@.take(index as int));
        proof {
            lemma_arrivals_push(known@, snapshot@.take(index as int), window);
            assert(snapshot@.take(index as int).push(window) == snapshot@.take(index + 1));
        }
        if !holds_window(known, window) {
            next.push(WindowItem::new(window, width));
            proof {
                assert(newcomers(seen.push(window), width as int) == newcomers(
                    seen,
                    width as int,
                ).push(WindowItem { inner: window, width }));
                assert(next@ == kept@ + newcomers(seen.push(window), width as int));
            }
        }
        index += 1;
    }
    proof {
        assert(snapshot@.take(index as int) == snapshot@);
    }
    next
}

/// Whether a strip of `items` is short enough for 32-bit positions.
fn extent_fits(items: &Vec<WindowItem>, padding: i32) -> (fits: bool)
    requires
        0 <= padding,
        forall|k: int| 0 <= k < items@.len() ==> (#[trigger] items@[k]).width > 0,
    ensures
        fits == (extent(items@, padding as int) <= i32::MAX),
{
    let mut total: i64 = 0;
    let mut index: usize = 0;
    while index < items.len()
        invariant
            0 <= padding,
            forall|k: int| 0 <= k < items@.len() ==> (#[trigger] items@[k]).width > 0,
            index <= items@.len(),
            total == extent(items@.take(index as int), padding as int),
            0 <= total <= i32::MAX,
        decreases items@.len() - index,
    {
        proof {
            lemma_extent_prefix(items@, padding as int, index as int);
            lemma_extent_prefix(items@, padding as int, index + 1);
            assert(items@.take(index + 1).drop_last() == items@.take(index as int));
        }
        total = total + items[index].width as i64 + 2 * (padding as i64);
        if total > i32::MAX as i64 {
            return false;
        }
        index += 1;
    }
    proof {
        assert(items@.take(index as int) == items@);
    }
    true
}

/// The width of a window that joins the strip.
fn initial_width_for(screen_width: i32) -> (width: i32)
    requires
        1 <= screen_width,
    ensures
        width == initial_width(screen_width as int),
        0 < width,
{
    ((4 * (screen_width as i64) + 3) / 6) as i32
}

impl ScrollTiler {
    /// See [`TilerView::wf`].
    pub open spec fn wf(&self) -> bool {
        self@.wf()
    }

    /// A tiler without windows, not scrolled, for a screen of the given size.
    pub fn with_padding(padding: i32, screen_width: i32, screen_height: i32) -> (tiler:
        ScrollTiler)
        requires
            0 <= padding,
            1 <= screen_width,
            i32::MIN <= screen_height - 2 * padding,
        ensures
            tiler.wf(),
            tiler@ == (TilerView {
                strip: Seq::empty(),
                padding: padding as int,
                scroll_offset: 0,
                screen_width: screen_width as int,
                screen_height: screen_height as int,
            }),
    {
        ScrollTiler { windows: Vec::new(), padding, scroll_offset: 0, screen_width, screen_height }
    }

    /// The gap kept on each side of every window.
    pub fn padding(&self) -> (padding: i32)
        ensures
            padding == self@.padding,
    {
        self.padding
    }

    /// How far the strip is scrolled to the left.
    pub fn scroll_offset(&self) -> (offset: i32)
        ensures
            offset == self@.scroll_offset,
    {
        self.scroll_offset
    }

    /// The windows of the strip from left to right.
    pub fn windows(&self) -> (items: &Vec<WindowItem>)
        ensures
            items@ == self@.strip,
    {
        &self.windows
    }

    /// The logical left edge of every window, from left to right.
    ///
    /// The first window lies one padding from the start of the strip, and each
    /// further window lies to the right of the one before it, by that window's
    /// width and two paddings.
    pub fn windows_positions(&self) -> (result: Vec<i32>)
        requires
            self.wf(),
        ensures
            result@.len() == self@.strip.len(),
            forall|k: int|
                0 <= k < result@.len() ==> (#[trigger] result@[k]) == position(
                    self@.strip,
                    self@.padding,
                    k,
                ),
            result@.len() > 0 ==> result@[0] == self@.padding,
            forall|k: int|
                0 <= k && k + 1 < result@.len() ==> result@[k] < (#[trigger] result@[k + 1])
                    && result@[k + 1] - result@[k] == self@.strip[k].width + 2 * self@.padding,
    {
        let result = strip_positions(&self.windows, self.padding);
        proof {
            assert forall|k: int| 0 <= k && k + 1 < result@.len() implies result@[k] < (
            #[trigger] result@[k + 1]) && result@[k + 1] - result@[k] == self@.strip[k].width + 2
                * self@.padding by {
                lemma_position_step(self@.strip, self@.padding, k);
            }
            if result@.len() > 0 {
                lemma_position_step(self@.strip, self@.padding, 0);
            }
        }
        result
    }

    /// The scroll offset that an adjustment for `focused` chooses, given the
    /// logical left edge of every window in `positions`. It is the current
    /// offset when no window of the strip is focused.
    fn scroll_goal(&self, positions: &Vec<i32>, focused: Option<Window>) -> (goal: i64)
        requires
            self.wf(),
            positions@.len() == self@.strip.len(),
        ensures
            match focused_index(self@.strip, focused) {
                Some(index) => goal == self@.scroll_towards(index, positions@[index] as int),
                None => goal == self@.scroll_offset,
            },
    {
        match find_focused(&self.windows, focused) {
            None => self.scroll_offset as i64,
            Some(index) => {
                let left: i64 = positions[index] as i64 - self.padding as i64
                    - self.scroll_offset as i64;
                let right: i64 = left + self.windows[index].width as i64 + 2 * (
                self.padding as i64);
                choose_offset(left, right, self.screen_width, self.scroll_offset)
            },
        }
    }

    /// Scrolls the strip so that the focused window comes into view, and says
    /// whether the scroll offset changed.
    ///
    /// `positions` holds the logical left edge of every window. Nothing
    /// changes when no window of the strip is focused. An offset that is no
    /// 32-bit coordinate is refused, and then nothing changes either.
    pub fn adjust_scroll(&mut self, positions: &Vec<i32>, focused: Option<Window>) -> (result:
        Result<bool, TilerError>)
        requires
            old(self).wf(),
            positions@.len() == old(self)@.strip.len(),
        ensures
            final(self).wf(),
            match focused_index(old(self)@.strip, focused) {
                Some(index) => {
                    let goal = old(self)@.scroll_towards(index, positions@[index] as int);
                    if is_coordinate(goal) {
                        &&& result == Ok::<bool, TilerError>(goal != old(self)@.scroll_offset)
                        &&& final(self)@ == old(self)@.scrolled_to(goal)
                        &&& !old(self)@.astray(index, positions@[index] as int) ==> old(
                            self,
                        )@.shows(final(self)@, index, positions@[index] as int)
                    } else {
                        &&& result == Err::<bool, TilerError>(TilerError::CoordinateOverflow)
                        &&& final(self)@ == old(self)@
                    }
                },
                None => result == Ok::<bool, TilerError>(false) && final(self)@ == old(self)@,
            },
    {
        proof {
            if let Some(window) = focused {
                handles(self@.strip).index_of_first_ensures(window);
            }
        }
        let goal = self.scroll_goal(positions, focused);
        if goal < i32::MIN as i64 || goal > i32::MAX as i64 {
            return Err(TilerError::CoordinateOverflow);
        }
        let target: i32 = goal as i32;
        let changed = target != self.scroll_offset;
        self.scroll_offset = target;
        Ok(changed)
    }

    /// Whether every window can be laid out at `positions`: each horizontal
    /// coordinate, scrolled, must be a 32-bit coordinate.
    pub open spec fn layout_fits(&self, positions: Seq<i32>) -> bool {
        forall|k: int|
            0 <= k < positions.len() ==> i32::MIN <= (#[trigger] positions[k])
                - self@.scroll_offset <= i32::MAX
    }

    /// See `layout_fits`.
    fn can_layout(&self, positions: &Vec<i32>) -> (fits: bool)
        ensures
            fits == self.layout_fits(positions@),
    {
        let mut index: usize = 0;
        while index < positions.len()
            invariant
                index <= positions@.len(),
                forall|k: int|
                    0 <= k < index ==> i32::MIN <= (#[trigger] positions@[k])
                        - self@.scroll_offset <= i32::MAX,
            decreases positions@.len() - index,
        {
            let x: i64 = positions[index] as i64 - self.scroll_offset as i64;
            if x < i32::MIN as i64 || x > i32::MAX as i64 {
                return false;
            }
            index += 1;
        }
        true
    }

    /// The move requests that lay the strip out: one for each window, from
    /// left to right, with the window whose logical left edge is
    /// `positions[k]` placed as `TilerView::places` says. A layout with a
    /// coordinate that is no 32-bit coordinate is refused.
    pub fn layout_windows(&self, positions: &Vec<i32>) -> (result: Result<
        Vec<WindowMove>,
        TilerError,
    >)
        requires
            self.wf(),
            positions@.len() == self@.strip.len(),
        ensures
            match result {
                Ok(requests) => {
                    &&& self.layout_fits(positions@)
                    &&& requests@.len() == self@.strip.len()
                    &&& forall|k: int|
                        0 <= k < requests@.len() ==> self@.places(
                            #[trigger] requests@[k],
                            k,
                            positions@[k] as int,
                        )
                },
                Err(error) => error == TilerError::CoordinateOverflow && !self.layout_fits(
                    positions@,
                ),
            },
    {
        if !self.can_layout(positions) {
            return Err(TilerError::CoordinateOverflow);
        }
        let y = self.padding;
        let height = self.screen_height - self.padding - self.padding;
        let mut requests: Vec<WindowMove> = Vec::new();
        let mut index: usize = 0;
        while index < self.windows.len()
            invariant
                self.wf(),
                positions@.len() == self@.strip.len(),
                self.layout_fits(positions@),
                y == self@.padding,
                height == self@.screen_height - 2 * self@.padding,
                index <= self@.strip.len(),
                requests@.len() == index,
                forall|k: int|
                    0 <= k < index ==> self@.places(#[trigger] requests@[k], k, positions@[k] as int),
            decreases self@.strip.len() - index,
        {
            let item = self.windows[index];
            let x = positions[index] - self.scroll_offset;
            requests.push(
                WindowMove {
                    window: item.inner,
                    frame: Rectangle { x, y, width: item.width, height },
                },
            );
            index += 1;
        }
        Ok(requests)
    }

    /// Brings the tiler up to date with `snapshot`, the managed windows that
    /// exist now, while `focused` has the focus, and returns the moves to
    /// carry out, from left to right.
    ///
    /// An empty snapshot empties the strip and moves nothing. Otherwise the
    /// strip is reconciled with the snapshot and scrolled towards the focused
    /// window. If that changed neither the strip nor the scroll offset, no
    /// window is moved; else every window of the strip is.
    ///
    /// A snapshot whose layout leaves the 32-bit coordinates is refused and
    /// changes nothing.
    pub fn handle_window_snapshot(
        &mut self,
        snapshot: &WindowSnapshot,
        focused: Option<Window>,
    ) -> (result: Result<Vec<WindowMove>, TilerError>)
        requires
            old(self).wf(),
            snapshot.wf(),
        ensures
            final(self).wf(),
            old(self)@.accepts(snapshot@, focused) ==> result is Ok && final(self)@ == old(
                self,
            )@.after_snapshot(snapshot@, focused),
            !old(self)@.accepts(snapshot@, focused) ==> result == Err::<
                Vec<WindowMove>,
                TilerError,
            >(TilerError::CoordinateOverflow) && final(self)@ == old(self)@,
            match result {
                Ok(requests) => if old(self)@.relayouts(snapshot@, focused) {
                    final(self)@.lays_out(requests@)
                } else {
                    requests@.len() == 0
                },
                Err(_) => true,
            },
            result is Ok ==> handles(final(self)@.strip).to_set() == snapshot.members(),
            result is Ok ==> forall|first: Window, second: Window|
                snapshot@.contains(first) && snapshot@.contains(second) && #[trigger] precedes(
                    handles(old(self)@.strip),
                    first,
                    second,
                ) ==> precedes(handles(final(self)@.strip), first, second),
            result is Ok ==> forall|k: int|
                0 <= k < final(self)@.strip.len() ==> (handles(old(self)@.strip).contains(
                    (#[trigger] final(self)@.strip[k]).inner,
                ) <==> k < survivors(old(self)@.strip, snapshot.members()).len()),
            result is Ok && snapshot@.len() > 0 ==> match focused_index(
                final(self)@.strip,
                focused,
            ) {
                Some(index) => {
                    let fitted = TilerView { strip: final(self)@.strip, ..old(self)@ };
                    let at = position(fitted.strip, fitted.padding, index);
                    !fitted.astray(index, at) ==> fitted.shows(final(self)@, index, at)
                },
                None => true,
            },
    {
        let ghost before = self@;
        let ghost width = initial_width(before.screen_width);
        proof {
            lemma_reconciled_valid(before.strip, snapshot@, width);
            lemma_reconciled_members(before.strip, snapshot@, width);
            lemma_newcomers_at_tail(before.strip, snapshot@, width);
            assert forall|first: Window, second: Window|
                snapshot@.contains(first) && snapshot@.contains(second) && #[trigger] precedes(
                    handles(before.strip),
                    first,
                    second,
                ) implies precedes(
                handles(reconciled(before.strip, snapshot@, width)),
                first,
                second,
            ) by {
                lemma_reconciled_keeps_order(before.strip, snapshot@, width, first, second);
            }
        }
        if snapshot.is_empty() {
            self.windows = Vec::new();
            assert(self@.strip == reconciled(before.strip, snapshot@, width));
            return Ok(Vec::new());
        }
        let kept = keep_survivors(&self.windows, snapshot);
        let same = snapshot.len() == kept.len() && kept.len() == self.windows.len();
        let next = if same {
            proof {
                lemma_same_membership(before.strip, snapshot@, width);
                lemma_filter_keeps_order(before.strip, in_snapshot(snapshot.members()));
            }
            kept
        } else {
            append_new_windows(kept, &self.windows, snapshot, initial_width_for(self.screen_width))
        };
        assert(next@ == reconciled(before.strip, snapshot@, width));
        if !extent_fits(&next, self.padding) {
            return Err(TilerError::CoordinateOverflow);
        }
        let mut candidate = ScrollTiler {
            windows: next,
            padding: self.padding,
            scroll_offset: self.scroll_offset,
            screen_width: self.screen_width,
            screen_height: self.screen_height,
        };
        let positions = candidate.windows_positions();
        proof {
            if let Some(window) = focused {
                handles(candidate@.strip).index_of_first_ensures(window);
            }
        }
        let changed = match candidate.adjust_scroll(&positions, focused) {
            Ok(changed) => changed,
            Err(error) => {
                return Err(error);
            },
        };
        assert(candidate@ == before.after_snapshot(snapshot@, focused));
        if same && !changed {
            *self = candidate;
            return Ok(Vec::new());
        }
        assert(before.relayouts(snapshot@, focused));
        proof {
            assert(candidate@.frames_fit() == candidate.layout_fits(positions@)) by {
                if candidate@.frames_fit() {
                    assert forall|k: int| 0 <= k < positions@.len() implies i32::MIN <= (
                    #[trigger] positions@[k]) - candidate@.scroll_offset <= i32::MAX by {
                        assert(positions@[k] == position(candidate@.strip, candidate@.padding, k));
                    }
                }
                if candidate.layout_fits(positions@) {
                    assert forall|k: int| 0 <= k < candidate@.strip.len() implies i32::MIN
                        <= #[trigger] position(candidate@.strip, candidate@.padding, k)
                        - candidate@.scroll_offset <= i32::MAX by {
                        assert(positions@[k] == position(candidate@.strip, candidate@.padding, k));
                    }
                }
            }
        }
        match candidate.layout_windows(&positions) {
            Ok(requests) => {
                *self = candidate;
                Ok(requests)
            },
            Err(error) => Err(error),
        }
    }

    /// The window to focus in order to move the focus one place to the left:
    /// the left neighbour of the focused window. There is none when no window
    /// of the strip is focused or the focused one is the leftmost.
    pub fn focus_left(&self, focused: Option<Window>) -> (target: Option<Window>)
        ensures
            target == self@.left_neighbour(focused),
    {
        match find_focused(&self.windows, focused) {
            Some(index) => if index > 0 {
                Some(self.windows[index - 1].inner)
            } else {
                None
            },
            None => None,
        }
    }

    /// The window to focus in order to move the focus one place to the right:
    /// the right neighbour of the focused window. There is none when no window
    /// of the strip is focused or the focused one is the rightmost.
    pub fn focus_right(&self, focused: Option<Window>) -> (target: Option<Window>)
        ensures
            target == self@.right_neighbour(focused),
    {
        let count = self.windows.len();
        match find_focused(&self.windows, focused) {
            Some(index) => if index + 1 < count {
                Some(self.windows[index + 1].inner)
            } else {
                None
            },
            None => None,
        }
    }

    /// Exchanges the items at `index` and `index + 1`.
    fn swap_neighbours(&mut self, index: usize)
        requires
            old(self).wf(),
            index + 1 < old(self)@.strip.len(),
        ensures
            final(self).wf(),
            final(self)@ == (TilerView {
                strip: swapped(old(self)@.strip, index as int),
                ..old(self)@
            }),
            handles(final(self)@.strip).to_set() == handles(old(self)@.strip).to_set(),
    {
        proof {
            lemma_swapped_valid(self@.strip, self@.padding, index as int);
        }
        assert(self.windows.len() == self@.strip.len());
        let left = self.windows[index];
        let right = self.windows[index + 1];
        self.windows.set(index, right);
        self.windows.set(index + 1, left);
    }

    /// Moves the focused window one place to the left by exchanging it with
    /// its left neighbour. Nothing changes when no window of the strip is
    /// focused or the focused one is the leftmost.
    pub fn swap_current_left(&mut self, focused: Option<Window>)
        requires
            old(self).wf(),
        ensures
            final(self).wf(),
            final(self)@ == old(self)@.swapped_left(focused),
            handles(final(self)@.strip).to_set() == handles(old(self)@.strip).to_set(),
    {
        match find_focused(&self.windows, focused) {
            Some(index) => if index > 0 {
                self.swap_neighbours(index - 1);
            },
            None => {},
        }
    }

    /// Moves the focused window one place to the right by exchanging it with
    /// its right neighbour. Nothing changes when no window of the strip is
    /// focused or the focused one is the rightmost.
    pub fn swap_current_right(&mut self, focused: Option<Window>)
        requires
            old(self).wf(),
        ensures
            final(self).wf(),
            final(self)@ == old(self)@.swapped_right(focused),
            handles(final(self)@.strip).to_set() == handles(old(self)@.strip).to_set(),
    {
        let count = self.windows.len();
        match find_focused(&self.windows, focused) {
            Some(index) => if index + 1 < count {
                self.swap_neighbours(index);
            },
            None => {},
        }
    }
}

} // verus!
