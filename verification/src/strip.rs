//! The strip as a sequence of items: where its windows lie, and how it follows
//! a snapshot of the managed windows.

use vstd::prelude::*;
use crate::window::Window;

verus! {

/// One window of the strip together with the width it is shown at.
#[derive(Debug, Clone, Copy, PartialEq, Eq, Structural)]
pub struct WindowItem {
    pub inner: Window,
    pub width: i32,
}

impl WindowItem {
    /// The item that shows `inner` at the given width.
    pub fn new(inner: Window, width: i32) -> (item: WindowItem)
        ensures
            item == (WindowItem { inner, width }),
    {
        WindowItem { inner, width }
    }
}

/// The windows of a strip, in order.
pub open spec fn handles(strip: Seq<WindowItem>) -> Seq<Window> {
    strip.map_values(|item: WindowItem| item.inner)
}

/// The length of a strip in pixels: each window with `padding` on both sides.
pub open spec fn extent(strip: Seq<WindowItem>, padding: int) -> int
    decreases strip.len(),
{
    if strip.len() == 0 {
        0
    } else {
        extent(strip.drop_last(), padding) + strip.last().width + 2 * padding
    }
}

/// The logical left edge of the window at `index`: everything before it, then
/// its own left padding.
pub open spec fn position(strip: Seq<WindowItem>, padding: int, index: int) -> int {
    extent(strip.take(index), padding) + padding
}

/// The width given to a window that joins the strip: the screen width divided
/// by one and a half, rounded to the nearest integer.
pub open spec fn initial_width(screen_width: int) -> int {
    (4 * screen_width + 3) / 6
}

/// `initial_width` is the integer nearest to two thirds of the screen width:
/// three times the one differs from twice the other by at most one.
pub proof fn lemma_initial_width_is_nearest(screen_width: int)
    ensures
        -1 <= 3 * initial_width(screen_width) - 2 * screen_width <= 1,
{
}

/// The strip grows by one window's width and two paddings with each window.
pub proof fn lemma_extent_push(strip: Seq<WindowItem>, padding: int, item: WindowItem)
    ensures
        extent(strip.push(item), padding) == extent(strip, padding) + item.width + 2 * padding,
{
    assert(strip.push(item).drop_last() == strip);
}

/// Positions start at `padding`, and each window begins where the one before
/// it ends plus two paddings.
pub proof fn lemma_position_step(strip: Seq<WindowItem>, padding: int, index: int)
    requires
        0 <= index < strip.len(),
    ensures
        position(strip, padding, 0) == padding,
        position(strip, padding, index + 1) == position(strip, padding, index)
            + strip[index].width + 2 * padding,
{
    assert(strip.take(index + 1).drop_last() == strip.take(index));
    assert(strip.take(0).len() == 0);
}

/// Every prefix of a strip of positive widths is at most as long as the strip.
pub proof fn lemma_extent_prefix(strip: Seq<WindowItem>, padding: int, index: int)
    requires
        0 <= padding,
        forall|k: int| 0 <= k < strip.len() ==> strip[k].width > 0,
        0 <= index <= strip.len(),
    ensures
        0 <= extent(strip.take(index), padding) <= extent(strip, padding),
        index < strip.len() ==> extent(strip.take(index), padding) + strip[index].width + 2
            * padding <= extent(strip, padding),
    decreases strip.len() - index, index,
{
    if index == strip.len() {
        assert(strip.take(index) == strip);
    } else {
        lemma_extent_prefix(strip, padding, index + 1);
        assert(strip.take(index + 1).drop_last() == strip.take(index));
    }
    if index > 0 {
        let shorter = strip.take(index);
        lemma_extent_prefix(shorter.drop_last(), padding, index - 1);
        assert(shorter.drop_last().take(index - 1) == shorter.drop_last());
    }
}

/// A strip whose cells are at most `cell` wide each is at most as long as that
/// many cells. The cell of a window is the window with one padding on each
/// side.
pub proof fn lemma_extent_bound(strip: Seq<WindowItem>, padding: int, cell: int)
    requires
        forall|k: int| 0 <= k < strip.len() ==> (#[trigger] strip[k]).width + 2 * padding <= cell,
    ensures
        extent(strip, padding) <= strip.len() * cell,
    decreases strip.len(),
{
    if strip.len() > 0 {
        let front = strip.drop_last();
        assert forall|k: int| 0 <= k < front.len() implies (#[trigger] front[k]).width + 2
            * padding <= cell by {
            assert(front[k] == strip[k]);
        }
        lemma_extent_bound(front, padding, cell);
        assert(strip[strip.len() - 1].width + 2 * padding <= cell);
        assert(front.len() * cell + cell == strip.len() * cell) by (nonlinear_arith)
            requires
                front.len() + 1 == strip.len(),
        ;
    }
}

/// `strip` with the items at `index` and `index + 1` in each other's place.
pub open spec fn swapped(strip: Seq<WindowItem>, index: int) -> Seq<WindowItem> {
    strip.update(index, strip[index + 1]).update(index + 1, strip[index])
}

/// Two neighbours that change places leave the strip as long as it was, with
/// the same windows, none of them twice.
pub proof fn lemma_swapped_valid(strip: Seq<WindowItem>, padding: int, index: int)
    requires
        0 <= index,
        index + 1 < strip.len(),
    ensures
        extent(swapped(strip, index), padding) == extent(strip, padding),
        handles(strip).no_duplicates() ==> handles(swapped(strip, index)).no_duplicates(),
        handles(swapped(strip, index)).to_set() == handles(strip).to_set(),
    decreases strip.len(),
{
    let turned = swapped(strip, index);
    if index + 2 == strip.len() {
        let front = strip.take(index);
        assert(strip.drop_last() == front.push(strip[index]));
        assert(turned.drop_last() == front.push(strip[index + 1]));
        lemma_extent_push(front, padding, strip[index]);
        lemma_extent_push(front, padding, strip[index + 1]);
    } else {
        lemma_swapped_valid(strip.drop_last(), padding, index);
        assert(turned.drop_last() == swapped(strip.drop_last(), index));
    }
    if handles(strip).no_duplicates() {
        assert forall|i: int, j: int| 0 <= i < j < turned.len() implies handles(turned)[i]
            != handles(turned)[j] by {
            let from_i = if i == index {
                index + 1
            } else if i == index + 1 {
                index
            } else {
                i
            };
            let from_j = if j == index {
                index + 1
            } else if j == index + 1 {
                index
            } else {
                j
            };
            assert(handles(turned)[i] == handles(strip)[from_i]);
            assert(handles(turned)[j] == handles(strip)[from_j]);
        }
    }
    assert forall|window: Window| handles(turned).contains(window) <==> handles(strip).contains(
        window,
    ) by {
        if handles(turned).contains(window) {
            let i = choose|i: int| 0 <= i < turned.len() && handles(turned)[i] == window;
            let from = if i == index {
                index + 1
            } else if i == index + 1 {
                index
            } else {
                i
            };
            assert(handles(strip)[from] == window);
        }
        if handles(strip).contains(window) {
            let i = choose|i: int| 0 <= i < strip.len() && handles(strip)[i] == window;
            let to = if i == index {
                index + 1
            } else if i == index + 1 {
                index
            } else {
                i
            };
            assert(handles(turned)[to] == window);
        }
    }
    assert(handles(turned).to_set() =~= handles(strip).to_set());
}

/// The place of the focused window in a strip: the first item whose window is
/// `focused`, if there is one.
pub open spec fn focused_index(strip: Seq<WindowItem>, focused: Option<Window>) -> Option<int> {
    match focused {
        Some(window) => handles(strip).index_of_first(window),
        None => None,
    }
}

/// Whether `first` occurs somewhere before `second` in `items`.
pub open spec fn precedes<A>(items: Seq<A>, first: A, second: A) -> bool {
    exists|i: int, j: int|
        #![trigger items[i], items[j]]
        0 <= i < j < items.len() && items[i] == first && items[j] == second
}

/// What filtering does to a sequence: it keeps exactly the items that pass,
/// each once and in their old order.
pub proof fn lemma_filter_keeps_order<A>(items: Seq<A>, keep: spec_fn(A) -> bool)
    ensures
        items.filter(keep).len() <= items.len(),
        forall|k: int|
            0 <= k < items.filter(keep).len() ==> keep(#[trigger] items.filter(keep)[k])
                && items.contains(items.filter(keep)[k]),
        forall|k: int|
            0 <= k < items.len() && keep(items[k]) ==> items.filter(keep).contains(
                #[trigger] items[k],
            ),
        forall|x: int, y: int|
            0 <= x < y < items.filter(keep).len() ==> precedes(
                items,
                #[trigger] items.filter(keep)[x],
                #[trigger] items.filter(keep)[y],
            ),
        items.filter(keep).len() == items.len() ==> items.filter(keep) == items,
    decreases items.len(),
{
    reveal(Seq::filter);
    let kept = items.filter(keep);
    if items.len() > 0 {
        let front = items.drop_last();
        let front_kept = front.filter(keep);
        lemma_filter_keeps_order(front, keep);
        assert forall|k: int| 0 <= k < kept.len() implies keep(#[trigger] kept[k])
            && items.contains(kept[k]) by {
            if k < front_kept.len() {
                assert(front.contains(front_kept[k]));
                let i = choose|i: int| 0 <= i < front.len() && front[i] == front_kept[k];
                assert(items[i] == kept[k]);
            } else {
                assert(items[items.len() - 1] == kept[k]);
            }
        }
        assert forall|k: int| 0 <= k < items.len() && keep(items[k]) implies kept.contains(
            #[trigger] items[k],
        ) by {
            if k < front.len() {
                assert(front[k] == items[k]);
                assert(front_kept.contains(front[k]));
                let x = choose|x: int| 0 <= x < front_kept.len() && front_kept[x] == front[k];
                assert(kept[x] == items[k]);
            } else {
                assert(kept[kept.len() - 1] == items[k]);
            }
        }
        assert forall|x: int, y: int| 0 <= x < y < kept.len() implies precedes(
            items,
            #[trigger] kept[x],
            #[trigger] kept[y],
        ) by {
            if y < front_kept.len() {
                assert(precedes(front, front_kept[x], front_kept[y]));
                let (i, j) = choose|i: int, j: int|
                    #![trigger front[i], front[j]]
                    0 <= i < j < front.len() && front[i] == front_kept[x] && front[j]
                        == front_kept[y];
                assert(items[i] == kept[x] && items[j] == kept[y]);
            } else {
                assert(front.contains(front_kept[x]));
                let i = choose|i: int| 0 <= i < front.len() && front[i] == front_kept[x];
                assert(items[i] == kept[x] && items[items.len() - 1] == kept[y]);
            }
        }
        if kept.len() == items.len() {
            assert(front_kept == front);
            assert(kept == items);
        }
    }
}

/// The test that keeps the items whose window belongs to `snapshot`.
pub open spec fn in_snapshot(snapshot: Set<Window>) -> spec_fn(WindowItem) -> bool {
    |item: WindowItem| snapshot.contains(item.inner)
}

/// The test that keeps the windows that `strip` does not hold.
pub open spec fn unknown_to(strip: Seq<WindowItem>) -> spec_fn(Window) -> bool {
    |window: Window| !handles(strip).contains(window)
}

/// The items of `strip` whose window is still in `snapshot`, in their old
/// order.
pub open spec fn survivors(strip: Seq<WindowItem>, snapshot: Set<Window>) -> Seq<WindowItem> {
    strip.filter(in_snapshot(snapshot))
}

/// The windows of `snapshot` that `strip` does not hold yet, in the order of
/// the snapshot.
pub open spec fn arrivals(strip: Seq<WindowItem>, snapshot: Seq<Window>) -> Seq<Window> {
    snapshot.filter(unknown_to(strip))
}

/// One item of the given width for each of `windows`.
pub open spec fn newcomers(windows: Seq<Window>, width: int) -> Seq<WindowItem> {
    windows.map_values(|window: Window| WindowItem { inner: window, width: width as i32 })
}

/// The strip that follows `strip` once `snapshot` has been seen. An empty
/// snapshot empties the strip. Otherwise the windows that are gone leave,
/// those that stay keep their order, and the new ones join at the right end
/// with the given width.
pub open spec fn reconciled(strip: Seq<WindowItem>, snapshot: Seq<Window>, width: int) -> Seq<
    WindowItem,
> {
    if snapshot.len() == 0 {
        Seq::empty()
    } else {
        survivors(strip, snapshot.to_set()) + newcomers(arrivals(strip, snapshot), width)
    }
}

/// Whether `snapshot` left the strip as it was: no item was removed, and the
/// snapshot has as many windows as the strip.
pub open spec fn same_membership(strip: Seq<WindowItem>, snapshot: Seq<Window>) -> bool {
    let kept = survivors(strip, snapshot.to_set());
    snapshot.len() == kept.len() && kept.len() == strip.len()
}

/// Keeping the survivors of a strip that grew by one item.
pub proof fn lemma_survivors_push(strip: Seq<WindowItem>, item: WindowItem, snapshot: Set<Window>)
    ensures
        survivors(strip.push(item), snapshot) == if snapshot.contains(item.inner) {
            survivors(strip, snapshot).push(item)
        } else {
            survivors(strip, snapshot)
        },
{
    reveal(Seq::filter);
    assert(strip.push(item).drop_last() == strip);
}

/// Finding the arrivals of a snapshot that grew by one window.
pub proof fn lemma_arrivals_push(strip: Seq<WindowItem>, snapshot: Seq<Window>, window: Window)
    ensures
        arrivals(strip, snapshot.push(window)) == if handles(strip).contains(window) {
            arrivals(strip, snapshot)
        } else {
            arrivals(strip, snapshot).push(window)
        },
{
    reveal(Seq::filter);
    assert(snapshot.push(window).drop_last() == snapshot);
}

/// A reconciled strip is a strip again: it holds no window twice and all its
/// widths are positive.
pub proof fn lemma_reconciled_valid(strip: Seq<WindowItem>, snapshot: Seq<Window>, width: int)
    requires
        handles(strip).no_duplicates(),
        snapshot.no_duplicates(),
        forall|k: int| 0 <= k < strip.len() ==> (#[trigger] strip[k]).width > 0,
        0 < width <= i32::MAX,
    ensures
        handles(reconciled(strip, snapshot, width)).no_duplicates(),
        forall|k: int|
            0 <= k < reconciled(strip, snapshot, width).len() ==> (#[trigger] reconciled(
                strip,
                snapshot,
                width,
            )[k]).width > 0,
{
    let result = reconciled(strip, snapshot, width);
    let kept = survivors(strip, snapshot.to_set());
    let fresh = arrivals(strip, snapshot);
    lemma_filter_keeps_order(strip, in_snapshot(snapshot.to_set()));
    lemma_filter_keeps_order(snapshot, unknown_to(strip));
    if snapshot.len() > 0 {
        assert forall|k: int| 0 <= k < result.len() implies (#[trigger] result[k]).width > 0 by {
            if k < kept.len() {
                assert(strip.contains(kept[k]));
            }
        }
        assert forall|i: int, j: int| 0 <= i < j < result.len() implies handles(result)[i]
            != handles(result)[j] by {
            if j < kept.len() {
                assert(precedes(strip, kept[i], kept[j]));
                let (a, b) = choose|a: int, b: int|
                    #![trigger strip[a], strip[b]]
                    0 <= a < b < strip.len() && strip[a] == kept[i] && strip[b] == kept[j];
                assert(handles(strip)[a] != handles(strip)[b]);
            } else if i < kept.len() {
                assert(strip.contains(kept[i]));
                let a = choose|a: int| 0 <= a < strip.len() && strip[a] == kept[i];
                assert(handles(strip)[a] == kept[i].inner);
                assert(unknown_to(strip)(fresh[j - kept.len()]));
            } else {
                assert(precedes(snapshot, fresh[i - kept.len()], fresh[j - kept.len()]));
            }
        }
    }
}

/// A reconciled strip has at most as many items as the old strip and the
/// snapshot together, and each of them is an item of the old strip or has the
/// given width.
pub proof fn lemma_reconciled_size(strip: Seq<WindowItem>, snapshot: Seq<Window>, width: int)
    requires
        i32::MIN <= width <= i32::MAX,
    ensures
        reconciled(strip, snapshot, width).len() <= strip.len() + snapshot.len(),
        forall|k: int|
            0 <= k < reconciled(strip, snapshot, width).len() ==> strip.contains(
                #[trigger] reconciled(strip, snapshot, width)[k],
            ) || reconciled(strip, snapshot, width)[k].width == width,
{
    lemma_filter_keeps_order(strip, in_snapshot(snapshot.to_set()));
    lemma_filter_keeps_order(snapshot, unknown_to(strip));
}

/// After reconciling, the strip holds exactly the windows of the snapshot.
pub proof fn lemma_reconciled_members(strip: Seq<WindowItem>, snapshot: Seq<Window>, width: int)
    ensures
        handles(reconciled(strip, snapshot, width)).to_set() == snapshot.to_set(),
{
    let result = reconciled(strip, snapshot, width);
    let kept = survivors(strip, snapshot.to_set());
    let fresh = arrivals(strip, snapshot);
    lemma_filter_keeps_order(strip, in_snapshot(snapshot.to_set()));
    lemma_filter_keeps_order(snapshot, unknown_to(strip));
    assert forall|window: Window| handles(result).contains(window) implies snapshot.contains(
        window,
    ) by {
        let k = choose|k: int| 0 <= k < result.len() && handles(result)[k] == window;
        if k < kept.len() {
            assert(in_snapshot(snapshot.to_set())(kept[k]));
        } else {
            assert(snapshot.contains(fresh[k - kept.len()]));
        }
    }
    assert forall|window: Window| snapshot.contains(window) implies handles(result).contains(
        window,
    ) by {
        let k = choose|k: int| 0 <= k < snapshot.len() && snapshot[k] == window;
        if handles(strip).contains(window) {
            let i = choose|i: int| 0 <= i < strip.len() && handles(strip)[i] == window;
            assert(in_snapshot(snapshot.to_set())(strip[i]));
            assert(kept.contains(strip[i]));
            let x = choose|x: int| 0 <= x < kept.len() && kept[x] == strip[i];
            assert(handles(result)[x] == window);
        } else {
            assert(unknown_to(strip)(snapshot[k]));
            assert(fresh.contains(snapshot[k]));
            let y = choose|y: int| 0 <= y < fresh.len() && fresh[y] == window;
            assert(handles(result)[kept.len() + y] == window);
        }
    }
    assert(handles(result).to_set() =~= snapshot.to_set());
}

/// Reconciling keeps the order of the windows that stay: of two windows that
/// are in the snapshot, the one that came first in the old strip comes first
/// in the new one.
pub proof fn lemma_reconciled_keeps_order(
    strip: Seq<WindowItem>,
    snapshot: Seq<Window>,
    width: int,
    first: Window,
    second: Window,
)
    requires
        handles(strip).no_duplicates(),
        snapshot.contains(first),
        snapshot.contains(second),
        precedes(handles(strip), first, second),
    ensures
        precedes(handles(reconciled(strip, snapshot, width)), first, second),
{
    let result = reconciled(strip, snapshot, width);
    let kept = survivors(strip, snapshot.to_set());
    lemma_filter_keeps_order(strip, in_snapshot(snapshot.to_set()));
    let (i, j) = choose|i: int, j: int|
        #![trigger handles(strip)[i], handles(strip)[j]]
        0 <= i < j < strip.len() && handles(strip)[i] == first && handles(strip)[j] == second;
    assert(in_snapshot(snapshot.to_set())(strip[i]));
    assert(in_snapshot(snapshot.to_set())(strip[j]));
    assert(kept.contains(strip[i]));
    assert(kept.contains(strip[j]));
    let x = choose|x: int| 0 <= x < kept.len() && kept[x] == strip[i];
    let y = choose|y: int| 0 <= y < kept.len() && kept[y] == strip[j];
    assert(handles(strip)[i] != handles(strip)[j]);
    if y < x {
        assert(precedes(strip, kept[y], kept[x]));
        let (a, b) = choose|a: int, b: int|
            #![trigger strip[a], strip[b]]
            0 <= a < b < strip.len() && strip[a] == kept[y] && strip[b] == kept[x];
        assert(handles(strip)[a] == handles(strip)[j]);
        assert(handles(strip)[b] == handles(strip)[i]);
        assert(false);
    }
    assert(snapshot.len() > 0);
    assert(handles(result)[x] == first && handles(result)[y] == second);
}

/// The windows that are new to the strip stand behind all those that stayed.
pub proof fn lemma_newcomers_at_tail(strip: Seq<WindowItem>, snapshot: Seq<Window>, width: int)
    ensures
        survivors(strip, snapshot.to_set()).len() <= strip.len(),
        forall|k: int|
            0 <= k < reconciled(strip, snapshot, width).len() ==> (handles(strip).contains(
                (#[trigger] reconciled(strip, snapshot, width)[k]).inner,
            ) <==> k < survivors(strip, snapshot.to_set()).len()),
{
    let result = reconciled(strip, snapshot, width);
    let kept = survivors(strip, snapshot.to_set());
    let fresh = arrivals(strip, snapshot);
    lemma_filter_keeps_order(strip, in_snapshot(snapshot.to_set()));
    lemma_filter_keeps_order(snapshot, unknown_to(strip));
    assert forall|k: int| 0 <= k < result.len() implies (handles(strip).contains(
        (#[trigger] result[k]).inner,
    ) <==> k < kept.len()) by {
        if k < kept.len() {
            assert(strip.contains(kept[k]));
            let a = choose|a: int| 0 <= a < strip.len() && strip[a] == kept[k];
            assert(handles(strip)[a] == kept[k].inner);
        } else {
            assert(unknown_to(strip)(fresh[k - kept.len()]));
        }
    }
}

/// A snapshot that removes nothing and is as large as the strip leaves the
/// strip as it is.
pub proof fn lemma_same_membership(strip: Seq<WindowItem>, snapshot: Seq<Window>, width: int)
    requires
        handles(strip).no_duplicates(),
        snapshot.no_duplicates(),
        same_membership(strip, snapshot),
    ensures
        reconciled(strip, snapshot, width) == strip,
{
    let kept = survivors(strip, snapshot.to_set());
    let fresh = arrivals(strip, snapshot);
    lemma_filter_keeps_order(strip, in_snapshot(snapshot.to_set()));
    lemma_filter_keeps_order(snapshot, unknown_to(strip));
    if fresh.len() > 0 {
        let held = handles(strip).to_set();
        let seen = snapshot.to_set();
        assert forall|window: Window| held.contains(window) implies seen.contains(window) by {
            let a = choose|a: int| 0 <= a < strip.len() && handles(strip)[a] == window;
            assert(in_snapshot(seen)(kept[a]));
        }
        handles(strip).unique_seq_to_set();
        snapshot.unique_seq_to_set();
        vstd::seq_lib::seq_to_set_is_finite(handles(strip));
        vstd::seq_lib::seq_to_set_is_finite(snapshot);
        vstd::set_lib::lemma_subset_equality(held, seen);
        assert(snapshot.contains(fresh[0]));
        assert(seen.contains(fresh[0]));
        assert(unknown_to(strip)(fresh[0]));
        assert(false);
    }
    assert(reconciled(strip, snapshot, width) =~= strip);
}

} // verus!
