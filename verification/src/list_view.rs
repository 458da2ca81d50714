//! The mathematical model of a filterable list: what each operation of
//! [`ListManager`](crate::list::ListManager) does, as a function from state to
//! state, and what holds of those functions.

use vstd::prelude::*;

verus! {

/// The mathematical model of a [`ListManager`].
pub struct ListView<T> {
    /// All items, in source order.
    pub items: Seq<T>,
    /// The items that the current filter retains.
    pub filtered_items: Seq<T>,
    /// For each retained item, its position in `items`.
    pub filtered_indices: Seq<usize>,
    /// The selected position in the active view.
    pub selected: Option<nat>,
    /// The first visible position in the active view.
    pub offset: nat,
}

/// `a - b`, or zero where `b` exceeds `a`.
pub open spec fn minus(a: nat, b: nat) -> nat {
    if a >= b {
        (a - b) as nat
    } else {
        0
    }
}

/// The smaller of two naturals.
pub open spec fn least(a: nat, b: nat) -> nat {
    if a <= b {
        a
    } else {
        b
    }
}

/// A position as the model holds it.
pub open spec fn position(index: Option<usize>) -> Option<nat> {
    match index {
        Some(i) => Some(i as nat),
        None => None,
    }
}

impl<T> ListView<T> {
    /// A list without items, without a filter and without a selection.
    pub open spec fn empty() -> Self {
        ListView {
            items: Seq::empty(),
            filtered_items: Seq::empty(),
            filtered_indices: Seq::empty(),
            selected: None,
            offset: 0,
        }
    }

    /// Whether a non-empty filtered view is present.
    pub open spec fn is_filtered(self) -> bool {
        self.filtered_items.len() > 0
    }

    /// The active view: the filtered view where one is present and non-empty,
    /// else all items.
    pub open spec fn active(self) -> Seq<T> {
        if self.is_filtered() {
            self.filtered_items
        } else {
            self.items
        }
    }

    /// The selected position, or zero where nothing is selected.
    pub open spec fn cursor(self) -> nat {
        match self.selected {
            Some(i) => i,
            None => 0,
        }
    }

    /// The last position of the active view (zero where it is empty).
    pub open spec fn last(self) -> nat {
        minus(self.active().len(), 1)
    }

    /// The largest offset that still fills a page of `page_size` rows.
    pub open spec fn max_offset(self, page_size: nat) -> nat {
        minus(self.active().len(), page_size)
    }

    /// The selected item, where the selection lies in the active view.
    pub open spec fn selected_item(self) -> Option<T> {
        match self.selected {
            Some(i) if i < self.active().len() => Some(self.active()[i as int]),
            _ => None,
        }
    }

    /// The selection is either absent or a position of the active view.
    pub open spec fn selection_in_range(self) -> bool {
        match self.selected {
            Some(i) => i < self.active().len(),
            None => true,
        }
    }

    /// The filtered view is consistent: one original position per retained
    /// item, strictly increasing, each within `items`.
    pub open spec fn filter_wf(self) -> bool {
        &&& self.filtered_indices.len() == self.filtered_items.len()
        &&& forall|i: int|
            0 <= i < self.filtered_indices.len() ==> (#[trigger] self.filtered_indices[i])
                < self.items.len()
        &&& forall|i: int, j: int|
            0 <= i < j < self.filtered_indices.len() ==> (#[trigger] self.filtered_indices[i])
                < (#[trigger] self.filtered_indices[j])
    }

    /// The position in `items` that an active position stands for: the stored
    /// mapping while filtered, the position itself otherwise.
    pub open spec fn original_index(self, index: nat) -> nat {
        if self.is_filtered() && index < self.filtered_indices.len() {
            self.filtered_indices[index as int] as nat
        } else {
            index
        }
    }

    /// The state after `select(index)`.
    pub open spec fn select(self, index: Option<nat>) -> Self {
        ListView {
            selected: index,
            offset: if index is None {
                0
            } else {
                self.offset
            },
            ..self
        }
    }

    /// The state with the offset replaced.
    pub open spec fn set_offset(self, offset: nat) -> Self {
        ListView { offset, ..self }
    }

    /// The state after the viewport has followed the selection: where the
    /// selection lies above the viewport the offset becomes the selection,
    /// where it lies below the viewport the selection becomes the last row.
    pub open spec fn follow_selection(self, page_size: nat) -> Self {
        match self.selected {
            Some(s) => if s < self.offset {
                self.set_offset(s)
            } else if s >= self.offset + page_size {
                self.set_offset(minus(s, minus(page_size, 1)))
            } else {
                self
            },
            None => self,
        }
    }

    /// The state after `move_up(page_size)`.
    pub open spec fn move_up(self, page_size: nat) -> Self {
        if self.cursor() > 0 {
            self.select(Some((self.cursor() - 1) as nat)).follow_selection(page_size)
        } else {
            self
        }
    }

    /// The state after `move_down(page_size)`.
    pub open spec fn move_down(self, page_size: nat) -> Self {
        if self.cursor() < self.last() {
            self.select(Some(self.cursor() + 1)).follow_selection(page_size)
        } else {
            self
        }
    }

    /// The state after the offset has moved to `offset` by a page operation:
    /// the selection keeps its distance from the top of the viewport and is
    /// clamped to the last position. An empty view keeps its selection.
    pub open spec fn paged_to(self, offset: nat) -> Self {
        if self.active().len() == 0 {
            self.set_offset(offset)
        } else {
            ListView {
                selected: Some(least(offset + minus(self.cursor(), self.offset), self.last())),
                offset,
                ..self
            }
        }
    }

    /// The state after `page_up(page_size)`.
    pub open spec fn page_up(self, page_size: nat) -> Self {
        self.paged_to(least(minus(self.offset, page_size), self.max_offset(page_size)))
    }

    /// The state after `page_down(page_size)`.
    pub open spec fn page_down(self, page_size: nat) -> Self {
        self.paged_to(least(self.offset + page_size, self.max_offset(page_size)))
    }

    /// The state with `index` (clamped to the last position) selected; an
    /// empty view is left as it is.
    pub open spec fn select_clamped(self, index: nat) -> Self {
        if self.active().len() == 0 {
            self
        } else {
            ListView { selected: Some(least(index, self.last())), ..self }
        }
    }

    /// The state after `go_to_top()`.
    pub open spec fn go_to_top(self) -> Self {
        self.select_clamped(0).set_offset(if self.active().len() == 0 {
            self.offset
        } else {
            0
        })
    }

    /// The state after `go_to_bottom()`.
    pub open spec fn go_to_bottom(self) -> Self {
        self.select_clamped(self.last())
    }

    /// The state after `select_middle_of_screen(page_size)`.
    pub open spec fn select_middle_of_screen(self, page_size: nat) -> Self {
        self.select_clamped(self.offset + page_size / 2)
    }

    /// The state after `select_top_of_screen()`.
    pub open spec fn select_top_of_screen(self) -> Self {
        self.select_clamped(self.offset)
    }

    /// The state after `select_bottom_of_screen(page_size)`.
    pub open spec fn select_bottom_of_screen(self, page_size: nat) -> Self {
        self.select_clamped(minus(self.offset + page_size, 1))
    }

    /// The state after `scroll_selected_to_top()`.
    pub open spec fn scroll_selected_to_top(self) -> Self {
        match self.selected {
            Some(s) => self.set_offset(s),
            None => self,
        }
    }

    /// The state after `scroll_selected_to_center(page_size)`.
    pub open spec fn scroll_selected_to_center(self, page_size: nat) -> Self {
        match self.selected {
            Some(s) => self.set_offset(
                least(minus(s, page_size / 2), self.max_offset(page_size)),
            ),
            None => self,
        }
    }

    /// The state after `scroll_selected_to_bottom(page_size)`.
    pub open spec fn scroll_selected_to_bottom(self, page_size: nat) -> Self {
        match self.selected {
            Some(s) => self.set_offset(
                least(minus(s, minus(page_size, 1)), self.max_offset(page_size)),
            ),
            None => self,
        }
    }
}

/// The last position of `kept` whose entry is at most `origin`, if there is
/// one. In a strictly increasing `kept` that is the position of `origin`
/// itself where it is an entry, and else that of its nearest predecessor.
pub open spec fn last_at_most(kept: Seq<usize>, origin: nat) -> Option<nat>
    decreases kept.len(),
{
    if kept.len() == 0 {
        None
    } else if kept.last() <= origin {
        Some((kept.len() - 1) as nat)
    } else {
        last_at_most(kept.drop_last(), origin)
    }
}

/// Where the selection lands in a non-empty filtered view `kept` when the
/// item at `origin` was selected before: on `origin` itself, else on its
/// nearest predecessor, else on the first entry.
pub open spec fn landing(kept: Seq<usize>, origin: nat) -> nat {
    match last_at_most(kept, origin) {
        Some(p) => p,
        None => 0,
    }
}

/// `kept` lists, in increasing order, exactly the positions of `items` on
/// which `predicate` answered `true`.
pub open spec fn retained_by<T, F: Fn(&T) -> bool>(
    items: Seq<T>,
    predicate: F,
    kept: Seq<usize>,
) -> bool {
    &&& forall|p: int| 0 <= p < kept.len() ==> (#[trigger] kept[p]) < items.len()
    &&& increasing(kept)
    &&& forall|p: int|
        0 <= p < kept.len() ==> call_ensures(
            predicate,
            (&items[(#[trigger] kept[p]) as int],),
            true,
        )
    &&& forall|j: int|
        0 <= j < items.len() && !kept.contains(j as usize) ==> call_ensures(
            predicate,
            (&#[trigger] items[j],),
            false,
        )
}

impl<T> ListView<T> {
    /// The position in `items` of the selected entry.
    pub open spec fn selected_origin(self) -> Option<nat> {
        match self.selected {
            Some(i) => Some(self.original_index(i)),
            None => None,
        }
    }

    /// The state after a filter has been rebuilt: `kept` and `copies` are the
    /// new filtered view, the selection is resolved against it, and the
    /// viewport is back at the top.
    pub open spec fn refilter(self, kept: Seq<usize>, copies: Seq<T>, preserve: bool) -> Self {
        ListView {
            items: self.items,
            filtered_items: copies,
            filtered_indices: kept,
            selected: if kept.len() == 0 {
                None
            } else {
                match self.selected_origin() {
                    Some(origin) if preserve => Some(landing(kept, origin)),
                    _ => Some(0),
                }
            },
            offset: 0,
        }
    }

    /// The state after the filter has been dropped.
    pub open spec fn unfilter(self, preserve: bool) -> Self {
        ListView {
            items: self.items,
            filtered_items: Seq::empty(),
            filtered_indices: Seq::empty(),
            selected: if self.items.len() == 0 {
                None
            } else {
                match self.selected_origin() {
                    Some(origin) if preserve && origin < self.items.len() => Some(origin),
                    _ => Some(0),
                }
            },
            offset: 0,
        }
    }
}

/// The positions below `n` whose item `matches`, in increasing order.
pub open spec fn positions<T>(items: Seq<T>, matches: spec_fn(int, T) -> bool, n: nat) -> Seq<
    usize,
>
    decreases n,
{
    if n == 0 {
        Seq::empty()
    } else {
        let rest = positions(items, matches, (n - 1) as nat);
        if matches(n - 1, items[n - 1]) {
            rest.push((n - 1) as usize)
        } else {
            rest
        }
    }
}

/// The items at the positions `kept`.
pub open spec fn picked<T>(items: Seq<T>, kept: Seq<usize>) -> Seq<T> {
    Seq::new(kept.len(), |p: int| items[kept[p] as int])
}

impl<T> ListView<T> {
    /// The state after a filter that retains exactly the items that `matches`
    /// accepts, each with its position.
    pub open spec fn filtered_by(self, matches: spec_fn(int, T) -> bool, preserve: bool) -> Self {
        let kept = positions(self.items, matches, self.items.len());
        self.refilter(kept, picked(self.items, kept), preserve)
    }

    /// The state after the items have been replaced: nothing scrolled, and
    /// the first entry of the active view selected, where there is one.
    pub open spec fn reloaded(self, items: Seq<T>) -> Self {
        let fresh = ListView { items, selected: None, offset: 0, ..self };
        if fresh.active().len() > 0 {
            fresh.select(Some(0))
        } else {
            fresh
        }
    }

    /// The state with no items left; the rest is as it was.
    pub open spec fn emptied(self) -> Self {
        ListView { items: Seq::empty(), ..self }
    }
}

impl<T: Clone> ListView<T> {
    /// Each retained item is a clone of the item at its original position.
    pub open spec fn mirrors_items(self) -> bool {
        forall|i: int|
            0 <= i < self.filtered_indices.len() && i < self.filtered_items.len() ==> cloned(
                self.items[self.filtered_indices[i] as int],
                #[trigger] self.filtered_items[i],
            )
    }
}

/// `kept` is strictly increasing.
pub open spec fn increasing(kept: Seq<usize>) -> bool {
    forall|p: int, q: int| 0 <= p < q < kept.len() ==> (#[trigger] kept[p]) < (#[trigger] kept[q])
}

/// What `last_at_most` finds: the last position whose entry is at most
/// `origin`, and nothing where every entry is greater.
pub proof fn lemma_last_at_most(kept: Seq<usize>, origin: nat)
    ensures
        match last_at_most(kept, origin) {
            Some(p) => {
                &&& p < kept.len()
                &&& kept[p as int] <= origin
                &&& forall|q: int| p < q < kept.len() ==> kept[q] > origin
            },
            None => forall|q: int| 0 <= q < kept.len() ==> kept[q] > origin,
        },
    decreases kept.len(),
{
    if kept.len() > 0 && kept.last() > origin {
        lemma_last_at_most(kept.drop_last(), origin);
        let rest = kept.drop_last();
        assert forall|q: int| 0 <= q < kept.len() - 1 implies kept[q] == rest[q] by {}
        match last_at_most(kept, origin) {
            Some(p) => {
                assert forall|q: int| p < q < kept.len() implies kept[q] > origin by {
                    if q < kept.len() - 1 {
                        assert(rest[q] > origin);
                    }
                }
            },
            None => {
                assert forall|q: int| 0 <= q < kept.len() implies kept[q] > origin by {
                    if q < kept.len() - 1 {
                        assert(rest[q] > origin);
                    }
                }
            },
        }
    }
}

/// A strictly increasing list of positions that holds exactly the positions
/// below `n` whose item `matches` is the list that `positions` gives.
pub proof fn lemma_positions_unique<T>(
    items: Seq<T>,
    kept: Seq<usize>,
    matches: spec_fn(int, T) -> bool,
    n: nat,
)
    requires
        n <= usize::MAX,
        increasing(kept),
        forall|p: int| 0 <= p < kept.len() ==> (#[trigger] kept[p]) < n,
        forall|p: int|
            0 <= p < kept.len() ==> matches((#[trigger] kept[p]) as int, items[kept[p] as int]),
        forall|j: int|
            0 <= j < n && !kept.contains(j as usize) ==> !#[trigger] matches(j, items[j]),
    ensures
        kept == positions(items, matches, n),
    decreases n,
{
    if n == 0 {
        if kept.len() > 0 {
            assert(kept[0] < n);
        }
        assert(kept =~= positions(items, matches, n));
    } else {
        let last = (n - 1) as int;
        if matches(last, items[last]) {
            assert(kept.contains(last as usize));
            let p = choose|p: int| 0 <= p < kept.len() && kept[p] == last as usize;
            if p < kept.len() - 1 {
                assert(kept[p] < kept[kept.len() - 1]);
                assert(kept[kept.len() - 1] < n);
            }
            let rest = kept.drop_last();
            assert forall|q: int| 0 <= q < rest.len() implies (#[trigger] rest[q]) < n - 1 by {
                assert(kept[q] < kept[kept.len() - 1]);
            }
            assert forall|j: int|
                0 <= j < n - 1 && !rest.contains(j as usize) implies !#[trigger] matches(
                j,
                items[j],
            ) by {
                if kept.contains(j as usize) {
                    let q = choose|q: int| 0 <= q < kept.len() && kept[q] == j as usize;
                    assert(rest[q] == j as usize);
                }
            }
            assert forall|q: int| 0 <= q < rest.len() implies matches(
                (#[trigger] rest[q]) as int,
                items[rest[q] as int],
            ) by {
                assert(rest[q] == kept[q]);
            }
            assert forall|a: int, b: int| 0 <= a < b < rest.len() implies (#[trigger] rest[a])
                < (#[trigger] rest[b]) by {
                assert(kept[a] < kept[b]);
            }
            lemma_positions_unique(items, rest, matches, (n - 1) as nat);
            assert(kept =~= rest.push(last as usize));
        } else {
            assert forall|q: int| 0 <= q < kept.len() implies (#[trigger] kept[q]) < n - 1 by {
                if kept[q] == last {
                    assert(matches(kept[q] as int, items[kept[q] as int]));
                }
            }
            lemma_positions_unique(items, kept, matches, (n - 1) as nat);
        }
    }
}

/// Where `predicate` answers as `matches` says, the positions that it
/// retains are those of the items that match.
pub proof fn lemma_retained_positions<T, F: Fn(&T) -> bool>(
    items: Seq<T>,
    predicate: F,
    kept: Seq<usize>,
    matches: spec_fn(int, T) -> bool,
)
    requires
        items.len() <= usize::MAX,
        retained_by(items, predicate, kept),
        forall|i: int, x: T, answer: bool|
            #![trigger call_ensures(predicate, (&x,), answer), matches(i, x)]
            call_ensures(predicate, (&x,), answer) ==> answer == matches(i, x),
    ensures
        kept == positions(items, matches, items.len()),
{
    assert forall|p: int| 0 <= p < kept.len() implies matches(
        (#[trigger] kept[p]) as int,
        items[kept[p] as int],
    ) by {
        assert(call_ensures(predicate, (&items[kept[p] as int],), true));
    }
    assert forall|j: int|
        0 <= j < items.len() && !kept.contains(j as usize) implies !#[trigger] matches(
        j,
        items[j],
    ) by {
        assert(call_ensures(predicate, (&items[j],), false));
    }
    lemma_positions_unique(items, kept, matches, items.len());
}

/// The list that `positions` gives is strictly increasing, lies below `n`,
/// and holds exactly the positions whose item `matches`.
pub proof fn lemma_positions<T>(items: Seq<T>, matches: spec_fn(int, T) -> bool, n: nat)
    requires
        n <= usize::MAX,
    ensures
        increasing(positions(items, matches, n)),
        positions(items, matches, n).len() <= n,
        forall|p: int|
            0 <= p < positions(items, matches, n).len() ==> {
                let at = #[trigger] positions(items, matches, n)[p];
                at < n && matches(at as int, items[at as int])
            },
        forall|j: int|
            0 <= j < n && #[trigger] matches(j, items[j]) ==> positions(items, matches, n).contains(
                j as usize,
            ),
    decreases n,
{
    if n > 0 {
        let rest = positions(items, matches, (n - 1) as nat);
        let all = positions(items, matches, n);
        lemma_positions(items, matches, (n - 1) as nat);
        assert forall|j: int| 0 <= j < n && #[trigger] matches(j, items[j]) implies all.contains(
            j as usize,
        ) by {
            if j < n - 1 {
                assert(rest.contains(j as usize));
                let q = choose|q: int| 0 <= q < rest.len() && rest[q] == j as usize;
                assert(all[q] == j as usize);
            } else {
                assert(all[all.len() - 1] == j as usize);
            }
        }
    }
}

/// Index mapping: where the filtered view is consistent and mirrors the
/// items, and cloning an item yields an equal item, every retained item
/// equals the item at its original position, and those positions increase
/// strictly.
pub proof fn lemma_filtered_items_are_originals<T: Clone>(view: ListView<T>)
    requires
        view.filter_wf(),
        view.mirrors_items(),
        forall|a: T, b: T| #[trigger] cloned(a, b) ==> a == b,
    ensures
        increasing(view.filtered_indices),
        forall|i: int|
            0 <= i < view.filtered_items.len() ==> #[trigger] view.filtered_items[i]
                == view.items[view.filtered_indices[i] as int],
{
}

/// Selection continuity: where the item that was selected is retained by the
/// new filter, it stays selected.
pub proof fn lemma_selection_continuity<T>(
    view: ListView<T>,
    kept: Seq<usize>,
    copies: Seq<T>,
    origin: nat,
)
    requires
        increasing(kept),
        copies.len() == kept.len(),
        view.selected_origin() == Some(origin),
        exists|p: int| 0 <= p < kept.len() && kept[p] == origin,
    ensures
        view.refilter(kept, copies, true).selected_origin() == Some(origin),
{
    lemma_last_at_most(kept, origin);
    let p = choose|p: int| 0 <= p < kept.len() && kept[p] == origin;
    let found = last_at_most(kept, origin)->0 as int;
    if found < p {
        assert(kept[p] > origin);
    }
    if p < found {
        assert(kept[p] < kept[found]);
    }
}

/// Selection fallback: where the item that was selected is not retained by
/// the new filter, the selection moves to the retained item with the greatest
/// original position before it, to the first retained item where none lies
/// before it, and to nothing where nothing is retained.
pub proof fn lemma_selection_fallback<T>(
    view: ListView<T>,
    kept: Seq<usize>,
    copies: Seq<T>,
    origin: nat,
)
    requires
        increasing(kept),
        view.selected_origin() == Some(origin),
        forall|p: int| 0 <= p < kept.len() ==> kept[p] != origin,
    ensures
        kept.len() == 0 ==> view.refilter(kept, copies, true).selected is None,
        kept.len() > 0 && (forall|p: int| 0 <= p < kept.len() ==> kept[p] > origin)
            ==> view.refilter(kept, copies, true).selected == Some(0nat),
        (exists|p: int| 0 <= p < kept.len() && kept[p] < origin) ==> {
            let landed = view.refilter(kept, copies, true).selected;
            &&& landed matches Some(l)
            &&& l < kept.len()
            &&& kept[l as int] < origin
            &&& forall|q: int| 0 <= q < kept.len() && kept[q] < origin ==> kept[q] <= kept[l as int]
        },
{
    lemma_last_at_most(kept, origin);
    if exists|p: int| 0 <= p < kept.len() && kept[p] < origin {
        let l = last_at_most(kept, origin)->0 as int;
        assert forall|q: int| 0 <= q < kept.len() && kept[q] < origin implies kept[q]
            <= kept[l] by {
            if q < l {
                assert(kept[q] < kept[l]);
            }
        }
    }
}

/// Without preservation a rebuilt filter selects its first entry, and
/// nothing where it retains nothing.
pub proof fn lemma_refilter_without_preservation<T>(
    view: ListView<T>,
    kept: Seq<usize>,
    copies: Seq<T>,
)
    ensures
        view.refilter(kept, copies, false).selected == (if kept.len() == 0 {
            None
        } else {
            Some(0nat)
        }),
{
}

/// Dropping the filter with preservation brings the selection back to the
/// item that was selected, where there is one.
pub proof fn lemma_unfilter_restores<T>(view: ListView<T>, origin: nat)
    requires
        view.selected_origin() == Some(origin),
        origin < view.items.len(),
    ensures
        view.unfilter(true).selected == Some(origin),
        view.unfilter(true).selected_origin() == Some(origin),
{
}

/// Clamping: a page at least as long as the active view leaves the offset at
/// zero, moving down from the last item changes nothing, and neither does a
/// jump to the top or to the bottom of an empty view.
pub proof fn lemma_clamping<T>(view: ListView<T>, page_size: nat)
    ensures
        page_size >= view.active().len() ==> view.page_down(page_size).offset == 0,
        view.selected == Some(view.last()) ==> view.move_down(page_size) == view,
        view.active().len() == 0 ==> view.go_to_top() == view && view.go_to_bottom() == view,
        view.active().len() == 0 && view.selected is None ==> {
            &&& view.page_up(page_size).selected is None
            &&& view.page_down(page_size).selected is None
            &&& view.move_up(page_size).selected is None
            &&& view.move_down(page_size).selected is None
        },
{
}

/// The viewport offset is a position of the active view, or anything where
/// the view is empty.
pub open spec fn offset_in_range<T>(view: ListView<T>) -> bool {
    view.active().len() == 0 || view.offset <= view.last()
}

/// Every movement keeps a selection that lies in the active view inside it.
pub proof fn lemma_moves_keep_selection_in_range<T>(view: ListView<T>, page_size: nat)
    requires
        view.selection_in_range(),
    ensures
        view.move_up(page_size).selection_in_range(),
        view.move_down(page_size).selection_in_range(),
        view.page_up(page_size).selection_in_range(),
        view.page_down(page_size).selection_in_range(),
        view.go_to_top().selection_in_range(),
        view.go_to_bottom().selection_in_range(),
        view.select_middle_of_screen(page_size).selection_in_range(),
        view.select_top_of_screen().selection_in_range(),
        view.select_bottom_of_screen(page_size).selection_in_range(),
        view.scroll_selected_to_top().selection_in_range(),
        view.scroll_selected_to_center(page_size).selection_in_range(),
        view.scroll_selected_to_bottom(page_size).selection_in_range(),
{
}

/// Every movement keeps the offset inside the active view, given that the
/// selection lay inside it.
pub proof fn lemma_moves_keep_offset_in_range<T>(view: ListView<T>, page_size: nat)
    requires
        view.selection_in_range(),
        offset_in_range(view),
    ensures
        offset_in_range(view.move_up(page_size)),
        offset_in_range(view.move_down(page_size)),
        offset_in_range(view.page_up(page_size)),
        offset_in_range(view.page_down(page_size)),
        offset_in_range(view.go_to_top()),
        offset_in_range(view.go_to_bottom()),
        offset_in_range(view.select_middle_of_screen(page_size)),
        offset_in_range(view.select_top_of_screen()),
        offset_in_range(view.select_bottom_of_screen(page_size)),
        offset_in_range(view.scroll_selected_to_top()),
        offset_in_range(view.scroll_selected_to_center(page_size)),
        offset_in_range(view.scroll_selected_to_bottom(page_size)),
{
}

/// The state is consistent: the filtered view maps into the items, and the
/// selection and the offset lie in the active view.
pub open spec fn consistent<T>(view: ListView<T>) -> bool {
    view.filter_wf() && view.selection_in_range() && offset_in_range(view)
}

/// Every movement keeps a consistent state consistent.
pub proof fn lemma_moves_keep_consistency<T>(view: ListView<T>, page_size: nat)
    requires
        consistent(view),
    ensures
        consistent(view.move_up(page_size)),
        consistent(view.move_down(page_size)),
        consistent(view.page_up(page_size)),
        consistent(view.page_down(page_size)),
        consistent(view.go_to_top()),
        consistent(view.go_to_bottom()),
        consistent(view.select_middle_of_screen(page_size)),
        consistent(view.select_top_of_screen()),
        consistent(view.select_bottom_of_screen(page_size)),
        consistent(view.scroll_selected_to_top()),
        consistent(view.scroll_selected_to_center(page_size)),
        consistent(view.scroll_selected_to_bottom(page_size)),
{
    lemma_moves_keep_selection_in_range(view, page_size);
    lemma_moves_keep_offset_in_range(view, page_size);
}

/// A filter that retains positions of the items in increasing order, and the
/// dropping of a filter, lead to a consistent state, whatever the state was.
pub proof fn lemma_filters_lead_to_consistency<T>(
    view: ListView<T>,
    kept: Seq<usize>,
    copies: Seq<T>,
    preserve: bool,
)
    requires
        increasing(kept),
        forall|p: int| 0 <= p < kept.len() ==> (#[trigger] kept[p]) < view.items.len(),
        copies.len() == kept.len(),
    ensures
        consistent(view.refilter(kept, copies, preserve)),
        consistent(view.unfilter(preserve)),
{
    lemma_filters_keep_selection_in_range(view, kept, copies, preserve);
}

/// A rebuilt or dropped filter leaves a selection inside the active view,
/// and selects nothing only where the view it selects from is empty.
pub proof fn lemma_filters_keep_selection_in_range<T>(
    view: ListView<T>,
    kept: Seq<usize>,
    copies: Seq<T>,
    preserve: bool,
)
    requires
        copies.len() == kept.len(),
    ensures
        view.refilter(kept, copies, preserve).selection_in_range(),
        view.refilter(kept, copies, preserve).selected is None <==> kept.len() == 0,
        view.unfilter(preserve).selection_in_range(),
        view.unfilter(preserve).selected is None <==> view.items.len() == 0,
{
    if kept.len() > 0 {
        match view.selected_origin() {
            Some(origin) => {
                lemma_last_at_most(kept, origin);
            },
            None => {},
        }
    }
}

} // verus!
