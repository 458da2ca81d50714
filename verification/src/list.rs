//! A filterable list with one selection and a scrolling viewport.
//!
//! [`ListManager`] owns the items, an optional filtered view of them, and a
//! `ratatui` [`ListState`] that carries the selected position and the viewport
//! offset. Every operation is stated as a transition of the mathematical model
//! [`ListView`](crate::list_view::ListView).

use crate::list_view::{landing, last_at_most, least, position, retained_by, ListView};
use ratatui::widgets::ListState;
use vstd::prelude::*;

verus! {

/// `ratatui::widgets::ListState`, carried as an opaque value.
#[verifier::external_type_specification]
#[verifier::external_body]
pub struct ExListState(ListState);

/// The selected position that a `ListState` holds.
pub uninterp spec fn state_selected(state: ListState) -> Option<usize>;

/// The viewport offset that a `ListState` holds.
pub uninterp spec fn state_offset(state: ListState) -> usize;

/// `ListState::selected` returns the selected position and changes nothing.
pub assume_specification[ ListState::selected ](state: &ListState) -> (index: Option<usize>)
    ensures
        index == state_selected(*state),
;

/// `ListState::offset` returns the viewport offset and changes nothing.
pub assume_specification[ ListState::offset ](state: &ListState) -> (offset: usize)
    ensures
        offset == state_offset(*state),
;

/// `ListState::select` stores the given position. Storing `None` also resets
/// the offset to zero; storing `Some` leaves the offset alone.
pub assume_specification[ ListState::select ](state: &mut ListState, index: Option<usize>)
    ensures
        state_selected(*final(state)) == index,
        state_offset(*final(state)) == (if index is None {
            0
        } else {
            state_offset(*old(state))
        }),
;

/// `ListState::offset_mut` lends out the offset: what is written through the
/// returned reference becomes the offset, and the selection is untouched.
pub assume_specification[ ListState::offset_mut ](state: &mut ListState) -> (offset: &mut usize)
    ensures
        *offset == state_offset(*old(state)),
        state_offset(*final(state)) == *final(offset),
        state_selected(*final(state)) == state_selected(*old(state)),
;

/// `ListState::default()`: nothing selected, offset zero.
#[verifier::external_body]
fn fresh_state() -> (state: ListState)
    ensures
        state_selected(state) is None,
        state_offset(state) == 0,
{
    ListState::default()
}

/// An ordered collection with a filtered view, a selection and a viewport.
#[derive(Debug)]
pub struct ListManager<T> {
    pub items: Vec<T>,
    pub filtered_items: Vec<T>,
    /// Maps a filtered position to its position in `items`.
    pub filtered_indices: Vec<usize>,
    pub state: ListState,
}

impl<T> View for ListManager<T> {
    type V = ListView<T>;

    open spec fn view(&self) -> ListView<T> {
        ListView {
            items: self.items@,
            filtered_items: self.filtered_items@,
            filtered_indices: self.filtered_indices@,
            selected: position(state_selected(self.state)),
            offset: state_offset(self.state) as nat,
        }
    }
}

impl<T> ListManager<T> {
    /// An empty list: no items, no filter, nothing selected, offset zero.
    pub fn new() -> (list: Self)
        ensures
            list@ == ListView::<T>::empty(),
    {
        let list = Self {
            items: Vec::new(),
            filtered_items: Vec::new(),
            filtered_indices: Vec::new(),
            state: fresh_state(),
        };
        list
    }

    /// The active view is as long as a vector, so its length is a machine
    /// integer.
    proof fn lemma_len_fits(&self)
        ensures
            self@.active().len() <= usize::MAX,
    {
        assert(self.items@.len() == self.items.len());
        assert(self.filtered_items@.len() == self.filtered_items.len());
    }

    /// The active view.
    pub fn active_items(&self) -> (items: &Vec<T>)
        ensures
            items@ == self@.active(),
    {
        if !self.filtered_items.is_empty() {
            &self.filtered_items
        } else {
            &self.items
        }
    }

    /// The length of the active view.
    pub fn len(&self) -> (n: usize)
        ensures
            n == self@.active().len(),
    {
        self.active_items().len()
    }

    /// Whether the active view is empty.
    pub fn is_empty(&self) -> (empty: bool)
        ensures
            empty == (self@.active().len() == 0),
    {
        self.active_items().is_empty()
    }

    /// Whether a non-empty filtered view is present.
    pub fn is_filtered(&self) -> (filtered: bool)
        ensures
            filtered == self@.is_filtered(),
    {
        !self.filtered_items.is_empty()
    }

    /// The selected position in the active view.
    pub fn selected(&self) -> (index: Option<usize>)
        ensures
            position(index) == self@.selected,
    {
        self.state.selected()
    }

    /// The selected item of the active view.
    pub fn selected_item(&self) -> (item: Option<&T>)
        ensures
            match item {
                Some(r) => self@.selected_item() == Some(*r),
                None => self@.selected_item() is None,
            },
    {
        match self.state.selected() {
            Some(i) => {
                let active = self.active_items();
                if i < active.len() {
                    Some(&active[i])
                } else {
                    None
                }
            },
            None => None,
        }
    }

    /// Sets the selection as given, without clamping it.
    pub fn select(&mut self, index: Option<usize>)
        ensures
            final(self)@ == old(self)@.select(position(index)),
    {
        self.state.select(index);
    }

    /// The first visible position.
    pub fn offset(&self) -> (offset: usize)
        ensures
            offset == self@.offset,
    {
        self.state.offset()
    }

    /// Sets the first visible position as given.
    pub fn set_offset(&mut self, offset: usize)
        ensures
            final(self)@ == old(self)@.set_offset(offset as nat),
    {
        *self.state.offset_mut() = offset;
    }

    /// Lets the viewport follow the selection, so that the selected row is
    /// visible in a page of `visible_area` rows.
    fn scroll_to_selected(&mut self, visible_area: usize)
        ensures
            final(self)@ == old(self)@.follow_selection(visible_area as nat),
    {
        if let Some(selected) = self.state.selected() {
            let offset = self.state.offset();
            if selected < offset {
                *self.state.offset_mut() = selected;
            } else {
                let below = match offset.checked_add(visible_area) {
                    Some(end) => selected >= end,
                    None => false,
                };
                if below {
                    *self.state.offset_mut() = selected.saturating_sub(
                        visible_area.saturating_sub(1),
                    );
                }
            }
        }
    }

    /// Moves the selection up by one and lets the viewport follow; does
    /// nothing at the first position.
    pub fn move_up(&mut self, page_size: usize)
        ensures
            final(self)@ == old(self)@.move_up(page_size as nat),
    {
        let current_selection = match self.state.selected() {
            Some(i) => i,
            None => 0,
        };
        if current_selection > 0 {
            self.state.select(Some(current_selection - 1));
            self.scroll_to_selected(page_size);
        }
    }

    /// Moves the selection down by one and lets the viewport follow; does
    /// nothing at the last position.
    pub fn move_down(&mut self, page_size: usize)
        ensures
            final(self)@ == old(self)@.move_down(page_size as nat),
            old(self)@.selected == Some(old(self)@.last()) ==> final(self)@ == old(self)@,
    {
        let current_selection = match self.state.selected() {
            Some(i) => i,
            None => 0,
        };
        let max_index = self.active_items().len().saturating_sub(1);
        if current_selection < max_index {
            self.state.select(Some(current_selection + 1));
            self.scroll_to_selected(page_size);
        }
    }

    /// Moves the viewport to `new_offset` and the selection with it.
    fn page_to(&mut self, new_offset: usize)
        ensures
            final(self)@ == old(self)@.paged_to(new_offset as nat),
    {
        let len = self.active_items().len();
        if len > 0 {
            let current_selection = match self.state.selected() {
                Some(i) => i,
                None => 0,
            };
            let selection_offset = current_selection.saturating_sub(self.state.offset());
            let new_selection = min_of(new_offset.saturating_add(selection_offset), len - 1);
            self.state.select(Some(new_selection));
        }
        *self.state.offset_mut() = new_offset;
    }

    /// Scrolls up by one page, the selection keeping its row in the viewport.
    pub fn page_up(&mut self, page_size: usize)
        ensures
            final(self)@ == old(self)@.page_up(page_size as nat),
    {
        let max_offset = self.active_items().len().saturating_sub(page_size);
        let new_offset = min_of(self.state.offset().saturating_sub(page_size), max_offset);
        self.page_to(new_offset);
    }

    /// Scrolls down by one page, the selection keeping its row in the
    /// viewport. A page at least as long as the active view leaves the offset
    /// at zero.
    pub fn page_down(&mut self, page_size: usize)
        ensures
            final(self)@ == old(self)@.page_down(page_size as nat),
            page_size >= old(self)@.active().len() ==> final(self)@.offset == 0,
    {
        let max_offset = self.active_items().len().saturating_sub(page_size);
        let new_offset = min_of(self.state.offset().saturating_add(page_size), max_offset);
        self.page_to(new_offset);
    }

    /// Selects `index`, clamped to the last position; does nothing on an
    /// empty view.
    fn select_clamped(&mut self, index: usize)
        ensures
            final(self)@ == old(self)@.select_clamped(index as nat),
    {
        let len = self.active_items().len();
        if len > 0 {
            self.state.select(Some(min_of(index, len - 1)));
        }
    }

    /// Selects the first item and scrolls to the top; does nothing on an
    /// empty view.
    pub fn go_to_top(&mut self)
        ensures
            final(self)@ == old(self)@.go_to_top(),
            old(self)@.active().len() == 0 ==> final(self)@ == old(self)@,
    {
        if !self.active_items().is_empty() {
            self.state.select(Some(0));
            *self.state.offset_mut() = 0;
        }
    }

    /// Selects the last item; does nothing on an empty view.
    pub fn go_to_bottom(&mut self)
        ensures
            final(self)@ == old(self)@.go_to_bottom(),
            old(self)@.active().len() == 0 ==> final(self)@ == old(self)@,
    {
        let last_index = self.active_items().len().saturating_sub(1);
        self.select_clamped(last_index);
    }

    /// Selects the item in the middle of the viewport.
    pub fn select_middle_of_screen(&mut self, page_size: usize)
        ensures
            final(self)@ == old(self)@.select_middle_of_screen(page_size as nat),
    {
        let middle_index = self.state.offset().saturating_add(page_size / 2);
        proof {
            self.lemma_len_fits();
        }
        self.select_clamped(middle_index);
    }

    /// Selects the item in the first row of the viewport.
    pub fn select_top_of_screen(&mut self)
        ensures
            final(self)@ == old(self)@.select_top_of_screen(),
    {
        let top_index = self.state.offset();
        self.select_clamped(top_index);
    }

    /// Selects the item in the last row of the viewport.
    pub fn select_bottom_of_screen(&mut self, page_size: usize)
        ensures
            final(self)@ == old(self)@.select_bottom_of_screen(page_size as nat),
    {
        let bottom_index = self.state.offset().saturating_add(page_size).saturating_sub(1);
        proof {
            self.lemma_len_fits();
        }
        self.select_clamped(bottom_index);
    }

    /// Scrolls so that the selection is the first row of the viewport.
    pub fn scroll_selected_to_top(&mut self)
        ensures
            final(self)@ == old(self)@.scroll_selected_to_top(),
    {
        if let Some(selected) = self.state.selected() {
            *self.state.offset_mut() = selected;
        }
    }

    /// Scrolls so that the selection is the middle row of the viewport, as
    /// far as the length of the active view allows.
    pub fn scroll_selected_to_center(&mut self, page_size: usize)
        ensures
            final(self)@ == old(self)@.scroll_selected_to_center(page_size as nat),
    {
        if let Some(selected) = self.state.selected() {
            let new_offset = selected.saturating_sub(page_size / 2);
            let max_offset = self.active_items().len().saturating_sub(page_size);
            *self.state.offset_mut() = min_of(new_offset, max_offset);
        }
    }

    /// Scrolls so that the selection is the last row of the viewport, as far
    /// as the length of the active view allows.
    pub fn scroll_selected_to_bottom(&mut self, page_size: usize)
        ensures
            final(self)@ == old(self)@.scroll_selected_to_bottom(page_size as nat),
    {
        if let Some(selected) = self.state.selected() {
            let new_offset = selected.saturating_sub(page_size.saturating_sub(1));
            let max_offset = self.active_items().len().saturating_sub(page_size);
            *self.state.offset_mut() = min_of(new_offset, max_offset);
        }
    }
}

impl<T> ListManager<T> {
    /// Maps a position of the active view back to its position in `items`.
    pub fn original_index(&self, filtered_index: usize) -> (index: usize)
        ensures
            index == self@.original_index(filtered_index as nat),
    {
        if self.is_filtered() && filtered_index < self.filtered_indices.len() {
            self.filtered_indices[filtered_index]
        } else {
            filtered_index
        }
    }

    /// The first position of the filtered view that stands for
    /// `original_index`; the position itself while no filter is present.
    pub fn find_original_index_in_filtered(&self, original_index: usize) -> (found: Option<usize>)
        ensures
            !self@.is_filtered() ==> found == Some(original_index),
            self@.is_filtered() ==> match found {
                Some(p) => {
                    &&& p < self@.filtered_indices.len()
                    &&& self@.filtered_indices[p as int] == original_index
                    &&& forall|q: int| 0 <= q < p ==> self@.filtered_indices[q] != original_index
                },
                None => !self@.filtered_indices.contains(original_index),
            },
    {
        if self.is_filtered() {
            let mut p: usize = 0;
            while p < self.filtered_indices.len()
                invariant
                    self@.is_filtered(),
                    p <= self.filtered_indices@.len(),
                    forall|q: int| 0 <= q < p ==> self.filtered_indices@[q] != original_index,
                decreases self.filtered_indices@.len() - p,
            {
                if self.filtered_indices[p] == original_index {
                    return Some(p);
                }
                p += 1;
            }
            None
        } else {
            Some(original_index)
        }
    }

    /// The position in `items` of the selected entry.
    fn selected_origin(&self) -> (origin: Option<usize>)
        ensures
            position(origin) == self@.selected_origin(),
    {
        match self.state.selected() {
            Some(i) => Some(self.original_index(i)),
            None => None,
        }
    }

    /// Installs `kept` and `copies` as the filtered view, resolves the
    /// selection against it and scrolls to the top.
    pub(crate) fn install_filter(
        &mut self,
        kept: Vec<usize>,
        copies: Vec<T>,
        preserve_selection: bool,
    )
        ensures
            final(self)@ == old(self)@.refilter(kept@, copies@, preserve_selection),
    {
        let origin = if preserve_selection {
            self.selected_origin()
        } else {
            None
        };
        let new_selection = if kept.len() == 0 {
            None
        } else {
            match origin {
                Some(k) => Some(land(&kept, k)),
                None => Some(0),
            }
        };
        self.filtered_items = copies;
        self.filtered_indices = kept;
        self.state.select(new_selection);
        *self.state.offset_mut() = 0;
    }

    /// Replaces the items, scrolls to the top and selects the first entry of
    /// the active view, where there is one.
    pub fn replace_items(&mut self, items: Vec<T>)
        ensures
            final(self)@ == old(self)@.reloaded(items@),
    {
        self.items = items;
        self.state = fresh_state();
        if !self.is_empty() {
            self.state.select(Some(0));
        }
    }

    /// Removes all items and leaves the rest as it is.
    pub fn remove_items(&mut self)
        ensures
            final(self)@ == old(self)@.emptied(),
    {
        self.items.clear();
    }

    /// Drops the filtered view and selects the first item, if there is one.
    pub fn clear_filter(&mut self)
        ensures
            final(self)@ == old(self)@.unfilter(false),
    {
        self.clear_filter_with_preservation(false);
    }

    /// Drops the filtered view. With `preserve_selection` the item that was
    /// selected stays selected; otherwise, or where that is not possible, the
    /// first item is selected, and nothing where there are no items.
    pub fn clear_filter_with_preservation(&mut self, preserve_selection: bool)
        ensures
            final(self)@ == old(self)@.unfilter(preserve_selection),
    {
        let origin = if preserve_selection {
            self.selected_origin()
        } else {
            None
        };
        self.filtered_items.clear();
        self.filtered_indices.clear();
        let new_selection = if self.items.len() == 0 {
            None
        } else {
            match origin {
                Some(k) => if k < self.items.len() {
                    Some(k)
                } else {
                    Some(0)
                },
                None => Some(0),
            }
        };
        self.state.select(new_selection);
        *self.state.offset_mut() = 0;
    }
}

impl<T: Clone> ListManager<T> {
    /// Filters by `predicate`, keeping the selection on the item it was on
    /// where the filter retains it.
    pub fn apply_filter<F>(&mut self, predicate: F) where F: Fn(&T) -> bool
        requires
            forall|i: int|
                0 <= i < old(self)@.items.len() ==> call_requires(
                    predicate,
                    (&#[trigger] old(self)@.items[i],),
                ),
        ensures
            retained_by(old(self)@.items, predicate, final(self)@.filtered_indices),
            final(self)@.filter_wf(),
            final(self)@.mirrors_items(),
            final(self)@ == old(self)@.refilter(
                final(self)@.filtered_indices,
                final(self)@.filtered_items,
                true,
            ),
    {
        self.apply_filter_with_selection_preservation(predicate, true);
    }

    /// Rebuilds the filtered view from the items that satisfy `predicate`.
    ///
    /// With `preserve_selection` the selection stays on the item it was on
    /// where the filter retains it, and else moves to the nearest retained
    /// item before it, or to the first retained item where there is none
    /// before it. Without, the first retained item is selected. Nothing is
    /// selected where the filter retains nothing. The viewport returns to the
    /// top.
    pub fn apply_filter_with_selection_preservation<F>(
        &mut self,
        predicate: F,
        preserve_selection: bool,
    ) where F: Fn(&T) -> bool
        requires
            forall|i: int|
                0 <= i < old(self)@.items.len() ==> call_requires(
                    predicate,
                    (&#[trigger] old(self)@.items[i],),
                ),
        ensures
            retained_by(old(self)@.items, predicate, final(self)@.filtered_indices),
            final(self)@.filter_wf(),
            final(self)@.mirrors_items(),
            final(self)@ == old(self)@.refilter(
                final(self)@.filtered_indices,
                final(self)@.filtered_items,
                preserve_selection,
            ),
    {
        let mut kept: Vec<usize> = Vec::new();
        let mut copies: Vec<T> = Vec::new();
        let mut i: usize = 0;
        while i < self.items.len()
            invariant
                i <= self.items@.len(),
                copies@.len() == kept@.len(),
                forall|j: int|
                    0 <= j < self.items@.len() ==> call_requires(
                        predicate,
                        (&#[trigger] self.items@[j],),
                    ),
                forall|p: int| 0 <= p < kept@.len() ==> (#[trigger] kept@[p]) < i,
                forall|p: int, q: int|
                    0 <= p < q < kept@.len() ==> (#[trigger] kept@[p]) < (#[trigger] kept@[q]),
                forall|p: int|
                    0 <= p < kept@.len() ==> call_ensures(
                        predicate,
                        (&self.items@[(#[trigger] kept@[p]) as int],),
                        true,
                    ),
                forall|p: int|
                    0 <= p < kept@.len() ==> cloned(
                        self.items@[kept@[p] as int],
                        #[trigger] copies@[p],
                    ),
                forall|j: int|
                    0 <= j < i && !kept@.contains(j as usize) ==> call_ensures(
                        predicate,
                        (&#[trigger] self.items@[j],),
                        false,
                    ),
            decreases self.items@.len() - i,
        {
            let item = &self.items[i];
            let ghost before = kept@;
            if predicate(item) {
                copies.push(item.clone());
                kept.push(i);
                assert forall|j: int|
                    0 <= j < i + 1 && !kept@.contains(j as usize) implies call_ensures(
                    predicate,
                    (&#[trigger] self.items@[j],),
                    false,
                ) by {
                    if j < i {
                        if before.contains(j as usize) {
                            let p = choose|p: int| 0 <= p < before.len() && before[p] == j as usize;
                            assert(kept@[p] == j as usize);
                        }
                    } else {
                        assert(kept@[kept@.len() - 1] == i);
                    }
                }
            }
            i += 1;
        }
        self.install_filter(kept, copies, preserve_selection);
    }
}

impl<T> Default for ListManager<T> {
    fn default() -> (list: Self)
        ensures
            list@ == ListView::<T>::empty(),
    {
        Self::new()
    }
}

/// The navigation that every browsable list offers, whatever its items are.
pub trait ListManagerTrait {
    fn move_up(&mut self, page_size: usize);

    fn move_down(&mut self, page_size: usize);

    fn page_up(&mut self, page_size: usize);

    fn page_down(&mut self, page_size: usize);

    fn go_to_top(&mut self);

    fn go_to_bottom(&mut self);

    fn select_middle_of_screen(&mut self, page_size: usize);

    fn select_top_of_screen(&mut self);

    fn select_bottom_of_screen(&mut self, page_size: usize);
}

impl<T> ListManagerTrait for ListManager<T> {
    fn move_up(&mut self, page_size: usize)
        ensures
            final(self)@ == old(self)@.move_up(page_size as nat),
    {
        ListManager::move_up(self, page_size);
    }

    fn move_down(&mut self, page_size: usize)
        ensures
            final(self)@ == old(self)@.move_down(page_size as nat),
    {
        ListManager::move_down(self, page_size);
    }

    fn page_up(&mut self, page_size: usize)
        ensures
            final(self)@ == old(self)@.page_up(page_size as nat),
    {
        ListManager::page_up(self, page_size);
    }

    fn page_down(&mut self, page_size: usize)
        ensures
            final(self)@ == old(self)@.page_down(page_size as nat),
    {
        ListManager::page_down(self, page_size);
    }

    fn go_to_top(&mut self)
        ensures
            final(self)@ == old(self)@.go_to_top(),
    {
        ListManager::go_to_top(self);
    }

    fn go_to_bottom(&mut self)
        ensures
            final(self)@ == old(self)@.go_to_bottom(),
    {
        ListManager::go_to_bottom(self);
    }

    fn select_middle_of_screen(&mut self, page_size: usize)
        ensures
            final(self)@ == old(self)@.select_middle_of_screen(page_size as nat),
    {
        ListManager::select_middle_of_screen(self, page_size);
    }

    fn select_top_of_screen(&mut self)
        ensures
            final(self)@ == old(self)@.select_top_of_screen(),
    {
        ListManager::select_top_of_screen(self);
    }

    fn select_bottom_of_screen(&mut self, page_size: usize)
        ensures
            final(self)@ == old(self)@.select_bottom_of_screen(page_size as nat),
    {
        ListManager::select_bottom_of_screen(self, page_size);
    }
}

/// The position at which the selection lands in `kept`: the last position
/// whose entry is at most `origin`, or the first position.
fn land(kept: &Vec<usize>, origin: usize) -> (p: usize)
    ensures
        p == landing(kept@, origin as nat),
{
    let mut end: usize = kept.len();
    assert(kept@.take(end as int) =~= kept@);
    while end > 0 && kept[end - 1] > origin
        invariant
            end <= kept@.len(),
            last_at_most(kept@, origin as nat) == last_at_most(
                kept@.take(end as int),
                origin as nat,
            ),
        decreases end,
    {
        assert(kept@.take(end as int).drop_last() =~= kept@.take(end - 1));
        end -= 1;
    }
    if end > 0 {
        end - 1
    } else {
        0
    }
}

/// The smaller of two machine integers.
fn min_of(a: usize, b: usize) -> (m: usize)
    ensures
        m == least(a as nat, b as nat),
{
    if a <= b {
        a
    } else {
        b
    }
}

} // verus!
