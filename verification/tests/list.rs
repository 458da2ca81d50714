use cocohibo::list::{ListManager, ListManagerTrait};

fn numbers(n: u32) -> ListManager<u32> {
    let mut list = ListManager::new();
    list.items = (0..n).collect();
    list
}

fn words(items: &[&str]) -> ListManager<String> {
    let mut list = ListManager::new();
    list.items = items.iter().map(|s| s.to_string()).collect();
    list
}

#[test]
fn new_list_is_empty() {
    let list: ListManager<u32> = ListManager::new();
    assert_eq!(list.len(), 0);
    assert!(list.is_empty());
    assert!(!list.is_filtered());
    assert_eq!(list.selected(), None);
    assert_eq!(list.selected_item(), None);
    assert_eq!(list.offset(), 0);
}

#[test]
fn default_list_is_empty() {
    let list: ListManager<u32> = ListManager::default();
    assert_eq!(list.len(), 0);
    assert_eq!(list.selected(), None);
    assert_eq!(list.offset(), 0);
}

#[test]
fn select_stores_the_index_unclamped() {
    let mut list = numbers(3);
    list.select(Some(7));
    assert_eq!(list.selected(), Some(7));
    assert_eq!(list.selected_item(), None);
    list.select(Some(2));
    assert_eq!(list.selected_item(), Some(&2));
}

#[test]
fn selecting_nothing_resets_the_offset() {
    let mut list = numbers(10);
    list.set_offset(3);
    list.select(Some(4));
    assert_eq!(list.offset(), 3);
    list.select(None);
    assert_eq!(list.selected(), None);
    assert_eq!(list.offset(), 0);
}

#[test]
fn set_offset_keeps_the_selection() {
    let mut list = numbers(10);
    list.select(Some(4));
    list.set_offset(6);
    assert_eq!(list.offset(), 6);
    assert_eq!(list.selected(), Some(4));
}

#[test]
fn move_down_scrolls_when_selection_leaves_the_page() {
    let mut list = numbers(10);
    list.select(Some(2));
    list.move_down(3);
    assert_eq!(list.selected(), Some(3));
    assert_eq!(list.offset(), 1);
    list.move_down(3);
    assert_eq!(list.selected(), Some(4));
    assert_eq!(list.offset(), 2);
}

#[test]
fn move_down_inside_the_page_keeps_the_offset() {
    let mut list = numbers(10);
    list.select(Some(0));
    list.move_down(3);
    assert_eq!(list.selected(), Some(1));
    assert_eq!(list.offset(), 0);
}

#[test]
fn move_up_scrolls_when_selection_rises_above_the_page() {
    let mut list = numbers(10);
    list.select(Some(4));
    list.set_offset(4);
    list.move_up(3);
    assert_eq!(list.selected(), Some(3));
    assert_eq!(list.offset(), 3);
}

#[test]
fn move_down_at_the_last_item_changes_nothing() {
    let mut list = numbers(10);
    list.select(Some(9));
    list.set_offset(7);
    list.move_down(3);
    assert_eq!(list.selected(), Some(9));
    assert_eq!(list.offset(), 7);
}

#[test]
fn move_up_at_the_first_item_changes_nothing() {
    let mut list = numbers(10);
    list.select(Some(0));
    list.set_offset(2);
    list.move_up(3);
    assert_eq!(list.selected(), Some(0));
    assert_eq!(list.offset(), 2);
}

#[test]
fn move_down_without_selection_counts_from_the_first_item() {
    let mut list = numbers(10);
    list.move_down(3);
    assert_eq!(list.selected(), Some(1));
}

#[test]
fn moving_on_an_empty_list_selects_nothing() {
    let mut list = numbers(0);
    list.move_down(3);
    assert_eq!(list.selected(), None);
    list.move_up(3);
    assert_eq!(list.selected(), None);
    assert_eq!(list.offset(), 0);
}

#[test]
fn move_with_page_size_zero_puts_the_selection_first() {
    let mut list = numbers(10);
    list.select(Some(4));
    list.move_down(0);
    assert_eq!(list.selected(), Some(5));
    assert_eq!(list.offset(), 5);
}

#[test]
fn page_down_moves_offset_and_selection_by_a_page() {
    let mut list = numbers(20);
    list.select(Some(5));
    list.set_offset(2);
    list.page_down(5);
    assert_eq!(list.offset(), 7);
    assert_eq!(list.selected(), Some(10));
}

#[test]
fn page_down_clamps_the_offset_to_the_last_full_page() {
    let mut list = numbers(20);
    list.select(Some(16));
    list.set_offset(14);
    list.page_down(5);
    assert_eq!(list.offset(), 15);
    assert_eq!(list.selected(), Some(17));
}

#[test]
fn page_down_clamps_the_selection_to_the_last_item() {
    let mut list = numbers(20);
    list.select(Some(19));
    list.set_offset(10);
    list.page_down(5);
    assert_eq!(list.offset(), 15);
    assert_eq!(list.selected(), Some(19));
}

#[test]
fn page_down_with_a_page_longer_than_the_list_leaves_offset_zero() {
    let mut list = numbers(5);
    list.select(Some(4));
    list.set_offset(3);
    list.page_down(10);
    assert_eq!(list.offset(), 0);
    assert_eq!(list.selected(), Some(1));

    let mut exact = numbers(5);
    exact.select(Some(2));
    exact.page_down(5);
    assert_eq!(exact.offset(), 0);
    assert_eq!(exact.selected(), Some(2));
}

#[test]
fn page_up_moves_offset_and_selection_by_a_page() {
    let mut list = numbers(20);
    list.select(Some(10));
    list.set_offset(7);
    list.page_up(5);
    assert_eq!(list.offset(), 2);
    assert_eq!(list.selected(), Some(5));
}

#[test]
fn page_up_stops_at_the_top() {
    let mut list = numbers(20);
    list.select(Some(3));
    list.set_offset(2);
    list.page_up(5);
    assert_eq!(list.offset(), 0);
    assert_eq!(list.selected(), Some(1));
}

#[test]
fn page_up_clamps_a_stray_offset() {
    let mut list = numbers(10);
    list.select(Some(2));
    list.set_offset(1000);
    list.page_up(4);
    assert_eq!(list.offset(), 6);
    assert_eq!(list.selected(), Some(6));
}

#[test]
fn paging_an_empty_list_selects_nothing() {
    let mut list = numbers(0);
    list.set_offset(4);
    list.page_down(3);
    assert_eq!(list.selected(), None);
    assert_eq!(list.offset(), 0);
    list.set_offset(4);
    list.page_up(3);
    assert_eq!(list.selected(), None);
    assert_eq!(list.offset(), 0);
}

#[test]
fn paging_survives_the_largest_numbers() {
    let mut list = numbers(10);
    list.select(Some(usize::MAX));
    list.set_offset(usize::MAX);
    list.page_down(usize::MAX);
    assert_eq!(list.offset(), 0);
    assert_eq!(list.selected(), Some(0));
    list.select(Some(usize::MAX));
    list.set_offset(0);
    list.page_down(3);
    assert_eq!(list.offset(), 3);
    assert_eq!(list.selected(), Some(9));
}

#[test]
fn go_to_top_and_bottom_on_an_empty_list_select_nothing() {
    let mut list = numbers(0);
    list.set_offset(2);
    list.go_to_top();
    assert_eq!(list.selected(), None);
    assert_eq!(list.offset(), 2);
    list.go_to_bottom();
    assert_eq!(list.selected(), None);
    assert_eq!(list.offset(), 2);
}

#[test]
fn go_to_bottom_keeps_the_offset() {
    let mut list = numbers(10);
    list.set_offset(3);
    list.go_to_bottom();
    assert_eq!(list.selected(), Some(9));
    assert_eq!(list.offset(), 3);
}

#[test]
fn screen_selections_clamp_to_the_last_item() {
    let mut list = numbers(10);
    list.set_offset(8);
    list.select_middle_of_screen(10);
    assert_eq!(list.selected(), Some(9));
    list.select_bottom_of_screen(10);
    assert_eq!(list.selected(), Some(9));
    list.set_offset(20);
    list.select_top_of_screen();
    assert_eq!(list.selected(), Some(9));
    assert_eq!(list.offset(), 20);
}

#[test]
fn select_bottom_of_screen_with_page_size_zero_selects_the_first_row() {
    let mut list = numbers(10);
    list.select(Some(5));
    list.select_bottom_of_screen(0);
    assert_eq!(list.selected(), Some(0));
    list.set_offset(4);
    list.select_bottom_of_screen(0);
    assert_eq!(list.selected(), Some(3));
}

#[test]
fn screen_selections_on_an_empty_list_select_nothing() {
    let mut list = numbers(0);
    list.select_middle_of_screen(4);
    assert_eq!(list.selected(), None);
    list.select_top_of_screen();
    assert_eq!(list.selected(), None);
    list.select_bottom_of_screen(4);
    assert_eq!(list.selected(), None);
}

#[test]
fn scroll_selected_to_top_sets_offset_to_selection() {
    let mut list = numbers(20);
    list.select(Some(12));
    list.scroll_selected_to_top();
    assert_eq!(list.offset(), 12);
    assert_eq!(list.selected(), Some(12));
}

#[test]
fn scroll_selected_to_center_puts_half_a_page_above() {
    let mut list = numbers(20);
    list.select(Some(10));
    list.scroll_selected_to_center(6);
    assert_eq!(list.offset(), 7);
    list.select(Some(19));
    list.scroll_selected_to_center(6);
    assert_eq!(list.offset(), 14);
    list.select(Some(1));
    list.scroll_selected_to_center(6);
    assert_eq!(list.offset(), 0);
}

#[test]
fn scroll_selected_to_bottom_puts_a_page_above() {
    let mut list = numbers(20);
    list.select(Some(10));
    list.scroll_selected_to_bottom(6);
    assert_eq!(list.offset(), 5);
    list.select(Some(2));
    list.scroll_selected_to_bottom(6);
    assert_eq!(list.offset(), 0);
    list.select(Some(7));
    list.scroll_selected_to_bottom(0);
    assert_eq!(list.offset(), 7);
}

#[test]
fn scrolling_without_selection_changes_nothing() {
    let mut list = numbers(20);
    list.set_offset(4);
    list.scroll_selected_to_top();
    list.scroll_selected_to_center(6);
    list.scroll_selected_to_bottom(6);
    assert_eq!(list.offset(), 4);
    assert_eq!(list.selected(), None);
}

#[test]
fn replace_items_selects_the_first_item() {
    let mut list = numbers(5);
    list.select(Some(3));
    list.set_offset(2);
    list.replace_items(vec![7, 8, 9]);
    assert_eq!(list.len(), 3);
    assert_eq!(list.selected(), Some(0));
    assert_eq!(list.offset(), 0);
    list.replace_items(Vec::new());
    assert_eq!(list.selected(), None);
}

#[test]
fn remove_items_leaves_selection_and_offset() {
    let mut list = numbers(5);
    list.select(Some(3));
    list.set_offset(2);
    list.remove_items();
    assert_eq!(list.len(), 0);
    assert_eq!(list.selected(), Some(3));
    assert_eq!(list.offset(), 2);
}

#[test]
fn the_navigation_trait_reaches_the_list() {
    fn drive<L: ListManagerTrait>(list: &mut L) {
        list.go_to_bottom();
        list.move_up(3);
        list.page_up(3);
        list.page_down(3);
        list.move_down(3);
        list.select_middle_of_screen(4);
        list.select_bottom_of_screen(4);
        list.select_top_of_screen();
        list.go_to_top();
    }
    let mut list = numbers(10);
    drive(&mut list);
    assert_eq!(list.selected(), Some(0));
    assert_eq!(list.offset(), 0);
    let mut other = numbers(10);
    ListManagerTrait::go_to_bottom(&mut other);
    ListManagerTrait::move_up(&mut other, 3);
    assert_eq!(other.selected(), Some(8));
    assert_eq!(other.offset(), 6);
}

#[test]
fn search_narrows_then_widens() {
    let mut list = words(&["apple", "banana", "apricot"]);
    list.select(Some(0));

    list.apply_filter(|item: &String| item.contains("ap"));
    assert_eq!(list.active_items(), &vec!["apple".to_string(), "apricot".to_string()]);
    assert_eq!(list.selected(), Some(0));
    assert_eq!(list.selected_item(), Some(&"apple".to_string()));
    assert_eq!(list.original_index(0), 0);

    list.apply_filter(|item: &String| item.contains("xyz"));
    assert!(list.filtered_items.is_empty());
    assert!(list.filtered_indices.is_empty());
    assert_eq!(list.selected(), None);
    assert_eq!(list.selected_item(), None);

    list.clear_filter_with_preservation(true);
    assert_eq!(list.selected(), Some(0));
    assert_eq!(list.active_items().len(), 3);
}

#[test]
fn a_filter_without_matches_shows_all_items_and_selects_none() {
    let mut list = words(&["apple", "banana", "apricot"]);
    list.select(Some(1));
    list.apply_filter(|item: &String| item.contains("xyz"));
    assert!(!list.is_filtered());
    assert_eq!(list.active_items().len(), 3);
    assert_eq!(list.selected(), None);
    assert_eq!(list.offset(), 0);
}

#[test]
fn filtered_indices_map_each_retained_item_to_its_place() {
    let mut list = numbers(12);
    list.apply_filter(|n: &u32| n % 3 == 1);
    assert_eq!(list.filtered_indices, vec![1, 4, 7, 10]);
    assert_eq!(list.filtered_items, vec![1, 4, 7, 10]);
    for (i, original) in list.filtered_indices.iter().enumerate() {
        assert_eq!(list.filtered_items[i], list.items[*original]);
        if i > 0 {
            assert!(list.filtered_indices[i - 1] < *original);
        }
        assert_eq!(list.original_index(i), *original);
    }
}

#[test]
fn selection_stays_on_a_retained_item() {
    let mut list = words(&["apple", "banana", "apricot"]);
    list.select(Some(2));
    list.apply_filter(|item: &String| item.contains("ap"));
    assert_eq!(list.selected(), Some(1));
    assert_eq!(list.original_index(1), 2);
    list.apply_filter(|item: &String| item.contains("a"));
    assert_eq!(list.selected(), Some(2));
    assert_eq!(list.original_index(2), 2);
    list.apply_filter(|item: &String| item.contains("cot"));
    assert_eq!(list.selected(), Some(0));
    assert_eq!(list.original_index(0), 2);
}

#[test]
fn selection_falls_back_to_the_nearest_predecessor() {
    let mut list = numbers(6);
    list.select(Some(3));
    list.apply_filter(|n: &u32| *n == 0 || *n == 1 || *n == 4);
    assert_eq!(list.selected(), Some(1));
    assert_eq!(list.original_index(1), 1);
}

#[test]
fn selection_falls_back_to_the_first_entry_without_predecessor() {
    let mut list = numbers(6);
    list.select(Some(3));
    list.apply_filter(|n: &u32| *n >= 4);
    assert_eq!(list.selected(), Some(0));
    assert_eq!(list.original_index(0), 4);
}

#[test]
fn selection_is_dropped_when_nothing_is_retained() {
    let mut list = numbers(6);
    list.select(Some(3));
    list.apply_filter(|_n: &u32| false);
    assert_eq!(list.selected(), None);
}

#[test]
fn filtering_without_preservation_selects_the_first_entry() {
    let mut list = numbers(6);
    list.select(Some(4));
    list.apply_filter_with_selection_preservation(|n: &u32| *n >= 2, false);
    assert_eq!(list.selected(), Some(0));
    assert_eq!(list.original_index(0), 2);
}

#[test]
fn filtering_without_a_selection_selects_the_first_entry() {
    let mut list = numbers(6);
    list.apply_filter(|n: &u32| *n >= 2);
    assert_eq!(list.selected(), Some(0));
}

#[test]
fn filtering_scrolls_to_the_top() {
    let mut list = numbers(30);
    list.select(Some(20));
    list.set_offset(15);
    list.apply_filter(|n: &u32| n % 2 == 0);
    assert_eq!(list.offset(), 0);
    assert_eq!(list.selected(), Some(10));
}

#[test]
fn refiltering_follows_the_selection_through_the_filtered_view() {
    let mut list = numbers(10);
    list.apply_filter(|n: &u32| n % 2 == 1);
    list.select(Some(3));
    assert_eq!(list.original_index(3), 7);
    list.apply_filter(|n: &u32| *n >= 5);
    assert_eq!(list.selected(), Some(2));
    assert_eq!(list.original_index(2), 7);
}

#[test]
fn original_index_is_the_identity_without_a_filter() {
    let list = numbers(4);
    assert_eq!(list.original_index(0), 0);
    assert_eq!(list.original_index(3), 3);
    assert_eq!(list.original_index(9), 9);
}

#[test]
fn original_index_beyond_the_filtered_view_is_the_index_itself() {
    let mut list = numbers(10);
    list.apply_filter(|n: &u32| *n >= 8);
    assert_eq!(list.original_index(1), 9);
    assert_eq!(list.original_index(2), 2);
}

#[test]
fn find_original_index_in_filtered_finds_the_position() {
    let mut list = numbers(10);
    assert_eq!(list.find_original_index_in_filtered(6), Some(6));
    list.apply_filter(|n: &u32| n % 2 == 0);
    assert_eq!(list.find_original_index_in_filtered(6), Some(3));
    assert_eq!(list.find_original_index_in_filtered(5), None);
    assert_eq!(list.find_original_index_in_filtered(0), Some(0));
}

#[test]
fn clear_filter_selects_the_first_item() {
    let mut list = numbers(10);
    list.apply_filter(|n: &u32| *n >= 5);
    list.select(Some(2));
    list.set_offset(1);
    list.clear_filter();
    assert!(!list.is_filtered());
    assert!(list.filtered_indices.is_empty());
    assert_eq!(list.selected(), Some(0));
    assert_eq!(list.offset(), 0);
}

#[test]
fn clear_filter_with_preservation_restores_the_original_index() {
    let mut list = numbers(10);
    list.apply_filter(|n: &u32| *n >= 5);
    list.select(Some(2));
    list.clear_filter_with_preservation(true);
    assert_eq!(list.selected(), Some(7));
    assert_eq!(list.offset(), 0);
}

#[test]
fn clear_filter_with_preservation_falls_back_to_the_first_item() {
    let mut list = numbers(3);
    list.select(Some(8));
    list.clear_filter_with_preservation(true);
    assert_eq!(list.selected(), Some(0));
    let mut empty = numbers(0);
    empty.select(Some(1));
    empty.clear_filter_with_preservation(true);
    assert_eq!(empty.selected(), None);
    let mut unselected = numbers(3);
    unselected.clear_filter_with_preservation(true);
    assert_eq!(unselected.selected(), Some(0));
}
