//! What a key does: the transition of the browser's state that it stands
//! for, and what it asks of the caller, who reads the keys and the files.

use crate::app::{App, Screen};
use crate::app_view::AppView;
use crate::list_view::minus;
use vstd::prelude::*;

verus! {

/// A key, as far as the browser tells keys apart.
#[derive(Debug, Clone, Copy, PartialEq, Eq)]
pub enum Key {
    Char(char),
    Esc,
    Enter,
    Backspace,
    Up,
    Down,
    PageUp,
    PageDown,
    Other,
}

/// A key that was pressed, with the modifiers that were held.
#[derive(Debug, Clone, Copy, PartialEq, Eq)]
pub struct KeyPress {
    pub key: Key,
    pub control: bool,
    pub shift: bool,
}

/// What a key asks of the caller.
#[derive(Debug, Clone, Copy, PartialEq, Eq, Structural)]
pub enum Request {
    /// Nothing.
    Nothing,
    /// To read the chats of the selected project and to hand them to
    /// `App::open_project`.
    OpenProject,
    /// To read the messages of the selected chat and to hand them to
    /// `App::open_chat`.
    OpenChat,
}

/// The rows of the current list that are visible in a terminal of `height`
/// rows; at least one.
pub open spec fn visible_rows(screen: Screen, vertical_split: bool, height: nat) -> nat {
    let rows = match screen {
        Screen::Messages => if vertical_split {
            minus(minus(height, 1) / 2, 2)
        } else {
            minus(minus(height, 1), 2)
        },
        _ => minus(height, 3),
    };
    if rows < 1 {
        1
    } else {
        rows
    }
}

/// The state after a key was pressed while a search runs.
pub open spec fn after_search_key(app: AppView, press: KeyPress) -> AppView {
    match press.key {
        Key::Char(c) => if c == 'c' && press.control {
            app.quit()
        } else {
            app.add_to_search_query(c)
        },
        Key::Esc => app.exit_search_mode(),
        Key::Enter => app.exit_search_mode_keep_filter(),
        Key::Backspace => app.remove_from_search_query(),
        _ => app,
    }
}

/// The state after a letter or sign was pressed while no search runs.
pub open spec fn after_normal_char(
    app: AppView,
    c: char,
    press: KeyPress,
    page_size: nat,
) -> AppView {
    if c == 'c' && press.control {
        app.quit()
    } else if c == 'q' {
        app.quit()
    } else if c == '/' {
        app.enter_search_mode()
    } else if c == 'h' {
        app.go_back()
    } else if c == 'k' {
        app.move_up(page_size)
    } else if c == 'j' {
        app.move_down(page_size)
    } else if c == ' ' {
        if press.shift {
            app.page_up(page_size)
        } else {
            app.page_down(page_size)
        }
    } else if c == 'g' {
        app.go_to_top()
    } else if c == 'G' {
        app.go_to_bottom()
    } else if c == 'z' {
        app.scroll_selected_to_center(page_size)
    } else if c == 't' {
        app.scroll_selected_to_top()
    } else if c == 'b' {
        app.scroll_selected_to_bottom(page_size)
    } else if c == 'J' {
        app.go_to_next_initial_message()
    } else if c == 'K' {
        app.go_to_previous_initial_message()
    } else if c == 's' && app.screen == Screen::Messages {
        app.toggle_split()
    } else {
        app
    }
}

/// The state after a key was pressed while no search runs.
pub open spec fn after_normal_key(app: AppView, press: KeyPress, page_size: nat) -> AppView {
    match press.key {
        Key::Char(c) => after_normal_char(app, c, press, page_size),
        Key::Esc => app.go_back(),
        Key::Up => app.move_up(page_size),
        Key::Down => app.move_down(page_size),
        Key::PageUp => app.page_up(page_size),
        Key::PageDown => app.page_down(page_size),
        _ => app,
    }
}

/// Whether a key is one that opens the selected entry: `Enter` or `l`.
pub open spec fn opens(press: KeyPress) -> bool {
    match press.key {
        Key::Enter => true,
        Key::Char(c) => c == 'l',
        _ => false,
    }
}

/// What a key asks of the caller in the given state.
pub open spec fn request_of(app: AppView, press: KeyPress) -> Request {
    if !app.search_mode && opens(press) {
        match app.screen {
            Screen::Projects => Request::OpenProject,
            Screen::Chats => Request::OpenChat,
            Screen::Messages => Request::Nothing,
        }
    } else {
        Request::Nothing
    }
}

/// The state after a key was pressed in a terminal of `height` rows.
pub open spec fn after_key(app: AppView, press: KeyPress, height: nat) -> AppView {
    if app.search_mode {
        after_search_key(app, press)
    } else {
        after_normal_key(app, press, visible_rows(app.screen, app.vertical_split, height))
    }
}

/// The rows of the current list that are visible in a terminal of `height`
/// rows.
pub fn page_size(screen: Screen, vertical_split: bool, height: u16) -> (rows: usize)
    ensures
        rows == visible_rows(screen, vertical_split, height as nat),
{
    let rows: usize = match screen {
        Screen::Messages => {
            let main_area_height = height.saturating_sub(1);
            let list_area_height = if vertical_split {
                (main_area_height / 2).saturating_sub(2)
            } else {
                main_area_height.saturating_sub(2)
            };
            list_area_height as usize
        },
        _ => (height as usize).saturating_sub(3),
    };
    if rows < 1 {
        1
    } else {
        rows
    }
}

/// Acts on a key that was pressed while a search runs.
fn handle_search_mode_key(app: &mut App, press: KeyPress)
    ensures
        final(app)@ == after_search_key(old(app)@, press),
{
    match press.key {
        Key::Char(c) => {
            if c == 'c' && press.control {
                app.quit();
            } else {
                app.add_to_search_query(c);
            }
        },
        Key::Esc => app.exit_search_mode(),
        Key::Enter => app.exit_search_mode_keep_filter(),
        Key::Backspace => app.remove_from_search_query(),
        _ => {},
    }
}

/// Acts on a letter or sign that was pressed while no search runs.
fn handle_normal_mode_char(app: &mut App, c: char, press: KeyPress, page_size: usize)
    ensures
        final(app)@ == after_normal_char(old(app)@, c, press, page_size as nat),
{
    if c == 'c' && press.control {
        app.quit();
    } else if c == 'q' {
        app.quit();
    } else if c == '/' {
        app.enter_search_mode();
    } else if c == 'h' {
        app.go_back();
    } else if c == 'k' {
        app.move_selection_up_with_size(page_size);
    } else if c == 'j' {
        app.move_selection_down_with_size(page_size);
    } else if c == ' ' {
        if press.shift {
            app.page_up(page_size);
        } else {
            app.page_down(page_size);
        }
    } else if c == 'g' {
        app.go_to_top();
    } else if c == 'G' {
        app.go_to_bottom();
    } else if c == 'z' {
        app.scroll_selected_to_center(page_size);
    } else if c == 't' {
        app.scroll_selected_to_top();
    } else if c == 'b' {
        app.scroll_selected_to_bottom(page_size);
    } else if c == 'J' {
        app.go_to_next_initial_message();
    } else if c == 'K' {
        app.go_to_previous_initial_message();
    } else if c == 's' && app.screen == Screen::Messages {
        app.toggle_split();
    }
}

/// Acts on a key that was pressed while no search runs.
fn handle_normal_mode_key(app: &mut App, press: KeyPress, page_size: usize)
    ensures
        final(app)@ == after_normal_key(old(app)@, press, page_size as nat),
{
    match press.key {
        Key::Char(c) => handle_normal_mode_char(app, c, press, page_size),
        Key::Esc => app.go_back(),
        Key::Up => app.move_selection_up_with_size(page_size),
        Key::Down => app.move_selection_down_with_size(page_size),
        Key::PageUp => app.page_up(page_size),
        Key::PageDown => app.page_down(page_size),
        _ => {},
    }
}

/// Acts on a key that was pressed in a terminal of `height` rows, and says
/// what the key asks of the caller. Opening a project or a chat needs its
/// files: the state is left as it is, and the caller is asked to read them.
pub fn handle_key_event(app: &mut App, press: KeyPress, height: u16) -> (request: Request)
    ensures
        final(app)@ == after_key(old(app)@, press, height as nat),
        request == request_of(old(app)@, press),
{
    if app.search_mode {
        handle_search_mode_key(app, press);
        Request::Nothing
    } else {
        let rows = page_size(app.screen, app.vertical_split, height);
        let opens = match press.key {
            Key::Enter => true,
            Key::Char(c) => c == 'l',
            _ => false,
        };
        let request = if opens {
            match app.screen {
                Screen::Projects => Request::OpenProject,
                Screen::Chats => Request::OpenChat,
                Screen::Messages => Request::Nothing,
            }
        } else {
            Request::Nothing
        };
        handle_normal_mode_key(app, press, rows);
        request
    }
}

} // verus!
