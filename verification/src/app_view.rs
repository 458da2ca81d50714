//! The mathematical model of the browser's state: what each operation of
//! [`App`](crate::app::App) does, as a function from state to state.

use crate::app::Screen;
use crate::hierarchy::hierarchy;
use crate::list_view::{least, ListView};
use crate::project::{Chat, HierarchicalMessage, Message, Project};
use crate::text::{decimal, lowercase, occurs_in};
use std::path::PathBuf;
use vstd::prelude::*;

verus! {

/// The model of an [`App`](crate::app::App).
pub struct AppView {
    pub screen: Screen,
    pub projects: ListView<Project>,
    pub chats: ListView<Chat>,
    pub messages: ListView<HierarchicalMessage>,
    pub projects_dir: PathBuf,
    pub vertical_split: bool,
    pub should_quit: bool,
    pub search_mode: bool,
    pub search_query: Seq<char>,
    pub current_project: Option<Project>,
    pub current_chat: Option<Chat>,
}

/// Whether a query in lower case occurs in a name, without regard to the
/// case of the name.
pub open spec fn name_matches(name: Seq<char>, query: Seq<char>) -> bool {
    occurs_in(query, lowercase(name))
}

/// Whether a query occurs in the number of the message at position `i`,
/// counted from one, or in its content in lower case.
pub open spec fn message_matches(i: int, message: Message, query: Seq<char>) -> bool {
    occurs_in(query, decimal((i + 1) as nat)) || occurs_in(
        query,
        lowercase(message.content_text()),
    )
}

/// The projects that a query retains.
pub open spec fn project_filter(query: Seq<char>) -> spec_fn(int, Project) -> bool {
    |i: int, project: Project| name_matches(project.name@, query)
}

/// The chats that a query retains.
pub open spec fn chat_filter(query: Seq<char>) -> spec_fn(int, Chat) -> bool {
    |i: int, chat: Chat| name_matches(chat.name@, query)
}

/// The messages that a query retains.
pub open spec fn message_filter(query: Seq<char>) -> spec_fn(int, HierarchicalMessage) -> bool {
    |i: int, node: HierarchicalMessage| message_matches(i, node.message, query)
}

/// The first position from `start` on at which a message starts a thread.
pub open spec fn first_initial_from(items: Seq<HierarchicalMessage>, start: nat) -> Option<nat>
    decreases items.len() - start,
{
    if start >= items.len() {
        None
    } else if items[start as int].is_initial {
        Some(start)
    } else {
        first_initial_from(items, start + 1)
    }
}

/// The last position before `end` at which a message starts a thread.
pub open spec fn last_initial_before(items: Seq<HierarchicalMessage>, end: nat) -> Option<nat>
    decreases end,
{
    if end == 0 {
        None
    } else if items[end - 1].is_initial {
        Some((end - 1) as nat)
    } else {
        last_initial_before(items, (end - 1) as nat)
    }
}

impl AppView {
    /// The state at the start.
    pub open spec fn initial(projects_dir: PathBuf, vertical_split: bool) -> Self {
        AppView {
            screen: Screen::Projects,
            projects: ListView::empty(),
            chats: ListView::empty(),
            messages: ListView::empty(),
            projects_dir,
            vertical_split,
            should_quit: false,
            search_mode: false,
            search_query: Seq::empty(),
            current_project: None,
            current_chat: None,
        }
    }

    /// The state after `quit()`.
    pub open spec fn quit(self) -> Self {
        AppView { should_quit: true, ..self }
    }

    /// The state after `load_projects(projects)`.
    pub open spec fn load_projects(self, projects: Seq<Project>) -> Self {
        AppView { projects: self.projects.reloaded(projects), ..self }
    }

    /// The project that is selected on the project screen, and on the other
    /// screens the project that was opened.
    pub open spec fn selected_project(self) -> Option<Project> {
        if self.screen == Screen::Projects {
            self.projects.selected_item()
        } else {
            self.current_project
        }
    }

    /// The chat that is selected in the chat list.
    pub open spec fn selected_chat(self) -> Option<Chat> {
        self.chats.selected_item()
    }

    /// The message that is selected in the message list.
    pub open spec fn selected_message(self) -> Option<HierarchicalMessage> {
        self.messages.selected_item()
    }

    /// The state with the filters of all lists dropped.
    pub open spec fn clear_search_filter(self, preserve: bool) -> Self {
        AppView {
            projects: self.projects.unfilter(preserve),
            chats: self.chats.unfilter(preserve),
            messages: self.messages.unfilter(preserve),
            ..self
        }
    }

    /// The state with the search ended and the query emptied.
    pub open spec fn search_ended(self) -> Self {
        AppView { search_mode: false, search_query: Seq::empty(), ..self }
    }

    /// The state after `open_project(chats)`.
    pub open spec fn open_project(self, chats: Seq<Chat>) -> Self {
        match self.projects.selected_item() {
            Some(project) => AppView {
                current_project: Some(project),
                chats: self.chats.reloaded(chats),
                screen: Screen::Chats,
                ..self
            }.search_ended().clear_search_filter(false),
            None => self,
        }
    }

    /// The state after `open_chat(messages)`.
    pub open spec fn open_chat(self, messages: Seq<Message>) -> Self {
        match (self.selected_project(), self.selected_chat()) {
            (Some(_), Some(chat)) => AppView {
                current_chat: Some(chat),
                messages: self.messages.reloaded(hierarchy(messages)),
                screen: Screen::Messages,
                ..self
            }.search_ended().clear_search_filter(false),
            _ => self,
        }
    }

    /// The state after `go_back()`.
    pub open spec fn go_back(self) -> Self {
        (match self.screen {
            Screen::Messages => AppView {
                screen: Screen::Chats,
                messages: self.messages.emptied(),
                current_chat: None,
                ..self
            },
            Screen::Chats => AppView {
                screen: Screen::Projects,
                chats: self.chats.emptied(),
                current_project: None,
                current_chat: None,
                ..self
            },
            Screen::Projects => self.quit(),
        }).search_ended().clear_search_filter(true)
    }

    /// The state after `move_selection_up_with_size(page_size)`.
    pub open spec fn move_up(self, page_size: nat) -> Self {
        match self.screen {
            Screen::Projects => AppView { projects: self.projects.move_up(page_size), ..self },
            Screen::Chats => AppView { chats: self.chats.move_up(page_size), ..self },
            Screen::Messages => AppView { messages: self.messages.move_up(page_size), ..self },
        }
    }

    /// The state after `move_selection_down_with_size(page_size)`.
    pub open spec fn move_down(self, page_size: nat) -> Self {
        match self.screen {
            Screen::Projects => AppView { projects: self.projects.move_down(page_size), ..self },
            Screen::Chats => AppView { chats: self.chats.move_down(page_size), ..self },
            Screen::Messages => AppView { messages: self.messages.move_down(page_size), ..self },
        }
    }

    /// The state after `page_up(page_size)`.
    pub open spec fn page_up(self, page_size: nat) -> Self {
        match self.screen {
            Screen::Projects => AppView { projects: self.projects.page_up(page_size), ..self },
            Screen::Chats => AppView { chats: self.chats.page_up(page_size), ..self },
            Screen::Messages => AppView { messages: self.messages.page_up(page_size), ..self },
        }
    }

    /// The state after `page_down(page_size)`.
    pub open spec fn page_down(self, page_size: nat) -> Self {
        match self.screen {
            Screen::Projects => AppView { projects: self.projects.page_down(page_size), ..self },
            Screen::Chats => AppView { chats: self.chats.page_down(page_size), ..self },
            Screen::Messages => AppView { messages: self.messages.page_down(page_size), ..self },
        }
    }

    /// The state after `go_to_top()`.
    pub open spec fn go_to_top(self) -> Self {
        match self.screen {
            Screen::Projects => AppView { projects: self.projects.go_to_top(), ..self },
            Screen::Chats => AppView { chats: self.chats.go_to_top(), ..self },
            Screen::Messages => AppView { messages: self.messages.go_to_top(), ..self },
        }
    }

    /// The state after `go_to_bottom()`.
    pub open spec fn go_to_bottom(self) -> Self {
        match self.screen {
            Screen::Projects => AppView { projects: self.projects.go_to_bottom(), ..self },
            Screen::Chats => AppView { chats: self.chats.go_to_bottom(), ..self },
            Screen::Messages => AppView { messages: self.messages.go_to_bottom(), ..self },
        }
    }

    /// The state after `select_middle_of_screen(page_size)`.
    pub open spec fn select_middle_of_screen(self, page_size: nat) -> Self {
        match self.screen {
            Screen::Projects => AppView {
                projects: self.projects.select_middle_of_screen(page_size),
                ..self
            },
            Screen::Chats => AppView {
                chats: self.chats.select_middle_of_screen(page_size),
                ..self
            },
            Screen::Messages => AppView {
                messages: self.messages.select_middle_of_screen(page_size),
                ..self
            },
        }
    }

    /// The state after `select_top_of_screen()`.
    pub open spec fn select_top_of_screen(self) -> Self {
        match self.screen {
            Screen::Projects => AppView { projects: self.projects.select_top_of_screen(), ..self },
            Screen::Chats => AppView { chats: self.chats.select_top_of_screen(), ..self },
            Screen::Messages => AppView { messages: self.messages.select_top_of_screen(), ..self },
        }
    }

    /// The state after `select_bottom_of_screen(page_size)`.
    pub open spec fn select_bottom_of_screen(self, page_size: nat) -> Self {
        match self.screen {
            Screen::Projects => AppView {
                projects: self.projects.select_bottom_of_screen(page_size),
                ..self
            },
            Screen::Chats => AppView {
                chats: self.chats.select_bottom_of_screen(page_size),
                ..self
            },
            Screen::Messages => AppView {
                messages: self.messages.select_bottom_of_screen(page_size),
                ..self
            },
        }
    }

    /// The state after `scroll_selected_to_top()`.
    pub open spec fn scroll_selected_to_top(self) -> Self {
        match self.screen {
            Screen::Projects => AppView {
                projects: self.projects.scroll_selected_to_top(),
                ..self
            },
            Screen::Chats => AppView { chats: self.chats.scroll_selected_to_top(), ..self },
            Screen::Messages => AppView {
                messages: self.messages.scroll_selected_to_top(),
                ..self
            },
        }
    }

    /// The state after `scroll_selected_to_center(page_size)`.
    pub open spec fn scroll_selected_to_center(self, page_size: nat) -> Self {
        match self.screen {
            Screen::Projects => AppView {
                projects: self.projects.scroll_selected_to_center(page_size),
                ..self
            },
            Screen::Chats => AppView {
                chats: self.chats.scroll_selected_to_center(page_size),
                ..self
            },
            Screen::Messages => AppView {
                messages: self.messages.scroll_selected_to_center(page_size),
                ..self
            },
        }
    }

    /// The state after `scroll_selected_to_bottom(page_size)`.
    pub open spec fn scroll_selected_to_bottom(self, page_size: nat) -> Self {
        match self.screen {
            Screen::Projects => AppView {
                projects: self.projects.scroll_selected_to_bottom(page_size),
                ..self
            },
            Screen::Chats => AppView {
                chats: self.chats.scroll_selected_to_bottom(page_size),
                ..self
            },
            Screen::Messages => AppView {
                messages: self.messages.scroll_selected_to_bottom(page_size),
                ..self
            },
        }
    }

    /// The state with the message at `target` selected, where there is one.
    pub open spec fn jump_to(self, target: Option<nat>) -> Self {
        match target {
            Some(i) => AppView { messages: self.messages.select(Some(i)), ..self },
            None => self,
        }
    }

    /// The state after `go_to_next_initial_message()`. The positions are
    /// those of all messages, whether a filter is present or not.
    pub open spec fn go_to_next_initial_message(self) -> Self {
        if self.screen == Screen::Messages {
            self.jump_to(first_initial_from(self.messages.items, self.messages.cursor() + 1))
        } else {
            self
        }
    }

    /// The state after `go_to_previous_initial_message()`. The positions are
    /// those of all messages, whether a filter is present or not.
    pub open spec fn go_to_previous_initial_message(self) -> Self {
        if self.screen == Screen::Messages {
            self.jump_to(
                last_initial_before(
                    self.messages.items,
                    least(self.messages.cursor(), self.messages.items.len()),
                ),
            )
        } else {
            self
        }
    }

    /// The state after `toggle_split()`.
    pub open spec fn toggle_split(self) -> Self {
        AppView { vertical_split: !self.vertical_split, ..self }
    }

    /// The state after `enter_search_mode()`.
    pub open spec fn enter_search_mode(self) -> Self {
        AppView { search_mode: true, search_query: Seq::empty(), ..self }.clear_search_filter(true)
    }

    /// The state after `exit_search_mode()`.
    pub open spec fn exit_search_mode(self) -> Self {
        self.search_ended().clear_search_filter(true)
    }

    /// The state after `exit_search_mode_keep_filter()`.
    pub open spec fn exit_search_mode_keep_filter(self) -> Self {
        AppView { search_mode: false, ..self }
    }

    /// The state after `apply_message_filter(query)`.
    pub open spec fn apply_message_filter(self, query: Seq<char>) -> Self {
        AppView { messages: self.messages.filtered_by(message_filter(query), true), ..self }
    }

    /// The state after the current list has been filtered by the query in
    /// lower case; an empty query drops the filters of all lists.
    pub open spec fn apply_search_filter(self, preserve: bool) -> Self {
        if self.search_query.len() == 0 {
            self.clear_search_filter(preserve)
        } else {
            let query = lowercase(self.search_query);
            match self.screen {
                Screen::Projects => AppView {
                    projects: self.projects.filtered_by(project_filter(query), preserve),
                    ..self
                },
                Screen::Chats => AppView {
                    chats: self.chats.filtered_by(chat_filter(query), preserve),
                    ..self
                },
                Screen::Messages => self.apply_message_filter(query),
            }
        }
    }

    /// The state after `add_to_search_query(c)`.
    pub open spec fn add_to_search_query(self, c: char) -> Self {
        AppView { search_query: self.search_query.push(c), ..self }.apply_search_filter(true)
    }

    /// The state after `remove_from_search_query()`.
    pub open spec fn remove_from_search_query(self) -> Self {
        AppView {
            search_query: if self.search_query.len() == 0 {
                self.search_query
            } else {
                self.search_query.drop_last()
            },
            ..self
        }.apply_search_filter(true)
    }
}

} // verus!
