//! The state of the browser: which screen is shown, the three lists, and the
//! search. Every operation is a transition of the model [`AppView`].

use crate::app_view::{
    chat_filter, first_initial_from, last_initial_before, message_filter, name_matches,
    project_filter, AppView,
};
use crate::hierarchy::build_message_hierarchy;
pub use crate::list::{ListManager, ListManagerTrait};
use crate::list_view::{lemma_retained_positions, least, picked, positions};
use crate::project::{Chat, HierarchicalMessage, Message, Project};
use crate::text::{contains_text, decimal_string, pop_char, push_char, to_lowercase};
use std::path::PathBuf;
use vstd::prelude::*;

verus! {

/// `std::path::PathBuf`, carried as an opaque value.
#[verifier::external_type_specification]
#[verifier::external_body]
pub struct ExPathBuf(PathBuf);

/// The screen that is shown.
#[derive(Debug, Clone, Copy, PartialEq, Eq, Structural)]
pub enum Screen {
    Projects,
    Chats,
    Messages,
}

/// The directory in which the projects are looked for: the one that was
/// given on the command line, else the one that the environment names, else
/// the one below the home directory, else `fallback`.
pub open spec fn chosen_dir(
    given: Option<PathBuf>,
    custom: Option<PathBuf>,
    under_home: Option<PathBuf>,
    fallback: PathBuf,
) -> PathBuf {
    match given {
        Some(dir) => dir,
        None => match custom {
            Some(dir) => dir,
            None => match under_home {
                Some(dir) => dir,
                None => fallback,
            },
        },
    }
}

/// The directory in which the projects are looked for.
pub fn get_projects_dir(
    cli_projects_dir: Option<PathBuf>,
    custom_dir: Option<PathBuf>,
    under_home: Option<PathBuf>,
    fallback: PathBuf,
) -> (dir: PathBuf)
    ensures
        dir == chosen_dir(cli_projects_dir, custom_dir, under_home, fallback),
{
    match cli_projects_dir {
        Some(dir) => dir,
        None => match custom_dir {
            Some(dir) => dir,
            None => match under_home {
                Some(dir) => dir,
                None => fallback,
            },
        },
    }
}

/// The state of the browser.
#[derive(Debug)]
pub struct App {
    pub screen: Screen,
    pub projects: ListManager<Project>,
    pub chats: ListManager<Chat>,
    pub messages: ListManager<HierarchicalMessage>,
    pub projects_dir: PathBuf,
    pub vertical_split: bool,
    pub should_quit: bool,
    pub search_mode: bool,
    pub search_query: String,
    /// The project whose chats are shown.
    pub current_project: Option<Project>,
    /// The chat whose messages are shown.
    pub current_chat: Option<Chat>,
}

impl View for App {
    type V = AppView;

    open spec fn view(&self) -> AppView {
        AppView {
            screen: self.screen,
            projects: self.projects@,
            chats: self.chats@,
            messages: self.messages@,
            projects_dir: self.projects_dir,
            vertical_split: self.vertical_split,
            should_quit: self.should_quit,
            search_mode: self.search_mode,
            search_query: self.search_query@,
            current_project: self.current_project,
            current_chat: self.current_chat,
        }
    }
}

impl App {
    /// The state at the start: the project screen, empty lists, no search.
    pub fn new(projects_dir: PathBuf, vertical_split: bool) -> (app: Self)
        ensures
            app@ == AppView::initial(projects_dir, vertical_split),
    {
        let app = Self {
            screen: Screen::Projects,
            projects: ListManager::new(),
            chats: ListManager::new(),
            messages: ListManager::new(),
            projects_dir,
            vertical_split,
            should_quit: false,
            search_mode: false,
            search_query: String::new(),
            current_project: None,
            current_chat: None,
        };
        app
    }

    /// Asks the browser to end.
    pub fn quit(&mut self)
        ensures
            final(self)@ == old(self)@.quit(),
    {
        self.should_quit = true;
    }

    /// Shows `projects` in the project list, the first one selected.
    pub fn load_projects(&mut self, projects: Vec<Project>)
        ensures
            final(self)@ == old(self)@.load_projects(projects@),
    {
        self.projects.replace_items(projects);
    }

    /// The project that is selected on the project screen, and on the other
    /// screens the project that was opened.
    pub fn selected_project(&self) -> (project: Option<&Project>)
        ensures
            match project {
                Some(p) => self@.selected_project() == Some(*p),
                None => self@.selected_project() is None,
            },
    {
        if self.screen == Screen::Projects {
            self.projects.selected_item()
        } else {
            self.current_project.as_ref()
        }
    }

    /// The chat that is selected in the chat list.
    pub fn selected_chat(&self) -> (chat: Option<&Chat>)
        ensures
            match chat {
                Some(c) => self@.selected_chat() == Some(*c),
                None => self@.selected_chat() is None,
            },
    {
        self.chats.selected_item()
    }

    /// The message that is selected in the message list.
    pub fn selected_message(&self) -> (message: Option<&HierarchicalMessage>)
        ensures
            match message {
                Some(m) => self@.selected_message() == Some(*m),
                None => self@.selected_message() is None,
            },
    {
        self.messages.selected_item()
    }

    /// Opens the selected project: shows `chats`, its chat sessions, on the
    /// chat screen and ends any search. Does nothing where no project is
    /// selected.
    pub fn open_project(&mut self, chats: Vec<Chat>)
        ensures
            final(self)@ == old(self)@.open_project(chats@),
    {
        if let Some(project) = self.projects.selected_item() {
            self.current_project = Some(project.clone());
            self.chats.replace_items(chats);
            self.screen = Screen::Chats;
            self.search_mode = false;
            self.search_query = String::new();
            self.clear_search_filter();
        }
    }

    /// Opens the selected chat: shows the thread hierarchy of `messages`, its
    /// messages, on the message screen and ends any search. Does nothing
    /// where no project or no chat is selected.
    pub fn open_chat(&mut self, messages: Vec<Message>)
        ensures
            final(self)@ == old(self)@.open_chat(messages@),
    {
        if self.selected_project().is_some() {
            if let Some(chat) = self.chats.selected_item() {
                self.current_chat = Some(chat.clone());
                self.messages.replace_items(build_message_hierarchy(messages));
                self.screen = Screen::Messages;
                self.search_mode = false;
                self.search_query = String::new();
                self.clear_search_filter();
            }
        }
    }

    /// Returns to the screen above and ends any search; the selection of
    /// every list stays on the item it was on. On the project screen the
    /// browser is asked to end.
    pub fn go_back(&mut self)
        ensures
            final(self)@ == old(self)@.go_back(),
    {
        match self.screen {
            Screen::Messages => {
                self.screen = Screen::Chats;
                self.messages.remove_items();
                self.current_chat = None;
            },
            Screen::Chats => {
                self.screen = Screen::Projects;
                self.chats.remove_items();
                self.current_project = None;
                self.current_chat = None;
            },
            Screen::Projects => {
                self.quit();
            },
        }
        self.search_mode = false;
        self.search_query = String::new();
        self.clear_search_filter_with_preservation(true);
    }

    /// Moves the selection of the current list up by one.
    pub fn move_selection_up_with_size(&mut self, page_size: usize)
        ensures
            final(self)@ == old(self)@.move_up(page_size as nat),
    {
        match self.screen {
            Screen::Projects => self.projects.move_up(page_size),
            Screen::Chats => self.chats.move_up(page_size),
            Screen::Messages => self.messages.move_up(page_size),
        }
    }

    /// Moves the selection of the current list down by one.
    pub fn move_selection_down_with_size(&mut self, page_size: usize)
        ensures
            final(self)@ == old(self)@.move_down(page_size as nat),
    {
        match self.screen {
            Screen::Projects => self.projects.move_down(page_size),
            Screen::Chats => self.chats.move_down(page_size),
            Screen::Messages => self.messages.move_down(page_size),
        }
    }

    /// Scrolls the current list up by one page.
    pub fn page_up(&mut self, page_size: usize)
        ensures
            final(self)@ == old(self)@.page_up(page_size as nat),
    {
        match self.screen {
            Screen::Projects => self.projects.page_up(page_size),
            Screen::Chats => self.chats.page_up(page_size),
            Screen::Messages => self.messages.page_up(page_size),
        }
    }

    /// Scrolls the current list down by one page.
    pub fn page_down(&mut self, page_size: usize)
        ensures
            final(self)@ == old(self)@.page_down(page_size as nat),
    {
        match self.screen {
            Screen::Projects => self.projects.page_down(page_size),
            Screen::Chats => self.chats.page_down(page_size),
            Screen::Messages => self.messages.page_down(page_size),
        }
    }

    /// Selects the first item of the current list.
    pub fn go_to_top(&mut self)
        ensures
            final(self)@ == old(self)@.go_to_top(),
    {
        match self.screen {
            Screen::Projects => self.projects.go_to_top(),
            Screen::Chats => self.chats.go_to_top(),
            Screen::Messages => self.messages.go_to_top(),
        }
    }

    /// Selects the last item of the current list.
    pub fn go_to_bottom(&mut self)
        ensures
            final(self)@ == old(self)@.go_to_bottom(),
    {
        match self.screen {
            Screen::Projects => self.projects.go_to_bottom(),
            Screen::Chats => self.chats.go_to_bottom(),
            Screen::Messages => self.messages.go_to_bottom(),
        }
    }

    /// Selects the item in the middle of the viewport of the current list.
    pub fn select_middle_of_screen(&mut self, page_size: usize)
        ensures
            final(self)@ == old(self)@.select_middle_of_screen(page_size as nat),
    {
        match self.screen {
            Screen::Projects => self.projects.select_middle_of_screen(page_size),
            Screen::Chats => self.chats.select_middle_of_screen(page_size),
            Screen::Messages => self.messages.select_middle_of_screen(page_size),
        }
    }

    /// Selects the item in the first row of the viewport of the current list.
    pub fn select_top_of_screen(&mut self)
        ensures
            final(self)@ == old(self)@.select_top_of_screen(),
    {
        match self.screen {
            Screen::Projects => self.projects.select_top_of_screen(),
            Screen::Chats => self.chats.select_top_of_screen(),
            Screen::Messages => self.messages.select_top_of_screen(),
        }
    }

    /// Selects the item in the last row of the viewport of the current list.
    pub fn select_bottom_of_screen(&mut self, page_size: usize)
        ensures
            final(self)@ == old(self)@.select_bottom_of_screen(page_size as nat),
    {
        match self.screen {
            Screen::Projects => self.projects.select_bottom_of_screen(page_size),
            Screen::Chats => self.chats.select_bottom_of_screen(page_size),
            Screen::Messages => self.messages.select_bottom_of_screen(page_size),
        }
    }

    /// Scrolls the current list so that the selection is the first row.
    pub fn scroll_selected_to_top(&mut self)
        ensures
            final(self)@ == old(self)@.scroll_selected_to_top(),
    {
        match self.screen {
            Screen::Projects => self.projects.scroll_selected_to_top(),
            Screen::Chats => self.chats.scroll_selected_to_top(),
            Screen::Messages => self.messages.scroll_selected_to_top(),
        }
    }

    /// Scrolls the current list so that the selection is the middle row.
    pub fn scroll_selected_to_center(&mut self, page_size: usize)
        ensures
            final(self)@ == old(self)@.scroll_selected_to_center(page_size as nat),
    {
        match self.screen {
            Screen::Projects => self.projects.scroll_selected_to_center(page_size),
            Screen::Chats => self.chats.scroll_selected_to_center(page_size),
            Screen::Messages => self.messages.scroll_selected_to_center(page_size),
        }
    }

    /// Scrolls the current list so that the selection is the last row.
    pub fn scroll_selected_to_bottom(&mut self, page_size: usize)
        ensures
            final(self)@ == old(self)@.scroll_selected_to_bottom(page_size as nat),
    {
        match self.screen {
            Screen::Projects => self.projects.scroll_selected_to_bottom(page_size),
            Screen::Chats => self.chats.scroll_selected_to_bottom(page_size),
            Screen::Messages => self.messages.scroll_selected_to_bottom(page_size),
        }
    }

    /// On the message screen, selects the next message after the selection
    /// that starts a thread; does nothing where there is none.
    pub fn go_to_next_initial_message(&mut self)
        ensures
            final(self)@ == old(self)@.go_to_next_initial_message(),
    {
        if self.screen != Screen::Messages {
            return ;
        }
        let current_selection = match self.messages.selected() {
            Some(i) => i,
            None => 0,
        };
        let mut i: usize = current_selection.saturating_add(1);
        assert(self.messages.items@.len() == self.messages.items.len());
        while i < self.messages.items.len()
            invariant
                *self == *old(self),
                self.screen == Screen::Messages,
                current_selection == self.messages@.cursor(),
                first_initial_from(self.messages.items@, i as nat) == first_initial_from(
                    self.messages.items@,
                    current_selection as nat + 1,
                ),
            decreases self.messages.items@.len() - i,
        {
            if self.messages.items[i].is_initial {
                self.messages.select(Some(i));
                return ;
            }
            i += 1;
        }
    }

    /// On the message screen, selects the last message before the selection
    /// that starts a thread; does nothing where there is none.
    pub fn go_to_previous_initial_message(&mut self)
        ensures
            final(self)@ == old(self)@.go_to_previous_initial_message(),
    {
        if self.screen != Screen::Messages {
            return ;
        }
        let current_selection = match self.messages.selected() {
            Some(i) => i,
            None => 0,
        };
        let len = self.messages.items.len();
        let mut i: usize = if current_selection < len {
            current_selection
        } else {
            len
        };
        while i > 0
            invariant
                *self == *old(self),
                self.screen == Screen::Messages,
                current_selection == self.messages@.cursor(),
                i <= self.messages.items@.len(),
                last_initial_before(self.messages.items@, i as nat) == last_initial_before(
                    self.messages.items@,
                    least(current_selection as nat, self.messages.items@.len()),
                ),
            decreases i,
        {
            if self.messages.items[i - 1].is_initial {
                self.messages.select(Some(i - 1));
                return ;
            }
            i -= 1;
        }
    }

    /// Switches between the two layouts of the message screen.
    pub fn toggle_split(&mut self)
        ensures
            final(self)@ == old(self)@.toggle_split(),
    {
        self.vertical_split = !self.vertical_split;
    }

    /// Starts a search with an empty query; every list shows all its items
    /// again, the selection staying on the item it was on.
    pub fn enter_search_mode(&mut self)
        ensures
            final(self)@ == old(self)@.enter_search_mode(),
    {
        self.search_mode = true;
        self.search_query = String::new();
        self.clear_search_filter_with_preservation(true);
    }

    /// Ends the search and drops its filter, the selection staying on the
    /// item it was on.
    pub fn exit_search_mode(&mut self)
        ensures
            final(self)@ == old(self)@.exit_search_mode(),
    {
        self.search_mode = false;
        self.search_query = String::new();
        self.clear_search_filter_with_preservation(true);
    }

    /// Ends the search and keeps its filter.
    pub fn exit_search_mode_keep_filter(&mut self)
        ensures
            final(self)@ == old(self)@.exit_search_mode_keep_filter(),
    {
        self.search_mode = false;
    }

    /// Adds a character to the query and filters the current list by it.
    pub fn add_to_search_query(&mut self, c: char)
        ensures
            final(self)@ == old(self)@.add_to_search_query(c),
    {
        push_char(&mut self.search_query, c);
        self.apply_search_filter();
    }

    /// Removes the last character of the query, if there is one, and filters
    /// the current list by what is left.
    pub fn remove_from_search_query(&mut self)
        ensures
            final(self)@ == old(self)@.remove_from_search_query(),
    {
        let _ = pop_char(&mut self.search_query);
        self.apply_search_filter();
    }

    /// Filters the current list by the query.
    fn apply_search_filter(&mut self)
        ensures
            final(self)@ == old(self)@.apply_search_filter(true),
    {
        self.apply_search_filter_with_preservation(true);
    }

    /// Filters the current list by the query: projects and chats by their
    /// names, messages by their number and content, all without regard to
    /// case. An empty query drops the filters of all lists.
    fn apply_search_filter_with_preservation(&mut self, preserve_selection: bool)
        ensures
            final(self)@ == old(self)@.apply_search_filter(preserve_selection),
    {
        if self.search_query.as_str().is_empty() {
            self.clear_search_filter_with_preservation(preserve_selection);
            return ;
        }
        let query = to_lowercase(self.search_query.as_str());
        match self.screen {
            Screen::Projects => {
                let ghost items = self.projects@.items;
                let accepts = |project: &Project| -> (keep: bool)
                    ensures
                        keep == name_matches(project.name@, query@),
                    {
                        let name = to_lowercase(project.name.as_str());
                        contains_text(name.as_str(), query.as_str())
                    };
                self.projects.apply_filter_with_selection_preservation(
                    accepts,
                    preserve_selection,
                );
                proof {
                    assert(items.len() == self.projects.items.len());
                    lemma_retained_positions(
                        items,
                        accepts,
                        self.projects@.filtered_indices,
                        project_filter(query@),
                    );
                    assert(self.projects@.filtered_items =~= picked(
                        items,
                        self.projects@.filtered_indices,
                    ));
                }
            },
            Screen::Chats => {
                let ghost items = self.chats@.items;
                let accepts = |chat: &Chat| -> (keep: bool)
                    ensures
                        keep == name_matches(chat.name@, query@),
                    {
                        let name = to_lowercase(chat.name.as_str());
                        contains_text(name.as_str(), query.as_str())
                    };
                self.chats.apply_filter_with_selection_preservation(accepts, preserve_selection);
                proof {
                    assert(items.len() == self.chats.items.len());
                    lemma_retained_positions(
                        items,
                        accepts,
                        self.chats@.filtered_indices,
                        chat_filter(query@),
                    );
                    assert(self.chats@.filtered_items =~= picked(
                        items,
                        self.chats@.filtered_indices,
                    ));
                }
            },
            Screen::Messages => {
                self.apply_message_filter(query.as_str());
            },
        }
    }

    /// Filters the message list: a message is retained where `query` occurs
    /// in its number, counted from one, or in its content in lower case. The
    /// selection stays on the message it was on where that is retained.
    pub fn apply_message_filter(&mut self, query: &str)
        ensures
            final(self)@ == old(self)@.apply_message_filter(query@),
    {
        let mut kept: Vec<usize> = Vec::new();
        let mut copies: Vec<HierarchicalMessage> = Vec::new();
        let mut i: usize = 0;
        while i < self.messages.items.len()
            invariant
                *self == *old(self),
                i <= self.messages.items@.len(),
                kept@ == positions(self.messages.items@, message_filter(query@), i as nat),
                copies@ == picked(self.messages.items@, kept@),
            decreases self.messages.items@.len() - i,
        {
            let message = &self.messages.items[i];
            let number = decimal_string((i + 1) as u64);
            let content = to_lowercase(message.message.get_content_text().as_str());
            if contains_text(number.as_str(), query) || contains_text(content.as_str(), query) {
                copies.push(message.clone());
                kept.push(i);
            }
            i += 1;
        }
        self.messages.install_filter(kept, copies, true);
    }

    /// Drops the filters of all lists; the first item of each is selected.
    fn clear_search_filter(&mut self)
        ensures
            final(self)@ == old(self)@.clear_search_filter(false),
    {
        self.clear_search_filter_with_preservation(false);
    }

    /// Drops the filters of all lists.
    fn clear_search_filter_with_preservation(&mut self, preserve_selection: bool)
        ensures
            final(self)@ == old(self)@.clear_search_filter(preserve_selection),
    {
        self.projects.clear_filter_with_preservation(preserve_selection);
        self.chats.clear_filter_with_preservation(preserve_selection);
        self.messages.clear_filter_with_preservation(preserve_selection);
    }
}

} // verus!
