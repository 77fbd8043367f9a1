use vstd::prelude::*;

use crate::nav::{ContextPage, NavPage};

verus! {

/// The colour scheme chosen in the settings.
#[derive(Clone, Copy, Debug, PartialEq, Eq, Structural)]
pub enum AppTheme {
    Dark,
    Light,
    System,
}

/// Entries of the application menu.
#[derive(Clone, Copy, Debug, PartialEq, Eq, Structural)]
pub enum Action {
    Nothing,
    About,
    Settings,
}

/// What the user or the system asked of the window.
#[derive(Clone, Debug, PartialEq, Eq)]
pub enum Event {
    Nothing,
    /// A theme was picked in the settings.
    AppTheme(AppTheme),
    /// The configuration was reloaded; it holds this theme.
    Config(AppTheme),
    /// A link of the about page was activated.
    LaunchUrl(String),
    /// A page was requested by a button.
    NavPage(NavPage),
    /// A column header of the process list was clicked; the column by its position.
    ProcessSort(usize),
    /// A fresh list of processes arrived.
    Snapshot,
    /// The desktop's theme changed.
    SystemThemeChange,
    /// The drawer for this page was requested or dismissed.
    ToggleContextPage(ContextPage),
    /// The escape key was pressed.
    Escape,
}

/// What the window has to do after an event.
#[derive(Clone, Debug, PartialEq, Eq)]
pub enum Effect {
    Nothing,
    /// Apply this theme to the window.
    ApplyTheme(AppTheme),
    /// Open this address in the user's browser.
    OpenUrl(String),
    /// Make this page the active page of the navigation bar.
    ActivatePage(NavPage),
    /// Order the process list by the current sort column and direction.
    SortProcesses,
}

/// The part of the window's state that events change.
#[derive(Clone, Copy, Debug, PartialEq, Eq, Structural)]
pub struct ViewState {
    /// The theme the settings hold.
    pub app_theme: AppTheme,
    /// The page the context drawer shows when it is open.
    pub context_page: ContextPage,
    /// Whether the context drawer is open.
    pub show_context: bool,
    /// The column the process list is sorted by, by its position.
    pub sort_column: usize,
    /// Whether the process list is sorted in reverse order.
    pub sort_reversed: bool,
}

impl AppTheme {
    /// The position of the theme in the settings' drop-down list.
    pub open spec fn index_of(self) -> usize {
        match self {
            AppTheme::System => 0,
            AppTheme::Dark => 1,
            AppTheme::Light => 2,
        }
    }

    /// The theme at a position of the drop-down list; positions past the list
    /// fall back to following the desktop.
    pub open spec fn at_index(index: usize) -> AppTheme {
        if index == 1 {
            AppTheme::Dark
        } else if index == 2 {
            AppTheme::Light
        } else {
            AppTheme::System
        }
    }

    /// The position of the theme in the drop-down list of the settings page.
    pub fn dropdown_index(&self) -> (index: usize)
        ensures
            index == self.index_of(),
            index < 3,
    {
        match self {
            AppTheme::Dark => 1,
            AppTheme::Light => 2,
            AppTheme::System => 0,
        }
    }

    /// The theme chosen at a position of the drop-down list of the settings page.
    pub fn from_dropdown_index(index: usize) -> (theme: AppTheme)
        ensures
            theme == AppTheme::at_index(index),
    {
        match index {
            1 => AppTheme::Dark,
            2 => AppTheme::Light,
            _ => AppTheme::System,
        }
    }
}

/// Picking the entry that shows a theme gives that theme back.
pub proof fn lemma_dropdown_round_trip(theme: AppTheme)
    ensures
        AppTheme::at_index(theme.index_of()) == theme,
{
}

/// Every entry of the list shows the theme that picking it chooses.
pub proof fn lemma_dropdown_entries(index: usize)
    requires
        index < 3,
    ensures
        AppTheme::at_index(index).index_of() == index,
{
}

impl Action {
    /// The event that the menu entry stands for.
    pub open spec fn event_of(self) -> Event {
        match self {
            Action::Nothing => Event::Nothing,
            Action::About => Event::ToggleContextPage(ContextPage::About),
            Action::Settings => Event::ToggleContextPage(ContextPage::Settings),
        }
    }

    /// The event that choosing the menu entry raises.
    pub fn message(&self) -> (event: Event)
        ensures
            event == self.event_of(),
    {
        match self {
            Action::Nothing => Event::Nothing,
            Action::About => Event::ToggleContextPage(ContextPage::About),
            Action::Settings => Event::ToggleContextPage(ContextPage::Settings),
        }
    }
}

impl ViewState {
    /// The state of a freshly opened window: drawer closed on the settings
    /// page, processes sorted by the given column in normal order.
    pub fn new(app_theme: AppTheme, sort_column: usize) -> (state: ViewState)
        ensures
            state == (ViewState {
                app_theme,
                context_page: ContextPage::Settings,
                show_context: false,
                sort_column,
                sort_reversed: false,
            }),
    {
        ViewState {
            app_theme,
            context_page: ContextPage::Settings,
            show_context: false,
            sort_column,
            sort_reversed: false,
        }
    }

    /// The state after the drawer for `page` was requested: the same page
    /// opens or closes the drawer, another page replaces it and opens it.
    pub open spec fn toggled(self, page: ContextPage) -> ViewState {
        if self.context_page == page {
            ViewState { show_context: !self.show_context, ..self }
        } else {
            ViewState { context_page: page, show_context: true, ..self }
        }
    }

    /// The state after the header of `column` was clicked: the same column
    /// reverses the order, another column sorts by it in normal order.
    pub open spec fn sorted_by(self, column: usize) -> ViewState {
        if self.sort_column == column {
            ViewState { sort_reversed: !self.sort_reversed, ..self }
        } else {
            ViewState { sort_column: column, sort_reversed: false, ..self }
        }
    }

    /// The page the context drawer shows, or `None` when it is closed.
    pub fn context_drawer(&self) -> (page: Option<ContextPage>)
        ensures
            page == (if self.show_context { Some(self.context_page) } else { None::<ContextPage> }),
    {
        if !self.show_context {
            return None;
        }
        Some(self.context_page)
    }

    /// Handles an event and says what the window has to do next.
    pub fn update(&mut self, event: Event) -> (effect: Effect)
        ensures
            match event {
                Event::Nothing => *final(self) == *old(self) && effect == Effect::Nothing,
                Event::AppTheme(theme) => {
                    &&& *final(self) == (ViewState { app_theme: theme, ..*old(self) })
                    &&& effect == Effect::ApplyTheme(theme)
                },
                Event::Config(theme) => if theme != old(self).app_theme {
                    &&& *final(self) == (ViewState { app_theme: theme, ..*old(self) })
                    &&& effect == Effect::ApplyTheme(theme)
                } else {
                    *final(self) == *old(self) && effect == Effect::Nothing
                },
                Event::LaunchUrl(url) => *final(self) == *old(self) && effect == Effect::OpenUrl(url),
                Event::NavPage(page) => *final(self) == *old(self) && effect == Effect::ActivatePage(page),
                Event::ProcessSort(column) => {
                    &&& *final(self) == old(self).sorted_by(column)
                    &&& effect == Effect::SortProcesses
                },
                Event::Snapshot => *final(self) == *old(self) && effect == Effect::SortProcesses,
                Event::SystemThemeChange => {
                    &&& *final(self) == *old(self)
                    &&& effect == Effect::ApplyTheme(old(self).app_theme)
                },
                Event::ToggleContextPage(page) => {
                    &&& *final(self) == old(self).toggled(page)
                    &&& effect == Effect::Nothing
                },
                Event::Escape => if old(self).show_context {
                    *final(self) == old(self).toggled(old(self).context_page) && effect == Effect::Nothing
                } else {
                    *final(self) == *old(self) && effect == Effect::Nothing
                },
            },
    {
        match event {
            Event::Nothing => Effect::Nothing,
            Event::AppTheme(theme) => {
                self.app_theme = theme;
                Effect::ApplyTheme(theme)
            },
            Event::Config(theme) => {
                if theme != self.app_theme {
                    self.app_theme = theme;
                    Effect::ApplyTheme(theme)
                } else {
                    Effect::Nothing
                }
            },
            Event::LaunchUrl(url) => Effect::OpenUrl(url),
            Event::NavPage(page) => Effect::ActivatePage(page),
            Event::ProcessSort(column) => {
                if self.sort_column == column {
                    self.sort_reversed = !self.sort_reversed;
                } else {
                    self.sort_column = column;
                    self.sort_reversed = false;
                }
                Effect::SortProcesses
            },
            Event::Snapshot => Effect::SortProcesses,
            Event::SystemThemeChange => Effect::ApplyTheme(self.app_theme),
            Event::ToggleContextPage(page) => {
                self.toggle_context_page(page);
                Effect::Nothing
            },
            Event::Escape => {
                if self.show_context {
                    let page = self.context_page;
                    self.toggle_context_page(page);
                }
                Effect::Nothing
            },
        }
    }

    fn toggle_context_page(&mut self, page: ContextPage)
        ensures
            *final(self) == old(self).toggled(page),
    {
        if self.context_page == page {
            self.show_context = !self.show_context;
        } else {
            self.context_page = page;
            self.show_context = true;
        }
    }
}

/// Requesting the drawer of the same page twice leaves the state as it was.
pub proof fn lemma_toggle_twice(state: ViewState, page: ContextPage)
    requires
        state.context_page == page,
    ensures
        state.toggled(page).toggled(page) == state,
{
}

/// Requesting the drawer of another page always shows that page.
pub proof fn lemma_toggle_other_page_opens(state: ViewState, page: ContextPage)
    requires
        state.context_page != page,
    ensures
        state.toggled(page).show_context,
        state.toggled(page).context_page == page,
{
}

/// Escape closes an open drawer and keeps its page; on a closed drawer it does nothing.
pub proof fn lemma_escape_closes_drawer(state: ViewState)
    ensures
        state.show_context ==> !state.toggled(state.context_page).show_context,
        state.show_context ==> state.toggled(state.context_page).context_page == state.context_page,
{
}

/// Clicking the header of the column the list is sorted by twice restores the order.
pub proof fn lemma_sort_twice(state: ViewState, column: usize)
    requires
        state.sort_column == column,
    ensures
        state.sorted_by(column).sorted_by(column) == state,
{
}

/// Clicking a new column sorts by it in normal order.
pub proof fn lemma_sort_new_column(state: ViewState, column: usize)
    requires
        state.sort_column != column,
    ensures
        state.sorted_by(column).sort_column == column,
        !state.sorted_by(column).sort_reversed,
{
}

} // verus!
