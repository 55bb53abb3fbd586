//! The settings: four tabs whose changes are staged until they are applied.

use crate::chars::whitespace;
use crate::config_editor::{scrolled_to, ConfigEditor};
use crate::field::{edit_field, field_after, field_changes, field_ready};
use crate::input::search_opened;
use crate::keys::{KeyCode, KeyEvent};
use crate::model::{copy_opt, App, AppMode, Command, Page};
use crate::navigation::dispatched;
use crate::paths::absolute;
use crate::strings::{
    ascii_lowered, concat, copy_texts, decimal, holds_text, is_blank, join, joined, lower, opt_text,
    same_ignoring_ascii_case, same_text, texts, to_decimal, to_lower, trim, trimmed,
};
use crate::text::{byte_len, max, push_char, push_text, text_len, to_chars};
use crate::theme::{builtin_theme, theme_from, theme_name, theme_position, THEME_COUNT};
use vstd::prelude::*;

verus! {

/// What the configuration file holds.
#[derive(Debug)]
pub struct Config {
    pub theme: String,
    pub startup_page: String,
    pub pdf_viewer: Option<String>,
    pub library_folders: Vec<String>,
    pub download_path: Option<String>,
    pub projects_directory: Option<String>,
    pub dashboard_keywords: String,
    pub enabled_plugins: Vec<String>,
}

/// A tab of the settings.
#[derive(Clone, Copy, Debug, PartialEq, Eq, Structural)]
pub enum SettingsTab {
    Theme,
    General,
    Paths,
    Plugins,
}

/// The tab to the right, the first behind the last.
pub open spec fn tab_behind(tab: SettingsTab) -> SettingsTab {
    match tab {
        SettingsTab::Theme => SettingsTab::General,
        SettingsTab::General => SettingsTab::Paths,
        SettingsTab::Paths => SettingsTab::Plugins,
        SettingsTab::Plugins => SettingsTab::Theme,
    }
}

/// The tab to the left, the last before the first.
pub open spec fn tab_before(tab: SettingsTab) -> SettingsTab {
    match tab {
        SettingsTab::Theme => SettingsTab::Plugins,
        SettingsTab::General => SettingsTab::Theme,
        SettingsTab::Paths => SettingsTab::General,
        SettingsTab::Plugins => SettingsTab::Paths,
    }
}

impl SettingsTab {
    /// The tab to the right, the first behind the last.
    pub fn next(self) -> (r: SettingsTab)
        ensures
            r == tab_behind(self),
    {
        match self {
            SettingsTab::Theme => SettingsTab::General,
            SettingsTab::General => SettingsTab::Paths,
            SettingsTab::Paths => SettingsTab::Plugins,
            SettingsTab::Plugins => SettingsTab::Theme,
        }
    }

    /// The tab to the left, the last before the first.
    pub fn prev(self) -> (r: SettingsTab)
        ensures
            r == tab_before(self),
    {
        match self {
            SettingsTab::Theme => SettingsTab::Plugins,
            SettingsTab::General => SettingsTab::Theme,
            SettingsTab::Paths => SettingsTab::General,
            SettingsTab::Plugins => SettingsTab::Paths,
        }
    }
}

/// Going right and going left undo each other.
pub proof fn lemma_tabs_wrap(tab: SettingsTab)
    ensures
        tab_before(tab_behind(tab)) == tab,
        tab_behind(tab_before(tab)) == tab,
        tab_behind(tab_behind(tab_behind(tab_behind(tab)))) == tab,
{
}

/// What has the focus in the general tab.
#[derive(Clone, Copy, Debug, PartialEq, Eq, Structural)]
pub enum GeneralTabFocus {
    StartupPage,
    PdfViewer,
    DashboardKeywords,
    EnabledPlugins,
}

/// What has the focus in the tab of the paths.
#[derive(Clone, Copy, Debug, PartialEq, Eq, Structural)]
pub enum PathsTabFocus {
    LibraryFolders,
    DownloadPath,
    ProjectsDirectory,
}

/// An entry of a list of texts.
#[derive(Debug)]
pub struct PathEntryState {
    pub text: String,
    pub cursor: usize,
    pub error: Option<String>,
}

impl PathEntryState {
    /// An entry with the caret behind its text.
    pub fn new(text: String) -> (r: PathEntryState)
        ensures
            r.text == text,
            r.cursor == byte_len(text@),
            r.error is None,
    {
        let cursor: usize = text_len(text.as_str());
        PathEntryState { text, cursor, error: None }
    }
}

/// A plugin that is installed.
#[derive(Debug)]
pub struct Plugin {
    pub id: String,
    pub name: String,
    pub version: String,
    pub description: String,
}

/// The settings as they are staged.
#[derive(Debug)]
pub struct SettingsModalState {
    pub tab: SettingsTab,
    pub tab_bar_focused: bool,
    pub original_theme: String,
    pub theme_selected: usize,
    pub theme_scroll: usize,
    pub startup_page: String,
    pub startup_page_selected: usize,
    pub startup_page_options: Vec<String>,
    pub pdf_viewer: String,
    pub pdf_viewer_cursor: usize,
    pub pdf_viewer_editing: bool,
    pub keyword_entries: Vec<PathEntryState>,
    pub keyword_selected: usize,
    pub keyword_editing: bool,
    pub enabled_plugins: Vec<String>,
    pub general_focus: GeneralTabFocus,
    pub library_entries: Vec<PathEntryState>,
    pub library_selected: usize,
    pub library_editing: bool,
    pub download_path: String,
    pub download_path_cursor: usize,
    pub download_path_editing: bool,
    pub download_path_error: Option<String>,
    pub projects_directory: String,
    pub projects_directory_cursor: usize,
    pub projects_directory_editing: bool,
    pub projects_directory_error: Option<String>,
    pub paths_focus: PathsTabFocus,
    pub plugins: Vec<Plugin>,
    pub plugins_selected: usize,
    pub plugins_scroll: usize,
}

/// Whether a selection points at an entry of a list, or at its start.
pub open spec fn selects(len: nat, selected: usize) -> bool {
    selected < len || selected == 0
}

impl SettingsModalState {
    /// Whether the selections point at what there is.
    pub open spec fn wf(self) -> bool {
        &&& selects(self.keyword_entries@.len(), self.keyword_selected)
        &&& selects(self.library_entries@.len(), self.library_selected)
        &&& self.theme_selected < THEME_COUNT
        &&& self.plugins_selected < usize::MAX
    }

    /// Whether a field is being edited.
    pub open spec fn editing(self) -> bool {
        self.pdf_viewer_editing || self.keyword_editing || self.library_editing
            || self.download_path_editing || self.projects_directory_editing
    }

    /// Whether the field that a key goes to is ready for it.
    pub open spec fn ready(self, key: KeyEvent) -> bool {
        match self.tab {
            SettingsTab::General => if self.pdf_viewer_editing {
                field_ready(self.pdf_viewer@, self.pdf_viewer_cursor as int, key)
            } else if self.keyword_editing {
                entry_ready(self.keyword_entries@, self.keyword_selected as int, key)
            } else {
                true
            },
            SettingsTab::Paths => match self.paths_focus {
                PathsTabFocus::LibraryFolders => self.library_editing ==> entry_ready(
                    self.library_entries@,
                    self.library_selected as int,
                    key,
                ),
                PathsTabFocus::DownloadPath => self.download_path_editing ==> field_ready(
                    self.download_path@,
                    self.download_path_cursor as int,
                    key,
                ),
                PathsTabFocus::ProjectsDirectory => self.projects_directory_editing ==> field_ready(
                    self.projects_directory@,
                    self.projects_directory_cursor as int,
                    key,
                ),
            },
            _ => true,
        }
    }
}

/// Whether the selected entry is ready for a key.
pub open spec fn entry_ready(entries: Seq<PathEntryState>, selected: int, key: KeyEvent) -> bool {
    0 <= selected < entries.len() ==> field_ready(
        entries[selected].text@,
        entries[selected].cursor as int,
        key,
    )
}

impl Default for SettingsModalState {
    fn default() -> (r: SettingsModalState)
        ensures
            r.wf(),
            !r.editing(),
            r.original_theme@.len() == 0,
            r.startup_page@.len() == 0,
            texts(r.startup_page_options@) == startup_pages(),
            r.pdf_viewer@.len() == 0,
            r.keyword_entries@.len() == 0,
            r.enabled_plugins@.len() == 0,
            r.library_entries@.len() == 0,
            r.download_path@.len() == 0,
            r.projects_directory@.len() == 0,
            r.plugins@.len() == 0,
            r == (SettingsModalState {
                tab: SettingsTab::Theme,
                tab_bar_focused: true,
                theme_selected: 0,
                theme_scroll: 0,
                startup_page_selected: 0,
                pdf_viewer_cursor: 0,
                pdf_viewer_editing: false,
                keyword_selected: 0,
                keyword_editing: false,
                general_focus: GeneralTabFocus::StartupPage,
                library_selected: 0,
                library_editing: false,
                download_path_cursor: 0,
                download_path_editing: false,
                download_path_error: None,
                projects_directory_cursor: 0,
                projects_directory_editing: false,
                projects_directory_error: None,
                paths_focus: PathsTabFocus::LibraryFolders,
                plugins_selected: 0,
                plugins_scroll: 0,
                ..r
            }),
    {
        SettingsModalState {
            tab: SettingsTab::Theme,
            tab_bar_focused: true,
            original_theme: String::new(),
            theme_selected: 0,
            theme_scroll: 0,
            startup_page: String::new(),
            startup_page_selected: 0,
            startup_page_options: startup_page_options(),
            pdf_viewer: String::new(),
            pdf_viewer_cursor: 0,
            pdf_viewer_editing: false,
            keyword_entries: Vec::new(),
            keyword_selected: 0,
            keyword_editing: false,
            enabled_plugins: Vec::new(),
            general_focus: GeneralTabFocus::StartupPage,
            library_entries: Vec::new(),
            library_selected: 0,
            library_editing: false,
            download_path: String::new(),
            download_path_cursor: 0,
            download_path_editing: false,
            download_path_error: None,
            projects_directory: String::new(),
            projects_directory_cursor: 0,
            projects_directory_editing: false,
            projects_directory_error: None,
            paths_focus: PathsTabFocus::LibraryFolders,
            plugins: Vec::new(),
            plugins_selected: 0,
            plugins_scroll: 0,
        }
    }
}

/// The sections that can be shown first, as the configuration names them.
pub open spec fn startup_pages() -> Seq<Seq<char>> {
    seq!["dashboard"@, "discover"@, "library"@, "reading_queue"@, "projects"@]
}

/// The sections that can be shown first, as the configuration names them.
pub fn startup_page_options() -> (r: Vec<String>)
    ensures
        texts(r@) == startup_pages(),
{
    let mut r: Vec<String> = Vec::new();
    r.push("dashboard".to_owned());
    r.push("discover".to_owned());
    r.push("library".to_owned());
    r.push("reading_queue".to_owned());
    r.push("projects".to_owned());
    assert(texts(r@) =~= startup_pages());
    r
}

/// The sections that can be shown first, as the settings show them.
pub fn startup_page_label(i: usize) -> (r: &'static str)
    ensures
        r@ == startup_label(i),
{
    match i {
        1 => "Discover",
        2 => "Library",
        3 => "Reading Queue",
        4 => "Projects",
        _ => "Dashboard",
    }
}

/// The sections that can be shown first, as the settings show them.
pub open spec fn startup_label(i: usize) -> Seq<char> {
    match i {
        1 => "Discover"@,
        2 => "Library"@,
        3 => "Reading Queue"@,
        4 => "Projects"@,
        _ => "Dashboard"@,
    }
}

// ---------------------------------------------------------------------------
// Keywords of the dashboard
// ---------------------------------------------------------------------------

/// Position of the first comma, from `k` on, or the end.
pub open spec fn comma_from(s: Seq<char>, k: int) -> int
    decreases s.len() - k,
{
    if k < s.len() && s[k] != ',' {
        comma_from(s, k + 1)
    } else {
        k
    }
}

/// The keywords of a list that is separated by commas, from position `k` on:
/// without the white space around them, and none that is empty.
pub open spec fn keywords_from(s: Seq<char>, k: int) -> Seq<Seq<char>>
    decreases s.len() + 1 - k,
    via keywords_from_decreases
{
    if k < 0 || k > s.len() {
        Seq::empty()
    } else {
        let end = comma_from(s, k);
        let word = trimmed(s.subrange(k, end));
        let rest = keywords_from(s, end + 1);
        if word.len() > 0 {
            seq![word] + rest
        } else {
            rest
        }
    }
}

#[via_fn]
proof fn keywords_from_decreases(s: Seq<char>, k: int) {
    if 0 <= k <= s.len() {
        lemma_comma_from(s, k);
    }
}

proof fn lemma_comma_from(s: Seq<char>, k: int)
    requires
        0 <= k <= s.len(),
    ensures
        k <= comma_from(s, k) <= s.len(),
        forall|j: int| k <= j < comma_from(s, k) ==> s[j] != ',',
    decreases s.len() - k,
{
    if k < s.len() && s[k] != ',' {
        lemma_comma_from(s, k + 1);
    }
}

impl Config {
    /// The keywords of the dashboard.
    pub fn dashboard_keyword_list(&self) -> (r: Vec<String>)
        ensures
            texts(r@) == keywords_from(self.dashboard_keywords@, 0),
    {
        let chars = to_chars(self.dashboard_keywords.as_str());
        let n: usize = chars.len();
        let mut r: Vec<String> = Vec::new();
        let mut k: usize = 0;
        let ghost all = keywords_from(chars@, 0);
        assert(texts(r@) + all =~= all);
        loop
            invariant_except_break
                k <= n,
                texts(r@) + keywords_from(chars@, k as int) == all,
            invariant
                n == chars@.len(),
            ensures
                texts(r@) == all,
            decreases n - k,
        {
            let mut end: usize = k;
            while end < n && chars[end] != ','
                invariant
                    k <= end <= n == chars@.len(),
                    comma_from(chars@, k as int) == comma_from(chars@, end as int),
                decreases n - end,
            {
                end = end + 1;
            }
            let part = crate::text::from_range(&chars, k, end);
            let word = trim(part.as_str());
            let ghost before = texts(r@);
            let ghost rest = keywords_from(chars@, end + 1);
            let ghost w = word@;
            if !word.as_str().is_empty() {
                r.push(word);
                proof {
                    assert(texts(r@) =~= before.push(w));
                    assert(before + (seq![w] + rest) =~= texts(r@) + rest);
                }
            }
            assert(texts(r@) + rest == all);
            if end == n {
                proof {
                    assert(rest =~= Seq::empty());
                    assert(texts(r@) + rest =~= texts(r@));
                }
                break ;
            }
            k = end + 1;
        }
        r
    }
}

// ---------------------------------------------------------------------------
// Opening and staging
// ---------------------------------------------------------------------------

/// Position of the first built-in theme, from `k` on, whose name in lower case is
/// that of `name`.
pub open spec fn theme_lowered_from(name: Seq<char>, k: usize) -> Option<usize>
    decreases THEME_COUNT - k,
{
    if k >= THEME_COUNT {
        None
    } else if lower(theme_name(k)) == lower(name) {
        Some(k)
    } else {
        theme_lowered_from(name, (k + 1) as usize)
    }
}

fn find_theme_lowered(name: &str) -> (r: usize)
    ensures
        r == theme_lowered_from(name@, 0).unwrap_or(0),
        r < THEME_COUNT,
{
    let wanted = to_lower(name);
    let mut k: usize = 0;
    while k < THEME_COUNT
        invariant
            k <= THEME_COUNT,
            wanted@ == lower(name@),
            theme_lowered_from(name@, 0) == theme_lowered_from(name@, k),
        decreases THEME_COUNT - k,
    {
        let own = to_lower(builtin_theme(k));
        if same_text(own.as_str(), wanted.as_str()) {
            return k;
        }
        k = k + 1;
    }
    0
}

/// Position of the first text, from `k` on, that is `name` in lower case.
pub open spec fn option_from(options: Seq<Seq<char>>, name: Seq<char>, k: int) -> Option<int>
    decreases options.len() - k,
{
    if k < 0 || k >= options.len() {
        None
    } else if lower(options[k]) == lower(name) {
        Some(k)
    } else {
        option_from(options, name, k + 1)
    }
}

fn find_option(options: &Vec<String>, name: &str) -> (r: usize)
    ensures
        r == option_from(texts(options@), name@, 0).unwrap_or(0),
        r < options@.len() || r == 0,
{
    let wanted = to_lower(name);
    let mut k: usize = 0;
    while k < options.len()
        invariant
            k <= options@.len(),
            wanted@ == lower(name@),
            option_from(texts(options@), name@, 0) == option_from(
                texts(options@),
                name@,
                k as int,
            ),
        decreases options@.len() - k,
    {
        let own = to_lower(options[k].as_str());
        if same_text(own.as_str(), wanted.as_str()) {
            return k;
        }
        k = k + 1;
    }
    0
}

/// Whether entries hold texts, each with the caret behind it and without an error.
pub open spec fn fresh_entries(entries: Seq<PathEntryState>, t: Seq<Seq<char>>) -> bool {
    &&& entries.len() == t.len()
    &&& forall|i: int|
        0 <= i < t.len() ==> (#[trigger] entries[i]).text@ == t[i] && entries[i].cursor == byte_len(
            t[i],
        ) && entries[i].error is None
}

fn make_entries(t: &Vec<String>) -> (r: Vec<PathEntryState>)
    ensures
        fresh_entries(r@, texts(t@)),
{
    let mut r: Vec<PathEntryState> = Vec::new();
    let mut i: usize = 0;
    while i < t.len()
        invariant
            i <= t@.len(),
            r@.len() == i,
            forall|j: int|
                0 <= j < i ==> (#[trigger] r@[j]).text@ == t@[j]@ && r@[j].cursor == byte_len(
                    t@[j]@,
                ) && r@[j].error is None,
        decreases t@.len() - i,
    {
        r.push(PathEntryState::new(t[i].clone()));
        i = i + 1;
    }
    r
}

/// A text that may be missing, as a field shows it.
pub open spec fn shown_opt(t: Option<String>) -> Seq<char> {
    match t {
        Some(s) => s@,
        None => Seq::empty(),
    }
}

fn show_opt(t: &Option<String>) -> (r: String)
    ensures
        r@ == shown_opt(*t),
{
    match t {
        Some(s) => s.clone(),
        None => {
            let r = String::new();
            assert(r@ =~= Seq::empty());
            r
        },
    }
}

/// Whether the settings show a configuration and the theme in use, from the start.
pub open spec fn opened(
    before: SettingsModalState,
    after: SettingsModalState,
    config: Config,
    theme: Seq<char>,
) -> bool {
    &&& after == SettingsModalState {
        tab: SettingsTab::Theme,
        tab_bar_focused: true,
        original_theme: after.original_theme,
        theme_selected: theme_lowered_from(theme, 0).unwrap_or(0),
        theme_scroll: 0,
        startup_page: config.startup_page,
        startup_page_selected: option_from(
            texts(before.startup_page_options@),
            config.startup_page@,
            0,
        ).unwrap_or(0) as usize,
        startup_page_options: before.startup_page_options,
        pdf_viewer: after.pdf_viewer,
        pdf_viewer_cursor: byte_len(shown_opt(config.pdf_viewer)) as usize,
        pdf_viewer_editing: false,
        keyword_entries: after.keyword_entries,
        keyword_selected: 0,
        keyword_editing: false,
        enabled_plugins: after.enabled_plugins,
        general_focus: GeneralTabFocus::StartupPage,
        library_entries: after.library_entries,
        library_selected: 0,
        library_editing: false,
        download_path: after.download_path,
        download_path_cursor: byte_len(shown_opt(config.download_path)) as usize,
        download_path_editing: false,
        download_path_error: None,
        projects_directory: after.projects_directory,
        projects_directory_cursor: byte_len(shown_opt(config.projects_directory)) as usize,
        projects_directory_editing: false,
        projects_directory_error: None,
        paths_focus: PathsTabFocus::LibraryFolders,
        plugins: before.plugins,
        plugins_selected: 0,
        plugins_scroll: 0,
    }
    &&& after.original_theme@ == theme
    &&& after.pdf_viewer@ == shown_opt(config.pdf_viewer)
    &&& fresh_entries(after.keyword_entries@, keywords_from(config.dashboard_keywords@, 0))
    &&& after.enabled_plugins@ == config.enabled_plugins@
    &&& fresh_entries(after.library_entries@, texts(config.library_folders@))
    &&& after.download_path@ == shown_opt(config.download_path)
    &&& after.projects_directory@ == shown_opt(config.projects_directory)
}

/// Shows a configuration in the settings, with the theme that is in use.
pub fn open_settings_modal(
    app: &mut App,
    modal: &mut SettingsModalState,
    config: &Config,
    current_theme_name: &str,
)
    ensures
        *final(app) == (App { mode: AppMode::Normal, ..*old(app) }),
        opened(*old(modal), *final(modal), *config, current_theme_name@),
        final(modal).wf(),
        !final(modal).editing(),
{
    modal.original_theme = current_theme_name.to_owned();
    modal.theme_selected = find_theme_lowered(current_theme_name);
    modal.theme_scroll = 0;
    modal.startup_page = config.startup_page.clone();
    modal.startup_page_selected = find_option(
        &modal.startup_page_options,
        config.startup_page.as_str(),
    );
    modal.pdf_viewer = show_opt(&config.pdf_viewer);
    modal.pdf_viewer_cursor = text_len(modal.pdf_viewer.as_str());
    modal.pdf_viewer_editing = false;
    modal.keyword_entries = make_entries(&config.dashboard_keyword_list());
    modal.keyword_selected = 0;
    modal.keyword_editing = false;
    modal.enabled_plugins = copy_texts(&config.enabled_plugins);
    modal.general_focus = GeneralTabFocus::StartupPage;
    modal.library_entries = make_entries(&config.library_folders);
    modal.library_selected = 0;
    modal.library_editing = false;
    modal.download_path = show_opt(&config.download_path);
    modal.download_path_cursor = text_len(modal.download_path.as_str());
    modal.download_path_editing = false;
    modal.download_path_error = None;
    modal.projects_directory = show_opt(&config.projects_directory);
    modal.projects_directory_cursor = text_len(modal.projects_directory.as_str());
    modal.projects_directory_editing = false;
    modal.projects_directory_error = None;
    modal.paths_focus = PathsTabFocus::LibraryFolders;
    modal.plugins_selected = 0;
    modal.plugins_scroll = 0;
    modal.tab = SettingsTab::Theme;
    modal.tab_bar_focused = true;
    app.mode = AppMode::Normal;
}

/// The texts of entries.
pub open spec fn entry_texts(entries: Seq<PathEntryState>) -> Seq<Seq<char>> {
    entries.map_values(|e: PathEntryState| e.text@)
}

/// The texts that are more than white space.
pub open spec fn filled(t: Seq<Seq<char>>) -> Seq<Seq<char>>
    decreases t.len(),
{
    if t.len() == 0 {
        Seq::empty()
    } else if trimmed(t.last()).len() > 0 {
        filled(t.drop_last()).push(t.last())
    } else {
        filled(t.drop_last())
    }
}

/// The texts that are more than white space, without the white space around them.
pub open spec fn filled_trimmed(t: Seq<Seq<char>>) -> Seq<Seq<char>>
    decreases t.len(),
{
    if t.len() == 0 {
        Seq::empty()
    } else if trimmed(t.last()).len() > 0 {
        filled_trimmed(t.drop_last()).push(trimmed(t.last()))
    } else {
        filled_trimmed(t.drop_last())
    }
}

/// A text, or nothing where there is only white space.
pub open spec fn unless_blank(t: Seq<char>) -> Option<Seq<char>> {
    if trimmed(t).len() == 0 {
        None
    } else {
        Some(t)
    }
}

fn keep_text(t: &String) -> (r: Option<String>)
    ensures
        opt_text(r) == unless_blank(t@),
{
    if is_blank(t.as_str()) {
        None
    } else {
        Some(t.clone())
    }
}

/// Whether a configuration is the one that is staged.
pub open spec fn staged(modal: SettingsModalState, options: Seq<Seq<char>>, r: Config) -> bool {
    &&& r.theme@ == (if modal.theme_selected < THEME_COUNT {
        theme_name(modal.theme_selected)
    } else {
        "catppuccin-mocha"@
    })
    &&& r.startup_page@ == (if modal.startup_page_selected < options.len() {
        options[modal.startup_page_selected as int]
    } else {
        "dashboard"@
    })
    &&& opt_text(r.pdf_viewer) == unless_blank(modal.pdf_viewer@)
    &&& texts(r.library_folders@) == filled(entry_texts(modal.library_entries@))
    &&& opt_text(r.download_path) == unless_blank(modal.download_path@)
    &&& opt_text(r.projects_directory) == unless_blank(modal.projects_directory@)
    &&& r.dashboard_keywords@ == joined(
        filled_trimmed(entry_texts(modal.keyword_entries@)),
        ", "@,
    )
    &&& r.enabled_plugins@ == modal.enabled_plugins@
}

/// A setting that may be missing, or is nothing but white space.
pub open spec fn said(t: Option<String>) -> Option<Seq<char>> {
    match t {
        Some(s) => unless_blank(s@),
        None => None,
    }
}

/// What is staged right after the settings have been opened is the configuration
/// that they were opened with: the theme in use and the first section, where
/// there are such, and everything else but for what is blank and the white space
/// around keywords.
pub proof fn lemma_staged_as_opened(
    before: SettingsModalState,
    modal: SettingsModalState,
    config: Config,
    theme: Seq<char>,
    r: Config,
)
    requires
        opened(before, modal, config, theme),
        staged(modal, texts(modal.startup_page_options@), r),
    ensures
        theme_lowered_from(theme, 0) is Some ==> lower(r.theme@) == lower(theme),
        option_from(texts(modal.startup_page_options@), config.startup_page@, 0) is Some ==> lower(
            r.startup_page@,
        ) == lower(config.startup_page@),
        opt_text(r.pdf_viewer) == said(config.pdf_viewer),
        texts(r.library_folders@) == filled(texts(config.library_folders@)),
        opt_text(r.download_path) == said(config.download_path),
        opt_text(r.projects_directory) == said(config.projects_directory),
        r.dashboard_keywords@ == joined(keywords_from(config.dashboard_keywords@, 0), ", "@),
        keywords_from(r.dashboard_keywords@, 0) == keywords_from(config.dashboard_keywords@, 0),
        r.enabled_plugins@ == config.enabled_plugins@,
{
    lemma_theme_lowered(theme, 0);
    lemma_option_found(texts(modal.startup_page_options@), config.startup_page@, 0);
    assert(modal.startup_page_options@.len() == modal.startup_page_options.len());
    assert(trimmed(Seq::<char>::empty()).len() == 0);
    assert(entry_texts(modal.library_entries@) =~= texts(config.library_folders@));
    let words = keywords_from(config.dashboard_keywords@, 0);
    assert(entry_texts(modal.keyword_entries@) =~= words);
    lemma_keywords_trimmed(config.dashboard_keywords@, 0);
    lemma_all_filled(words);
    lemma_keywords_read_back(words);
}

proof fn lemma_theme_lowered(name: Seq<char>, k: usize)
    ensures
        theme_lowered_from(name, k) matches Some(i) ==> i < THEME_COUNT && lower(theme_name(i))
            == lower(name),
    decreases THEME_COUNT - k,
{
    if k < THEME_COUNT && lower(theme_name(k)) != lower(name) {
        lemma_theme_lowered(name, (k + 1) as usize);
    }
}

proof fn lemma_option_found(options: Seq<Seq<char>>, name: Seq<char>, k: int)
    ensures
        option_from(options, name, k) matches Some(i) ==> 0 <= i < options.len() && lower(
            options[i],
        ) == lower(name),
    decreases options.len() - k,
{
    if 0 <= k < options.len() && lower(options[k]) != lower(name) {
        lemma_option_found(options, name, k + 1);
    }
}

proof fn lemma_keywords_trimmed(s: Seq<char>, k: int)
    ensures
        forall|i: int|
            0 <= i < keywords_from(s, k).len() ==> (#[trigger] keywords_from(s, k)[i]).len() > 0
                && trimmed(keywords_from(s, k)[i]) == keywords_from(s, k)[i] && !keywords_from(
                s,
                k,
            )[i].contains(','),
    decreases s.len() + 1 - k,
{
    if 0 <= k <= s.len() {
        lemma_comma_from(s, k);
        let end = comma_from(s, k);
        let word = trimmed(s.subrange(k, end));
        lemma_keywords_trimmed(s, end + 1);
        crate::strings::lemma_trimmed_again(s.subrange(k, end));
        crate::strings::lemma_trimmed_part(s.subrange(k, end));
        let rest = keywords_from(s, end + 1);
        if word.len() > 0 {
            assert(keywords_from(s, k) == seq![word] + rest);
            assert forall|i: int| 0 <= i < keywords_from(s, k).len() implies (
            #[trigger] keywords_from(s, k)[i]).len() > 0 && trimmed(keywords_from(s, k)[i])
                == keywords_from(s, k)[i] && !keywords_from(s, k)[i].contains(',') by {
                if i > 0 {
                    assert(keywords_from(s, k)[i] == rest[i - 1]);
                }
            }
        } else {
            assert(keywords_from(s, k) == rest);
        }
    }
}

proof fn lemma_all_filled(t: Seq<Seq<char>>)
    requires
        forall|i: int| 0 <= i < t.len() ==> (#[trigger] t[i]).len() > 0 && trimmed(t[i]) == t[i],
    ensures
        filled_trimmed(t) == t,
    decreases t.len(),
{
    if t.len() > 0 {
        assert forall|i: int| 0 <= i < t.drop_last().len() implies (#[trigger] t.drop_last()[i]).len()
            > 0 && trimmed(t.drop_last()[i]) == t.drop_last()[i] by {
            assert(t.drop_last()[i] == t[i]);
        }
        lemma_all_filled(t.drop_last());
        assert(t.drop_last().push(t.last()) =~= t);
    }
}

proof fn lemma_comma_shift(a: Seq<char>, t: Seq<char>, k: int)
    requires
        0 <= k <= t.len(),
    ensures
        comma_from(a + t, a.len() + k) == a.len() + comma_from(t, k),
    decreases t.len() - k,
{
    if k < t.len() {
        assert((a + t)[a.len() + k] == t[k]);
        if t[k] != ',' {
            lemma_comma_shift(a, t, k + 1);
        }
    }
}

proof fn lemma_keywords_shift(a: Seq<char>, t: Seq<char>, k: int)
    requires
        0 <= k,
    ensures
        keywords_from(a + t, a.len() + k) == keywords_from(t, k),
    decreases t.len() + 1 - k,
{
    if k <= t.len() {
        lemma_comma_from(t, k);
        lemma_comma_shift(a, t, k);
        let end = comma_from(t, k);
        assert((a + t).subrange(a.len() + k, a.len() + end) =~= t.subrange(k, end));
        lemma_keywords_shift(a, t, end + 1);
    }
}

/// A space before a list of keywords makes no difference.
proof fn lemma_space_before_keywords(t: Seq<char>)
    ensures
        keywords_from(seq![' '] + t, 0) == keywords_from(t, 0),
{
    let s = seq![' '] + t;
    lemma_comma_from(t, 0);
    lemma_comma_shift(seq![' '], t, 0);
    let end = comma_from(t, 0);
    assert(s[0] == ' ');
    assert(comma_from(s, 0) == comma_from(s, 1));
    assert(comma_from(s, 0) == end + 1);
    assert(s.subrange(0, end + 1).drop_first() =~= t.subrange(0, end));
    assert(crate::strings::trim_start(s.subrange(0, end + 1)) == crate::strings::trim_start(
        t.subrange(0, end),
    ));
    lemma_keywords_shift(seq![' '], t, end + 1);
}

proof fn lemma_no_comma(w: Seq<char>, t: Seq<char>, k: int)
    requires
        0 <= k <= w.len(),
        !w.contains(','),
        t.len() == 0 || t[0] == ',',
    ensures
        comma_from(w + t, k) == w.len(),
    decreases w.len() - k,
{
    if k < w.len() {
        assert((w + t)[k] == w[k]);
        assert(w.contains(w[k]));
        lemma_no_comma(w, t, k + 1);
    }
}

proof fn lemma_joined_first(parts: Seq<Seq<char>>, sep: Seq<char>)
    requires
        parts.len() > 1,
    ensures
        joined(parts, sep) == parts[0] + (sep + joined(parts.drop_first(), sep)),
    decreases parts.len(),
{
    let tail = parts.drop_first();
    if parts.len() == 2 {
        assert(joined(parts.drop_last(), sep) == parts[0]);
        assert(joined(tail, sep) == parts[1]);
    } else {
        lemma_joined_first(parts.drop_last(), sep);
        assert(parts.drop_last().drop_first() =~= tail.drop_last());
    }
    assert(joined(parts, sep) =~= parts[0] + (sep + joined(tail, sep)));
}

/// Keywords that are joined are read back, as long as none of them holds a comma,
/// is empty, or has white space at one of its ends.
pub proof fn lemma_keywords_read_back(words: Seq<Seq<char>>)
    requires
        forall|i: int|
            0 <= i < words.len() ==> (#[trigger] words[i]).len() > 0 && trimmed(words[i])
                == words[i] && !words[i].contains(','),
    ensures
        keywords_from(joined(words, ", "@), 0) == words,
    decreases words.len(),
{
    reveal_strlit(", ");
    let s = joined(words, ", "@);
    if words.len() == 0 {
        assert(s.subrange(0, 0) =~= Seq::empty());
        assert(keywords_from(s, 1) =~= Seq::empty());
        assert(keywords_from(s, 0) =~= words);
    } else {
        let w = words[0];
        let tail = words.drop_first();
        let rest = if words.len() == 1 {
            Seq::empty()
        } else {
            ", "@ + joined(tail, ", "@)
        };
        assert forall|i: int| 0 <= i < tail.len() implies (#[trigger] tail[i]).len() > 0 && trimmed(
            tail[i],
        ) == tail[i] && !tail[i].contains(',') by {
            assert(tail[i] == words[i + 1]);
        }
        lemma_keywords_read_back(tail);
        if words.len() > 1 {
            lemma_joined_first(words, ", "@);
        } else {
            assert(w + rest =~= w);
        }
        assert(s == w + rest);
        lemma_no_comma(w, rest, 0);
        assert(s.subrange(0, w.len() as int) =~= w);
        if words.len() > 1 {
            let behind = joined(tail, ", "@);
            assert(s =~= w.push(',') + (seq![' '] + behind));
            lemma_keywords_shift(w.push(','), seq![' '] + behind, 0);
            lemma_space_before_keywords(behind);
        }
        assert(seq![w] + tail =~= words);
        assert(keywords_from(s, 0) == seq![w] + keywords_from(s, w.len() as int + 1));
    }
}

proof fn lemma_filled_trimmed(t: Seq<Seq<char>>)
    requires
        forall|i: int| 0 <= i < t.len() ==> !(#[trigger] t[i]).contains(','),
    ensures
        forall|i: int|
            0 <= i < filled_trimmed(t).len() ==> (#[trigger] filled_trimmed(t)[i]).len() > 0
                && trimmed(filled_trimmed(t)[i]) == filled_trimmed(t)[i]
                && !filled_trimmed(t)[i].contains(','),
    decreases t.len(),
{
    if t.len() > 0 {
        assert forall|i: int| 0 <= i < t.drop_last().len() implies !(
        #[trigger] t.drop_last()[i]).contains(',') by {
            assert(t.drop_last()[i] == t[i]);
        }
        lemma_filled_trimmed(t.drop_last());
        crate::strings::lemma_trimmed_again(t.last());
        crate::strings::lemma_trimmed_part(t.last());
        let w = trimmed(t.last());
        let before = filled_trimmed(t.drop_last());
        assert(t.last() == t[t.len() - 1]);
        assert(!w.contains(','));
        assert forall|i: int| 0 <= i < filled_trimmed(t).len() implies (
        #[trigger] filled_trimmed(t)[i]).len() > 0 && trimmed(filled_trimmed(t)[i])
            == filled_trimmed(t)[i] && !filled_trimmed(t)[i].contains(',') by {
            if i < before.len() {
                assert(filled_trimmed(t)[i] == before[i]);
            } else {
                assert(filled_trimmed(t)[i] == w);
            }
        }
    }
}

/// The keywords of the configuration that is staged are those that the settings
/// hold, without the white space around them and without those that are blank, as
/// long as none of them holds a comma.
pub proof fn lemma_staged_keywords(modal: SettingsModalState, options: Seq<Seq<char>>, r: Config)
    requires
        staged(modal, options, r),
        forall|i: int|
            0 <= i < modal.keyword_entries@.len() ==> !(
            #[trigger] modal.keyword_entries@[i]).text@.contains(','),
    ensures
        keywords_from(r.dashboard_keywords@, 0) == filled_trimmed(
            entry_texts(modal.keyword_entries@),
        ),
{
    let t = entry_texts(modal.keyword_entries@);
    assert forall|i: int| 0 <= i < t.len() implies !(#[trigger] t[i]).contains(',') by {
        assert(t[i] == modal.keyword_entries@[i].text@);
    }
    lemma_filled_trimmed(t);
    lemma_keywords_read_back(filled_trimmed(t));
}

/// The configuration that is staged.
pub fn staged_config(modal: &SettingsModalState, options: &Vec<String>, _base: &Config) -> (r: Config)
    ensures
        staged(*modal, texts(options@), r),
{
    let mut folders: Vec<String> = Vec::new();
    let mut i: usize = 0;
    assert(entry_texts(modal.library_entries@).take(0) =~= Seq::empty());
    while i < modal.library_entries.len()
        invariant
            i <= modal.library_entries@.len(),
            texts(folders@) == filled(entry_texts(modal.library_entries@).take(i as int)),
        decreases modal.library_entries@.len() - i,
    {
        let ghost t = entry_texts(modal.library_entries@).take(i + 1);
        assert(t.drop_last() =~= entry_texts(modal.library_entries@).take(i as int));
        let ghost before = texts(folders@);
        if !is_blank(modal.library_entries[i].text.as_str()) {
            folders.push(modal.library_entries[i].text.clone());
            assert(texts(folders@) =~= before.push(t.last()));
        }
        i = i + 1;
    }
    assert(entry_texts(modal.library_entries@).take(i as int) =~= entry_texts(
        modal.library_entries@,
    ));
    let mut words: Vec<String> = Vec::new();
    let mut j: usize = 0;
    assert(entry_texts(modal.keyword_entries@).take(0) =~= Seq::empty());
    while j < modal.keyword_entries.len()
        invariant
            j <= modal.keyword_entries@.len(),
            texts(words@) == filled_trimmed(entry_texts(modal.keyword_entries@).take(j as int)),
        decreases modal.keyword_entries@.len() - j,
    {
        let ghost t = entry_texts(modal.keyword_entries@).take(j + 1);
        assert(t.drop_last() =~= entry_texts(modal.keyword_entries@).take(j as int));
        let ghost before = texts(words@);
        let word = trim(modal.keyword_entries[j].text.as_str());
        if !word.as_str().is_empty() {
            words.push(word);
            assert(texts(words@) =~= before.push(trimmed(t.last())));
        }
        j = j + 1;
    }
    assert(entry_texts(modal.keyword_entries@).take(j as int) =~= entry_texts(
        modal.keyword_entries@,
    ));
    Config {
        theme: if modal.theme_selected < THEME_COUNT {
            builtin_theme(modal.theme_selected).to_owned()
        } else {
            "catppuccin-mocha".to_owned()
        },
        startup_page: if modal.startup_page_selected < options.len() {
            options[modal.startup_page_selected].clone()
        } else {
            "dashboard".to_owned()
        },
        pdf_viewer: keep_text(&modal.pdf_viewer),
        library_folders: folders,
        download_path: keep_text(&modal.download_path),
        projects_directory: keep_text(&modal.projects_directory),
        dashboard_keywords: join(&words, ", "),
        enabled_plugins: copy_texts(&modal.enabled_plugins),
    }
}

// ---------------------------------------------------------------------------
// Keys
// ---------------------------------------------------------------------------

/// What a key asks for beyond the settings.
#[derive(Debug)]
pub enum SettingsKeyResult {
    Handled,
    /// The sidebar gets the focus.
    ReturnToSidebar,
    /// What is staged has to be applied.
    Apply,
    /// The application has to end.
    Quit,
    /// A theme has to be shown.
    PreviewTheme(String),
}

/// What a key asks for beyond the settings.
#[verifier::ext_equal]
pub enum SettingsAnswer {
    Handled,
    ReturnToSidebar,
    Apply,
    Quit,
    PreviewTheme(Seq<char>),
}

impl View for SettingsKeyResult {
    type V = SettingsAnswer;

    open spec fn view(&self) -> SettingsAnswer {
        match self {
            SettingsKeyResult::Handled => SettingsAnswer::Handled,
            SettingsKeyResult::ReturnToSidebar => SettingsAnswer::ReturnToSidebar,
            SettingsKeyResult::Apply => SettingsAnswer::Apply,
            SettingsKeyResult::Quit => SettingsAnswer::Quit,
            SettingsKeyResult::PreviewTheme(name) => SettingsAnswer::PreviewTheme(name@),
        }
    }
}

/// The theme in use is selected, where it is a built-in one.
pub open spec fn synced(m: SettingsModalState) -> SettingsModalState {
    match theme_from(m.original_theme@, 0) {
        Some(i) => SettingsModalState { theme_selected: i, ..m },
        None => m,
    }
}

/// Selects the theme in use.
pub fn sync_theme_selection_to_applied(modal: &mut SettingsModalState)
    ensures
        *final(modal) == synced(*old(modal)),
        old(modal).wf() ==> final(modal).wf(),
{
    match theme_position(modal.original_theme.as_str()) {
        Some(i) => modal.theme_selected = i,
        None => {},
    }
}

/// Whether a key asks for help. A terminal may report a question mark as the slash
/// key with shift.
pub open spec fn asks_help(key: KeyEvent) -> bool {
    key.code == KeyCode::Char('?') || (key.code == KeyCode::Char('/') && key.modifiers.shift)
}

fn is_help_shortcut(key: KeyEvent) -> (r: bool)
    ensures
        r == asks_help(key),
{
    match key.code {
        KeyCode::Char('?') => true,
        KeyCode::Char('/') => key.modifiers.shift,
        _ => false,
    }
}

fn any_field_editing(m: &SettingsModalState) -> (r: bool)
    ensures
        r == m.editing(),
{
    m.pdf_viewer_editing || m.keyword_editing || m.library_editing || m.download_path_editing
        || m.projects_directory_editing
}

/// No field is edited any more.
pub open spec fn edits_left(m: SettingsModalState) -> SettingsModalState {
    SettingsModalState {
        pdf_viewer_editing: false,
        keyword_editing: false,
        library_editing: false,
        download_path_editing: false,
        projects_directory_editing: false,
        ..m
    }
}

/// The name of the selected theme.
pub open spec fn selected_theme(m: SettingsModalState) -> Seq<char> {
    if m.theme_selected < THEME_COUNT {
        theme_name(m.theme_selected)
    } else {
        "catppuccin-mocha"@
    }
}

fn preview_selected_theme(m: &SettingsModalState) -> (r: SettingsKeyResult)
    ensures
        r@ == SettingsAnswer::PreviewTheme(selected_theme(*m)),
{
    if m.theme_selected < THEME_COUNT {
        SettingsKeyResult::PreviewTheme(builtin_theme(m.theme_selected).to_owned())
    } else {
        SettingsKeyResult::PreviewTheme("catppuccin-mocha".to_owned())
    }
}

/// What a key does in the tab of the themes.
pub open spec fn theme_key(m: SettingsModalState, key: KeyEvent) -> (SettingsModalState, SettingsAnswer) {
    match key.code {
        KeyCode::Up | KeyCode::Char('k') => if m.theme_selected > 0 {
            let n = SettingsModalState { theme_selected: (m.theme_selected - 1) as usize, ..m };
            (n, SettingsAnswer::PreviewTheme(selected_theme(n)))
        } else {
            (SettingsModalState { tab_bar_focused: true, ..m }, SettingsAnswer::Handled)
        },
        KeyCode::Down | KeyCode::Char('j') => if m.theme_selected + 1 < THEME_COUNT {
            let n = SettingsModalState { theme_selected: (m.theme_selected + 1) as usize, ..m };
            (n, SettingsAnswer::PreviewTheme(selected_theme(n)))
        } else {
            (m, SettingsAnswer::Handled)
        },
        KeyCode::Left => (
            SettingsModalState { tab: tab_before(m.tab), tab_bar_focused: true, ..m },
            SettingsAnswer::PreviewTheme(m.original_theme@),
        ),
        KeyCode::Right => (
            SettingsModalState { tab: tab_behind(m.tab), tab_bar_focused: true, ..m },
            SettingsAnswer::PreviewTheme(m.original_theme@),
        ),
        KeyCode::Enter => (m, SettingsAnswer::Apply),
        _ => (m, SettingsAnswer::Handled),
    }
}

/// Keys of the tab of the themes.
pub fn handle_theme_key(m: &mut SettingsModalState, key: KeyEvent) -> (r: SettingsKeyResult)
    requires
        old(m).wf(),
    ensures
        (*final(m), r@) == theme_key(*old(m), key),
        final(m).wf(),
{
    match key.code {
        KeyCode::Up | KeyCode::Char('k') => {
            if m.theme_selected > 0 {
                m.theme_selected = m.theme_selected - 1;
                preview_selected_theme(m)
            } else {
                m.tab_bar_focused = true;
                SettingsKeyResult::Handled
            }
        },
        KeyCode::Down | KeyCode::Char('j') => {
            if m.theme_selected + 1 < THEME_COUNT {
                m.theme_selected = m.theme_selected + 1;
                preview_selected_theme(m)
            } else {
                SettingsKeyResult::Handled
            }
        },
        KeyCode::Left => {
            m.tab = m.tab.prev();
            m.tab_bar_focused = true;
            SettingsKeyResult::PreviewTheme(m.original_theme.clone())
        },
        KeyCode::Right => {
            m.tab = m.tab.next();
            m.tab_bar_focused = true;
            SettingsKeyResult::PreviewTheme(m.original_theme.clone())
        },
        KeyCode::Enter => SettingsKeyResult::Apply,
        _ => SettingsKeyResult::Handled,
    }
}

/// Whether the selected entry took a key that edits it: a change takes its error
/// away.
pub open spec fn entry_edited(
    before: Seq<PathEntryState>,
    after: Seq<PathEntryState>,
    selected: int,
    key: KeyEvent,
) -> bool {
    if 0 <= selected < before.len() {
        let e = before[selected];
        let f = after[selected];
        let (text, cursor) = field_after(e.text@, e.cursor as int, key);
        &&& after == before.update(selected, f)
        &&& f.text@ == text
        &&& f.cursor == cursor
        &&& f.error == if field_changes(e.text@, e.cursor as int, key) {
            None
        } else {
            e.error
        }
    } else {
        after == before
    }
}

fn edit_entry(entries: &mut Vec<PathEntryState>, selected: usize, key: KeyEvent)
    requires
        entry_ready(old(entries)@, selected as int, key),
    ensures
        entry_edited(old(entries)@, final(entries)@, selected as int, key),
        final(entries)@.len() == old(entries)@.len(),
{
    if selected < entries.len() {
        let mut text = entries[selected].text.clone();
        let mut cursor: usize = entries[selected].cursor;
        let changed = edit_field(&mut text, &mut cursor, key);
        let error = if changed {
            None
        } else {
            copy_opt(&entries[selected].error)
        };
        let ghost before = entries@;
        entries.set(selected, PathEntryState { text, cursor, error });
        assert(entries@ =~= before.update(selected as int, entries@[selected as int]));
    }
}

/// Whether the key is one that a list of entries takes where none is edited: an
/// entry is taken out or moved.
pub open spec fn list_key(
    entries: Seq<PathEntryState>,
    selected: int,
    code: KeyCode,
) -> Option<(Seq<PathEntryState>, int)> {
    match code {
        KeyCode::Char('d') | KeyCode::Delete => if entries.len() > 0 {
            Some(
                (
                    entries.remove(selected),
                    if selected >= entries.len() - 1 && selected > 0 {
                        selected - 1
                    } else {
                        selected
                    },
                ),
            )
        } else {
            None
        },
        KeyCode::Char('K') => if selected > 0 {
            Some(
                (
                    entries.update(selected, entries[selected - 1]).update(
                        selected - 1,
                        entries[selected],
                    ),
                    selected - 1,
                ),
            )
        } else {
            None
        },
        KeyCode::Char('J') => if entries.len() > 0 && selected + 1 < entries.len() {
            Some(
                (
                    entries.update(selected, entries[selected + 1]).update(
                        selected + 1,
                        entries[selected],
                    ),
                    selected + 1,
                ),
            )
        } else {
            None
        },
        _ => None,
    }
}

/// Takes the selected entry out or moves it, and tells whether a key did so.
fn change_list(entries: &mut Vec<PathEntryState>, selected: &mut usize, code: KeyCode) -> (r: bool)
    requires
        selects(old(entries)@.len(), *old(selected)),
    ensures
        selects(final(entries)@.len(), *final(selected)),
        match list_key(old(entries)@, *old(selected) as int, code) {
            Some((e, s)) => r && final(entries)@ == e && *final(selected) == s,
            None => !r && *final(entries) == *old(entries) && *final(selected) == *old(selected),
        },
{
    let idx: usize = *selected;
    let ghost before = entries@;
    match code {
        KeyCode::Char('d') | KeyCode::Delete => {
            if entries.len() > 0 {
                let _ = entries.remove(idx);
                if *selected >= entries.len() && *selected > 0 {
                    *selected = *selected - 1;
                }
                return true;
            }
        },
        KeyCode::Char('K') => {
            if idx > 0 {
                let entry = entries.remove(idx);
                entries.insert(idx - 1, entry);
                *selected = *selected - 1;
                assert(entries@ =~= before.update(idx as int, before[idx - 1]).update(
                    idx - 1,
                    before[idx as int],
                ));
                return true;
            }
        },
        KeyCode::Char('J') => {
            let len: usize = entries.len();
            if len > 0 && idx < len - 1 {
                let entry = entries.remove(idx);
                entries.insert(idx + 1, entry);
                *selected = *selected + 1;
                assert(entries@ =~= before.update(idx as int, before[idx + 1]).update(
                    idx + 1,
                    before[idx as int],
                ));
                return true;
            }
        },
        _ => {},
    }
    false
}

/// Moving an entry up takes back that it was moved down.
pub proof fn lemma_moves_undo(entries: Seq<PathEntryState>, selected: int)
    requires
        0 <= selected,
        selected + 1 < entries.len(),
    ensures
        ({
            let (e, s) = list_key(entries, selected, KeyCode::Char('J')).unwrap();
            list_key(e, s, KeyCode::Char('K')) == Some((entries, selected))
        }),
{
    let (e, s) = list_key(entries, selected, KeyCode::Char('J')).unwrap();
    let (f, t) = list_key(e, s, KeyCode::Char('K')).unwrap();
    assert(f =~= entries);
}

/// Whether an entry was added behind the others, without text.
pub open spec fn entry_added(before: Seq<PathEntryState>, after: Seq<PathEntryState>) -> bool {
    &&& after.len() == before.len() + 1
    &&& after.drop_last() == before
    &&& after.last().text@.len() == 0
    &&& after.last().cursor == 0
    &&& after.last().error is None
}

fn add_entry(entries: &mut Vec<PathEntryState>)
    ensures
        entry_added(old(entries)@, final(entries)@),
{
    let ghost before = entries@;
    let empty = String::new();
    assert(empty@ =~= Seq::empty());
    entries.push(PathEntryState::new(empty));
    assert(entries@.drop_last() =~= before);
}

/// Whether the key of the field of the viewer did what it does.
pub open spec fn pdf_viewer_edited(
    m: SettingsModalState,
    n: SettingsModalState,
    key: KeyEvent,
    answer: SettingsAnswer,
) -> bool {
    match key.code {
        KeyCode::Enter => n == (SettingsModalState { pdf_viewer_editing: false, ..m }) && answer
            == SettingsAnswer::Apply,
        KeyCode::Esc => n == (SettingsModalState { pdf_viewer_editing: false, ..m }) && answer
            == SettingsAnswer::Handled,
        _ => {
            &&& n == SettingsModalState {
                pdf_viewer: n.pdf_viewer,
                pdf_viewer_cursor: n.pdf_viewer_cursor,
                ..m
            }
            &&& (n.pdf_viewer@, n.pdf_viewer_cursor as int) == field_after(
                m.pdf_viewer@,
                m.pdf_viewer_cursor as int,
                key,
            )
            &&& answer == SettingsAnswer::Handled
        },
    }
}

/// Keys while the command of the viewer is edited.
pub fn handle_pdf_viewer_edit(m: &mut SettingsModalState, key: KeyEvent) -> (r: SettingsKeyResult)
    requires
        old(m).wf(),
        field_ready(old(m).pdf_viewer@, old(m).pdf_viewer_cursor as int, key),
    ensures
        pdf_viewer_edited(*old(m), *final(m), key, r@),
        final(m).wf(),
{
    match key.code {
        KeyCode::Enter => {
            m.pdf_viewer_editing = false;
            SettingsKeyResult::Apply
        },
        KeyCode::Esc => {
            m.pdf_viewer_editing = false;
            SettingsKeyResult::Handled
        },
        _ => {
            let _ = edit_field(&mut m.pdf_viewer, &mut m.pdf_viewer_cursor, key);
            SettingsKeyResult::Handled
        },
    }
}

/// Whether a key of an entry of the keywords did what it does. An entry of white
/// space alone is not taken over.
pub open spec fn keyword_edited(
    m: SettingsModalState,
    n: SettingsModalState,
    key: KeyEvent,
    answer: SettingsAnswer,
) -> bool {
    let i = m.keyword_selected as int;
    match key.code {
        KeyCode::Enter => if i < m.keyword_entries@.len() {
            let e = m.keyword_entries@[i];
            let f = n.keyword_entries@[i];
            let word = trimmed(e.text@);
            &&& n == SettingsModalState {
                keyword_entries: n.keyword_entries,
                keyword_editing: m.keyword_editing && word.len() == 0,
                ..m
            }
            &&& n.keyword_entries@ == m.keyword_entries@.update(i, f)
            &&& f.cursor == e.cursor
            &&& if word.len() == 0 {
                f.text == e.text && opt_text(f.error) == Some("Keyword cannot be empty"@) && answer
                    == SettingsAnswer::Handled
            } else {
                f.text@ == word && f.error is None && answer == SettingsAnswer::Apply
            }
        } else {
            n == (SettingsModalState { keyword_editing: false, ..m }) && answer
                == SettingsAnswer::Handled
        },
        KeyCode::Esc => n == (SettingsModalState { keyword_editing: false, ..m }) && answer
            == SettingsAnswer::Handled,
        _ => {
            &&& n == SettingsModalState { keyword_entries: n.keyword_entries, ..m }
            &&& entry_edited(m.keyword_entries@, n.keyword_entries@, i, key)
            &&& answer == SettingsAnswer::Handled
        },
    }
}

/// Keys while a keyword is edited.
pub fn handle_keyword_entry_edit(m: &mut SettingsModalState, key: KeyEvent) -> (r: SettingsKeyResult)
    requires
        old(m).wf(),
        entry_ready(old(m).keyword_entries@, old(m).keyword_selected as int, key),
    ensures
        keyword_edited(*old(m), *final(m), key, r@),
        final(m).wf(),
{
    let i: usize = m.keyword_selected;
    match key.code {
        KeyCode::Enter => {
            if i < m.keyword_entries.len() {
                let word = trim(m.keyword_entries[i].text.as_str());
                let cursor: usize = m.keyword_entries[i].cursor;
                let ghost before = m.keyword_entries@;
                if word.as_str().is_empty() {
                    let text = m.keyword_entries[i].text.clone();
                    m.keyword_entries.set(
                        i,
                        PathEntryState {
                            text,
                            cursor,
                            error: Some("Keyword cannot be empty".to_owned()),
                        },
                    );
                    assert(m.keyword_entries@ =~= before.update(
                        i as int,
                        m.keyword_entries@[i as int],
                    ));
                    return SettingsKeyResult::Handled;
                }
                m.keyword_entries.set(i, PathEntryState { text: word, cursor, error: None });
                assert(m.keyword_entries@ =~= before.update(
                    i as int,
                    m.keyword_entries@[i as int],
                ));
                m.keyword_editing = false;
                SettingsKeyResult::Apply
            } else {
                m.keyword_editing = false;
                SettingsKeyResult::Handled
            }
        },
        KeyCode::Esc => {
            m.keyword_editing = false;
            SettingsKeyResult::Handled
        },
        _ => {
            edit_entry(&mut m.keyword_entries, i, key);
            SettingsKeyResult::Handled
        },
    }
}

/// Tells the texts other than `id`.
pub open spec fn other_than(id: Seq<char>) -> spec_fn(Seq<char>) -> bool {
    |p: Seq<char>| p != id
}

/// Plugins in use once `id` has been switched: it is taken out or put in.
pub open spec fn plugin_switched(enabled: Seq<Seq<char>>, id: Seq<char>) -> Seq<Seq<char>> {
    if enabled.contains(id) {
        enabled.filter(other_than(id))
    } else {
        enabled.push(id)
    }
}

fn switch_plugin(enabled: &mut Vec<String>, id: &String)
    ensures
        texts(final(enabled)@) == plugin_switched(texts(old(enabled)@), id@),
{
    if holds_text(enabled, id.as_str()) {
        let ghost all = texts(enabled@);
        let ghost other = other_than(id@);
        let mut kept: Vec<String> = Vec::new();
        let mut i: usize = 0;
        assert(all.take(0) =~= Seq::empty());
        reveal(Seq::filter);
        while i < enabled.len()
            invariant
                i <= enabled@.len(),
                all == texts(enabled@),
                other == other_than(id@),
                texts(kept@) == all.take(i as int).filter(other),
            decreases enabled@.len() - i,
        {
            let ghost before = texts(kept@);
            proof {
                reveal(Seq::filter);
                assert(all.take(i + 1).drop_last() =~= all.take(i as int));
                assert(all.take(i + 1).last() == all[i as int]);
            }
            if !same_text(enabled[i].as_str(), id.as_str()) {
                kept.push(enabled[i].clone());
                assert(texts(kept@) =~= before.push(all[i as int]));
            }
            i = i + 1;
        }
        assert(all.take(i as int) =~= all);
        *enabled = kept;
    } else {
        let ghost before = texts(enabled@);
        enabled.push(id.clone());
        assert(texts(enabled@) =~= before.push(id@));
    }
}

/// Switching a plugin that is not in use, twice, changes nothing; one that is in use
/// is out after the first time.
pub proof fn lemma_plugin_switch(enabled: Seq<Seq<char>>, id: Seq<char>)
    ensures
        enabled.contains(id) ==> !plugin_switched(enabled, id).contains(id),
        !enabled.contains(id) ==> plugin_switched(plugin_switched(enabled, id), id) == enabled,
{
    let other = other_than(id);
    broadcast use vstd::seq_lib::group_filter_ensures;

    if !enabled.contains(id) {
        let more = enabled.push(id);
        assert(more[enabled.len() as int] == id);
        assert(more.contains(id));
        lemma_filter_all(enabled, other);
        reveal(Seq::filter);
        assert(more.drop_last() =~= enabled);
        assert(more.last() == id && !other(id));
        assert(more.filter(other) == enabled.filter(other));
    }
}

proof fn lemma_filter_all(s: Seq<Seq<char>>, keep: spec_fn(Seq<char>) -> bool)
    requires
        forall|i: int| 0 <= i < s.len() ==> keep(#[trigger] s[i]),
    ensures
        s.filter(keep) == s,
    decreases s.len(),
{
    reveal(Seq::filter);
    if s.len() > 0 {
        lemma_filter_all(s.drop_last(), keep);
        assert(s.drop_last().push(s.last()) =~= s);
    }
}

/// Position of the option before or behind the selected one, in a circle.
pub open spec fn option_beside(selected: int, len: int, left: bool) -> int {
    if left {
        (selected + len - 1) % len
    } else {
        (selected + 1) % len
    }
}

fn step_option(selected: usize, len: usize, left: bool) -> (r: usize)
    requires
        len > 0,
    ensures
        r == option_beside(selected as int, len as int, left),
        r < len,
{
    let s: usize = selected % len;
    proof {
        lemma_step(selected as int, len as int);
    }
    if left {
        if s == 0 {
            len - 1
        } else {
            s - 1
        }
    } else if s == len - 1 {
        0
    } else {
        s + 1
    }
}

proof fn lemma_step(selected: int, len: int)
    requires
        0 <= selected,
        0 < len,
    ensures
        ({
            let s = selected % len;
            &&& 0 <= s < len
            &&& (selected + len - 1) % len == if s == 0 {
                len - 1
            } else {
                s - 1
            }
            &&& (selected + 1) % len == if s == len - 1 {
                0
            } else {
                s + 1
            }
        }),
{
    let s = selected % len;
    let q = selected / len;
    vstd::arithmetic::div_mod::lemma_fundamental_div_mod(selected, len);
    vstd::arithmetic::div_mod::lemma_mod_pos_bound(selected, len);
    assert(selected == len * q + s);
    if s == 0 {
        vstd::arithmetic::div_mod::lemma_mod_multiples_vanish(q, len - 1, len);
        vstd::arithmetic::div_mod::lemma_small_mod((len - 1) as nat, len as nat);
    } else {
        assert(selected + len - 1 == len * (q + 1) + (s - 1)) by (nonlinear_arith)
            requires
                selected == len * q + s,
        ;
        vstd::arithmetic::div_mod::lemma_mod_multiples_vanish(q + 1, s - 1, len);
        vstd::arithmetic::div_mod::lemma_small_mod((s - 1) as nat, len as nat);
    }
    if s == len - 1 {
        assert(selected + 1 == len * (q + 1) + 0) by (nonlinear_arith)
            requires
                selected == len * q + s,
                s == len - 1,
        ;
        vstd::arithmetic::div_mod::lemma_mod_multiples_vanish(q + 1, 0, len);
        vstd::arithmetic::div_mod::lemma_small_mod(0, len as nat);
    } else {
        vstd::arithmetic::div_mod::lemma_mod_multiples_vanish(q, s + 1, len);
        vstd::arithmetic::div_mod::lemma_small_mod((s + 1) as nat, len as nat);
    }
}

/// Whether the section that is shown first was changed to the one beside it.
pub open spec fn startup_stepped(m: SettingsModalState, n: SettingsModalState, left: bool) -> bool {
    let len = m.startup_page_options@.len() as int;
    if len > 0 {
        let to = option_beside(m.startup_page_selected as int, len, left);
        n == SettingsModalState {
            startup_page_selected: to as usize,
            startup_page: m.startup_page_options@[to],
            ..m
        }
    } else {
        n == m
    }
}

fn step_startup(m: &mut SettingsModalState, left: bool)
    ensures
        startup_stepped(*old(m), *final(m), left),
{
    let len: usize = m.startup_page_options.len();
    if len > 0 {
        let to: usize = step_option(m.startup_page_selected, len, left);
        m.startup_page_selected = to;
        m.startup_page = m.startup_page_options[to].clone();
    }
}

/// The last position of a list.
pub open spec fn last_of(len: nat, otherwise: usize) -> usize {
    if len > 0 {
        (len - 1) as usize
    } else {
        otherwise
    }
}

/// Whether the plugin at a position was switched, if there is one.
pub open spec fn switched_at(m: SettingsModalState, n: SettingsModalState) -> bool {
    let i = m.plugins_selected as int;
    if i < m.plugins@.len() {
        &&& n == SettingsModalState { enabled_plugins: n.enabled_plugins, ..m }
        &&& texts(n.enabled_plugins@) == plugin_switched(
            texts(m.enabled_plugins@),
            m.plugins@[i].id@,
        )
    } else {
        n == m
    }
}

fn switch_selected(m: &mut SettingsModalState) -> (r: bool)
    ensures
        switched_at(*old(m), *final(m)),
        r == (old(m).plugins_selected < old(m).plugins@.len()),
{
    let i: usize = m.plugins_selected;
    if i < m.plugins.len() {
        let id = m.plugins[i].id.clone();
        switch_plugin(&mut m.enabled_plugins, &id);
        true
    } else {
        false
    }
}

/// What a key does to the first two settings of the general tab.
pub open spec fn general_head_after(
    m: SettingsModalState,
    n: SettingsModalState,
    key: KeyEvent,
    answer: SettingsAnswer,
) -> bool {
    match m.general_focus {
        GeneralTabFocus::StartupPage => match key.code {
            KeyCode::Up | KeyCode::Char('k') => n == (SettingsModalState {
                tab_bar_focused: true,
                ..m
            }) && answer == SettingsAnswer::Handled,
            KeyCode::Down | KeyCode::Char('j') => n == (SettingsModalState {
                general_focus: GeneralTabFocus::PdfViewer,
                ..m
            }) && answer == SettingsAnswer::Handled,
            KeyCode::Left | KeyCode::Char('h') => startup_stepped(m, n, true) && answer
                == SettingsAnswer::Handled,
            KeyCode::Right | KeyCode::Char('l') => startup_stepped(m, n, false) && answer
                == SettingsAnswer::Handled,
            KeyCode::Enter => n == m && answer == SettingsAnswer::Apply,
            _ => n == m && answer == SettingsAnswer::Handled,
        },
        _ => match key.code {
            KeyCode::Up | KeyCode::Char('k') => n == (SettingsModalState {
                general_focus: GeneralTabFocus::StartupPage,
                ..m
            }) && answer == SettingsAnswer::Handled,
            KeyCode::Down | KeyCode::Char('j') => n == (SettingsModalState {
                general_focus: GeneralTabFocus::DashboardKeywords,
                keyword_selected: if m.keyword_entries@.len() > 0 {
                    0
                } else {
                    m.keyword_selected
                },
                ..m
            }) && answer == SettingsAnswer::Handled,
            KeyCode::Enter => n == (SettingsModalState { pdf_viewer_editing: true, ..m }) && answer
                == SettingsAnswer::Handled,
            _ => n == m && answer == SettingsAnswer::Handled,
        },
    }
}

fn handle_general_head(m: &mut SettingsModalState, key: KeyEvent) -> (r: SettingsKeyResult)
    requires
        old(m).wf(),
    ensures
        general_head_after(*old(m), *final(m), key, r@),
        final(m).wf(),
{
    match m.general_focus {
        GeneralTabFocus::StartupPage => match key.code {
            KeyCode::Up | KeyCode::Char('k') => m.tab_bar_focused = true,
            KeyCode::Down | KeyCode::Char('j') => m.general_focus = GeneralTabFocus::PdfViewer,
            KeyCode::Left | KeyCode::Char('h') => step_startup(m, true),
            KeyCode::Right | KeyCode::Char('l') => step_startup(m, false),
            KeyCode::Enter => {
                return SettingsKeyResult::Apply;
            },
            _ => {},
        },
        _ => match key.code {
            KeyCode::Up | KeyCode::Char('k') => m.general_focus = GeneralTabFocus::StartupPage,
            KeyCode::Down | KeyCode::Char('j') => {
                m.general_focus = GeneralTabFocus::DashboardKeywords;
                if m.keyword_entries.len() > 0 {
                    m.keyword_selected = 0;
                }
            },
            KeyCode::Enter => m.pdf_viewer_editing = true,
            _ => {},
        },
    }
    SettingsKeyResult::Handled
}

/// What a key does to the keywords while none of them is edited.
pub open spec fn keywords_after(
    m: SettingsModalState,
    n: SettingsModalState,
    key: KeyEvent,
    answer: SettingsAnswer,
) -> bool {
    let len = m.keyword_entries@.len();
    match key.code {
        KeyCode::Up | KeyCode::Char('k') => n == (if m.keyword_selected > 0 {
            SettingsModalState { keyword_selected: (m.keyword_selected - 1) as usize, ..m }
        } else {
            SettingsModalState { general_focus: GeneralTabFocus::PdfViewer, ..m }
        }) && answer == SettingsAnswer::Handled,
        KeyCode::Down | KeyCode::Char('j') => n == (if m.keyword_selected + 1 < len {
            SettingsModalState { keyword_selected: (m.keyword_selected + 1) as usize, ..m }
        } else {
            SettingsModalState { general_focus: GeneralTabFocus::EnabledPlugins, ..m }
        }) && answer == SettingsAnswer::Handled,
        KeyCode::Enter => n == (SettingsModalState {
            keyword_editing: m.keyword_editing || len > 0,
            ..m
        }) && answer == SettingsAnswer::Handled,
        KeyCode::Char('a') => {
            &&& n == SettingsModalState {
                keyword_entries: n.keyword_entries,
                keyword_selected: len as usize,
                keyword_editing: true,
                ..m
            }
            &&& entry_added(m.keyword_entries@, n.keyword_entries@)
            &&& answer == SettingsAnswer::Handled
        },
        _ => match list_key(m.keyword_entries@, m.keyword_selected as int, key.code) {
            Some((entries, selected)) => {
                &&& n == SettingsModalState {
                    keyword_entries: n.keyword_entries,
                    keyword_selected: selected as usize,
                    ..m
                }
                &&& n.keyword_entries@ == entries
                &&& answer == SettingsAnswer::Apply
            },
            None => n == m && answer == SettingsAnswer::Handled,
        },
    }
}

fn handle_keywords_key(m: &mut SettingsModalState, key: KeyEvent) -> (r: SettingsKeyResult)
    requires
        old(m).wf(),
    ensures
        keywords_after(*old(m), *final(m), key, r@),
        final(m).wf(),
{
    let len: usize = m.keyword_entries.len();
    match key.code {
        KeyCode::Up | KeyCode::Char('k') => {
            if m.keyword_selected > 0 {
                m.keyword_selected = m.keyword_selected - 1;
            } else {
                m.general_focus = GeneralTabFocus::PdfViewer;
            }
        },
        KeyCode::Down | KeyCode::Char('j') => {
            if len > 0 && m.keyword_selected < len - 1 {
                m.keyword_selected = m.keyword_selected + 1;
            } else {
                m.general_focus = GeneralTabFocus::EnabledPlugins;
            }
        },
        KeyCode::Enter => {
            if len > 0 {
                m.keyword_editing = true;
            }
        },
        KeyCode::Char('a') => {
            add_entry(&mut m.keyword_entries);
            m.keyword_selected = m.keyword_entries.len() - 1;
            m.keyword_editing = true;
        },
        _ => {
            if change_list(&mut m.keyword_entries, &mut m.keyword_selected, key.code) {
                return SettingsKeyResult::Apply;
            }
        },
    }
    SettingsKeyResult::Handled
}

/// What a key does in the general tab.
pub open spec fn general_after(
    m: SettingsModalState,
    n: SettingsModalState,
    key: KeyEvent,
    answer: SettingsAnswer,
) -> bool {
    if m.pdf_viewer_editing {
        pdf_viewer_edited(m, n, key, answer)
    } else if m.keyword_editing {
        keyword_edited(m, n, key, answer)
    } else {
        match m.general_focus {
            GeneralTabFocus::DashboardKeywords => keywords_after(m, n, key, answer),
            GeneralTabFocus::EnabledPlugins => match key.code {
                KeyCode::Up | KeyCode::Char('k') => n == (SettingsModalState {
                    general_focus: GeneralTabFocus::DashboardKeywords,
                    keyword_selected: last_of(m.keyword_entries@.len(), m.keyword_selected),
                    ..m
                }) && answer == SettingsAnswer::Handled,
                KeyCode::Char(' ') => switched_at(m, n) && answer == if m.plugins_selected
                    < m.plugins@.len() {
                    SettingsAnswer::Apply
                } else {
                    SettingsAnswer::Handled
                },
                _ => n == m && answer == SettingsAnswer::Handled,
            },
            _ => general_head_after(m, n, key, answer),
        }
    }
}

/// Keys of the general tab.
pub fn handle_general_key(m: &mut SettingsModalState, key: KeyEvent) -> (r: SettingsKeyResult)
    requires
        old(m).wf(),
        old(m).tab == SettingsTab::General,
        old(m).ready(key),
    ensures
        general_after(*old(m), *final(m), key, r@),
        final(m).wf(),
{
    if m.pdf_viewer_editing {
        return handle_pdf_viewer_edit(m, key);
    }
    if m.keyword_editing {
        return handle_keyword_entry_edit(m, key);
    }
    match m.general_focus {
        GeneralTabFocus::DashboardKeywords => handle_keywords_key(m, key),
        GeneralTabFocus::EnabledPlugins => match key.code {
            KeyCode::Up | KeyCode::Char('k') => {
                m.general_focus = GeneralTabFocus::DashboardKeywords;
                if m.keyword_entries.len() > 0 {
                    m.keyword_selected = m.keyword_entries.len() - 1;
                }
                SettingsKeyResult::Handled
            },
            KeyCode::Char(' ') => {
                if switch_selected(m) {
                    SettingsKeyResult::Apply
                } else {
                    SettingsKeyResult::Handled
                }
            },
            _ => SettingsKeyResult::Handled,
        },
        _ => handle_general_head(m, key),
    }
}

/// What is wrong with a path: where there is one, it has to be absolute.
pub open spec fn path_error(text: Seq<char>) -> Option<Seq<char>> {
    let path = trimmed(text);
    if path.len() == 0 || absolute(path) {
        None
    } else {
        Some("Path must be absolute"@)
    }
}

/// Tells what is wrong with a path: where there is one, it has to be absolute.
pub fn validate_path(text: &str) -> (r: Option<String>)
    ensures
        opt_text(r) == path_error(text@),
{
    let path = trim(text);
    let chars = to_chars(path.as_str());
    if chars.len() == 0 || chars[0] == '/' {
        None
    } else {
        Some("Path must be absolute".to_owned())
    }
}

/// Whether a key of an entry of the folders did what it does.
pub open spec fn library_edited(
    m: SettingsModalState,
    n: SettingsModalState,
    key: KeyEvent,
    answer: SettingsAnswer,
) -> bool {
    let i = m.library_selected as int;
    match key.code {
        KeyCode::Enter => if i < m.library_entries@.len() {
            let e = m.library_entries@[i];
            let f = n.library_entries@[i];
            &&& n == SettingsModalState {
                library_entries: n.library_entries,
                library_editing: false,
                ..m
            }
            &&& n.library_entries@ == m.library_entries@.update(i, f)
            &&& f.text == e.text
            &&& f.cursor == e.cursor
            &&& opt_text(f.error) == path_error(e.text@)
            &&& answer == if path_error(e.text@) is None {
                SettingsAnswer::Apply
            } else {
                SettingsAnswer::Handled
            }
        } else {
            n == (SettingsModalState { library_editing: false, ..m }) && answer
                == SettingsAnswer::Handled
        },
        KeyCode::Esc => n == (SettingsModalState { library_editing: false, ..m }) && answer
            == SettingsAnswer::Handled,
        _ => {
            &&& n == SettingsModalState { library_entries: n.library_entries, ..m }
            &&& entry_edited(m.library_entries@, n.library_entries@, i, key)
            &&& answer == SettingsAnswer::Handled
        },
    }
}

/// Keys while a folder is edited.
pub fn handle_library_entry_edit(m: &mut SettingsModalState, key: KeyEvent) -> (r: SettingsKeyResult)
    requires
        old(m).wf(),
        entry_ready(old(m).library_entries@, old(m).library_selected as int, key),
    ensures
        library_edited(*old(m), *final(m), key, r@),
        final(m).wf(),
{
    let i: usize = m.library_selected;
    match key.code {
        KeyCode::Enter => {
            if i < m.library_entries.len() {
                let text = m.library_entries[i].text.clone();
                let cursor: usize = m.library_entries[i].cursor;
                let error = validate_path(text.as_str());
                let right: bool = error.is_none();
                let ghost before = m.library_entries@;
                m.library_entries.set(i, PathEntryState { text, cursor, error });
                assert(m.library_entries@ =~= before.update(
                    i as int,
                    m.library_entries@[i as int],
                ));
                m.library_editing = false;
                if right {
                    return SettingsKeyResult::Apply;
                }
            } else {
                m.library_editing = false;
            }
        },
        KeyCode::Esc => m.library_editing = false,
        _ => edit_entry(&mut m.library_entries, i, key),
    }
    SettingsKeyResult::Handled
}

/// Whether a key of one of the two single paths did what it does.
pub open spec fn path_edited(
    m: SettingsModalState,
    n: SettingsModalState,
    focus: PathsTabFocus,
    key: KeyEvent,
    answer: SettingsAnswer,
) -> bool {
    match focus {
        PathsTabFocus::LibraryFolders => n == m && answer == SettingsAnswer::Handled,
        PathsTabFocus::DownloadPath => match key.code {
            KeyCode::Enter => {
                &&& n == SettingsModalState {
                    download_path_error: n.download_path_error,
                    download_path_editing: false,
                    ..m
                }
                &&& opt_text(n.download_path_error) == path_error(m.download_path@)
                &&& answer == if path_error(m.download_path@) is None {
                    SettingsAnswer::Apply
                } else {
                    SettingsAnswer::Handled
                }
            },
            KeyCode::Esc => n == (SettingsModalState { download_path_editing: false, ..m })
                && answer == SettingsAnswer::Handled,
            _ => {
                &&& n == SettingsModalState {
                    download_path: n.download_path,
                    download_path_cursor: n.download_path_cursor,
                    ..m
                }
                &&& (n.download_path@, n.download_path_cursor as int) == field_after(
                    m.download_path@,
                    m.download_path_cursor as int,
                    key,
                )
                &&& answer == SettingsAnswer::Handled
            },
        },
        PathsTabFocus::ProjectsDirectory => match key.code {
            KeyCode::Enter => {
                &&& n == SettingsModalState {
                    projects_directory_error: n.projects_directory_error,
                    projects_directory_editing: false,
                    ..m
                }
                &&& opt_text(n.projects_directory_error) == path_error(m.projects_directory@)
                &&& answer == if path_error(m.projects_directory@) is None {
                    SettingsAnswer::Apply
                } else {
                    SettingsAnswer::Handled
                }
            },
            KeyCode::Esc => n == (SettingsModalState { projects_directory_editing: false, ..m })
                && answer == SettingsAnswer::Handled,
            _ => {
                &&& n == SettingsModalState {
                    projects_directory: n.projects_directory,
                    projects_directory_cursor: n.projects_directory_cursor,
                    ..m
                }
                &&& (n.projects_directory@, n.projects_directory_cursor as int) == field_after(
                    m.projects_directory@,
                    m.projects_directory_cursor as int,
                    key,
                )
                &&& answer == SettingsAnswer::Handled
            },
        },
    }
}

/// Keys while one of the two single paths is edited.
pub fn handle_single_path_edit(m: &mut SettingsModalState, focus: PathsTabFocus, key: KeyEvent) -> (r:
    SettingsKeyResult)
    requires
        old(m).wf(),
        focus == PathsTabFocus::DownloadPath ==> field_ready(
            old(m).download_path@,
            old(m).download_path_cursor as int,
            key,
        ),
        focus == PathsTabFocus::ProjectsDirectory ==> field_ready(
            old(m).projects_directory@,
            old(m).projects_directory_cursor as int,
            key,
        ),
    ensures
        path_edited(*old(m), *final(m), focus, key, r@),
        final(m).wf(),
{
    match focus {
        PathsTabFocus::LibraryFolders => {},
        PathsTabFocus::DownloadPath => match key.code {
            KeyCode::Enter => {
                let error = validate_path(m.download_path.as_str());
                let right: bool = error.is_none();
                m.download_path_error = error;
                m.download_path_editing = false;
                if right {
                    return SettingsKeyResult::Apply;
                }
            },
            KeyCode::Esc => m.download_path_editing = false,
            _ => {
                let _ = edit_field(&mut m.download_path, &mut m.download_path_cursor, key);
            },
        },
        PathsTabFocus::ProjectsDirectory => match key.code {
            KeyCode::Enter => {
                let error = validate_path(m.projects_directory.as_str());
                let right: bool = error.is_none();
                m.projects_directory_error = error;
                m.projects_directory_editing = false;
                if right {
                    return SettingsKeyResult::Apply;
                }
            },
            KeyCode::Esc => m.projects_directory_editing = false,
            _ => {
                let _ = edit_field(&mut m.projects_directory, &mut m.projects_directory_cursor, key);
            },
        },
    }
    SettingsKeyResult::Handled
}

/// What a key does to the folders while none of them is edited.
pub open spec fn folders_after(
    m: SettingsModalState,
    n: SettingsModalState,
    key: KeyEvent,
    answer: SettingsAnswer,
) -> bool {
    let len = m.library_entries@.len();
    match key.code {
        KeyCode::Up | KeyCode::Char('k') => n == (if m.library_selected > 0 {
            SettingsModalState { library_selected: (m.library_selected - 1) as usize, ..m }
        } else {
            SettingsModalState { tab_bar_focused: true, ..m }
        }) && answer == SettingsAnswer::Handled,
        KeyCode::Down | KeyCode::Char('j') => n == (if m.library_selected + 1 < len {
            SettingsModalState { library_selected: (m.library_selected + 1) as usize, ..m }
        } else {
            SettingsModalState { paths_focus: PathsTabFocus::DownloadPath, ..m }
        }) && answer == SettingsAnswer::Handled,
        KeyCode::Enter => n == (SettingsModalState {
            library_editing: m.library_editing || len > 0,
            ..m
        }) && answer == SettingsAnswer::Handled,
        KeyCode::Char('a') => {
            &&& n == SettingsModalState {
                library_entries: n.library_entries,
                library_selected: len as usize,
                library_editing: true,
                ..m
            }
            &&& entry_added(m.library_entries@, n.library_entries@)
            &&& answer == SettingsAnswer::Handled
        },
        KeyCode::Tab => n == (SettingsModalState {
            paths_focus: PathsTabFocus::DownloadPath,
            ..m
        }) && answer == SettingsAnswer::Handled,
        KeyCode::BackTab => n == (SettingsModalState { tab_bar_focused: true, ..m }) && answer
            == SettingsAnswer::Handled,
        _ => match list_key(m.library_entries@, m.library_selected as int, key.code) {
            Some((entries, selected)) => {
                &&& n == SettingsModalState {
                    library_entries: n.library_entries,
                    library_selected: selected as usize,
                    ..m
                }
                &&& n.library_entries@ == entries
                &&& answer == SettingsAnswer::Apply
            },
            None => n == m && answer == SettingsAnswer::Handled,
        },
    }
}

fn handle_folders_key(m: &mut SettingsModalState, key: KeyEvent) -> (r: SettingsKeyResult)
    requires
        old(m).wf(),
    ensures
        folders_after(*old(m), *final(m), key, r@),
        final(m).wf(),
{
    let len: usize = m.library_entries.len();
    match key.code {
        KeyCode::Up | KeyCode::Char('k') => {
            if m.library_selected > 0 {
                m.library_selected = m.library_selected - 1;
            } else {
                m.tab_bar_focused = true;
            }
        },
        KeyCode::Down | KeyCode::Char('j') => {
            if len > 0 && m.library_selected < len - 1 {
                m.library_selected = m.library_selected + 1;
            } else {
                m.paths_focus = PathsTabFocus::DownloadPath;
            }
        },
        KeyCode::Enter => {
            if len > 0 {
                m.library_editing = true;
            }
        },
        KeyCode::Char('a') => {
            add_entry(&mut m.library_entries);
            m.library_selected = m.library_entries.len() - 1;
            m.library_editing = true;
        },
        KeyCode::Tab => m.paths_focus = PathsTabFocus::DownloadPath,
        KeyCode::BackTab => m.tab_bar_focused = true,
        _ => {
            if change_list(&mut m.library_entries, &mut m.library_selected, key.code) {
                return SettingsKeyResult::Apply;
            }
        },
    }
    SettingsKeyResult::Handled
}

/// What a key does in the tab of the paths.
pub open spec fn paths_after(
    m: SettingsModalState,
    n: SettingsModalState,
    key: KeyEvent,
    answer: SettingsAnswer,
) -> bool {
    match m.paths_focus {
        PathsTabFocus::LibraryFolders => if m.library_editing {
            library_edited(m, n, key, answer)
        } else {
            folders_after(m, n, key, answer)
        },
        PathsTabFocus::DownloadPath => if m.download_path_editing {
            path_edited(m, n, m.paths_focus, key, answer)
        } else {
            &&& answer == SettingsAnswer::Handled
            &&& n == match key.code {
                KeyCode::Up | KeyCode::Char('k') | KeyCode::BackTab => SettingsModalState {
                    paths_focus: PathsTabFocus::LibraryFolders,
                    library_selected: last_of(m.library_entries@.len(), m.library_selected),
                    ..m
                },
                KeyCode::Down | KeyCode::Char('j') | KeyCode::Tab => SettingsModalState {
                    paths_focus: PathsTabFocus::ProjectsDirectory,
                    ..m
                },
                KeyCode::Enter => SettingsModalState { download_path_editing: true, ..m },
                _ => m,
            }
        },
        PathsTabFocus::ProjectsDirectory => if m.projects_directory_editing {
            path_edited(m, n, m.paths_focus, key, answer)
        } else {
            &&& answer == SettingsAnswer::Handled
            &&& n == match key.code {
                KeyCode::Up | KeyCode::Char('k') | KeyCode::BackTab => SettingsModalState {
                    paths_focus: PathsTabFocus::DownloadPath,
                    ..m
                },
                KeyCode::Enter => SettingsModalState { projects_directory_editing: true, ..m },
                _ => m,
            }
        },
    }
}

/// Keys of the tab of the paths.
pub fn handle_paths_key(m: &mut SettingsModalState, key: KeyEvent) -> (r: SettingsKeyResult)
    requires
        old(m).wf(),
        old(m).tab == SettingsTab::Paths,
        old(m).ready(key),
    ensures
        paths_after(*old(m), *final(m), key, r@),
        final(m).wf(),
{
    match m.paths_focus {
        PathsTabFocus::LibraryFolders => {
            if m.library_editing {
                handle_library_entry_edit(m, key)
            } else {
                handle_folders_key(m, key)
            }
        },
        PathsTabFocus::DownloadPath => {
            if m.download_path_editing {
                return handle_single_path_edit(m, PathsTabFocus::DownloadPath, key);
            }
            match key.code {
                KeyCode::Up | KeyCode::Char('k') | KeyCode::BackTab => {
                    m.paths_focus = PathsTabFocus::LibraryFolders;
                    if m.library_entries.len() > 0 {
                        m.library_selected = m.library_entries.len() - 1;
                    }
                },
                KeyCode::Down | KeyCode::Char('j') | KeyCode::Tab => m.paths_focus =
                PathsTabFocus::ProjectsDirectory,
                KeyCode::Enter => m.download_path_editing = true,
                _ => {},
            }
            SettingsKeyResult::Handled
        },
        PathsTabFocus::ProjectsDirectory => {
            if m.projects_directory_editing {
                return handle_single_path_edit(m, PathsTabFocus::ProjectsDirectory, key);
            }
            match key.code {
                KeyCode::Up | KeyCode::Char('k') | KeyCode::BackTab => m.paths_focus =
                PathsTabFocus::DownloadPath,
                KeyCode::Enter => m.projects_directory_editing = true,
                _ => {},
            }
            SettingsKeyResult::Handled
        },
    }
}

/// What a key does in the tab of the plugins.
pub open spec fn plugins_after(
    m: SettingsModalState,
    n: SettingsModalState,
    key: KeyEvent,
    answer: SettingsAnswer,
) -> bool {
    match key.code {
        KeyCode::Up | KeyCode::Char('k') => n == (if m.plugins_selected > 0 {
            SettingsModalState { plugins_selected: (m.plugins_selected - 1) as usize, ..m }
        } else {
            SettingsModalState { tab_bar_focused: true, ..m }
        }) && answer == SettingsAnswer::Handled,
        KeyCode::Down | KeyCode::Char('j') => n == (if m.plugins_selected + 1 < m.plugins@.len() {
            SettingsModalState { plugins_selected: (m.plugins_selected + 1) as usize, ..m }
        } else {
            m
        }) && answer == SettingsAnswer::Handled,
        KeyCode::Char(' ') => switched_at(m, n) && answer == SettingsAnswer::Handled,
        KeyCode::Enter => n == m && answer == SettingsAnswer::Apply,
        _ => n == m && answer == SettingsAnswer::Handled,
    }
}

/// Keys of the tab of the plugins.
pub fn handle_plugins_key(m: &mut SettingsModalState, key: KeyEvent) -> (r: SettingsKeyResult)
    requires
        old(m).wf(),
    ensures
        plugins_after(*old(m), *final(m), key, r@),
        final(m).wf(),
{
    match key.code {
        KeyCode::Up | KeyCode::Char('k') => {
            if m.plugins_selected > 0 {
                m.plugins_selected = m.plugins_selected - 1;
            } else {
                m.tab_bar_focused = true;
            }
        },
        KeyCode::Down | KeyCode::Char('j') => {
            if m.plugins_selected + 1 < m.plugins.len() {
                m.plugins_selected = m.plugins_selected + 1;
            }
        },
        KeyCode::Char(' ') => {
            let _ = switch_selected(m);
        },
        KeyCode::Enter => {
            return SettingsKeyResult::Apply;
        },
        _ => {},
    }
    SettingsKeyResult::Handled
}

/// Another tab is shown. The tab of the themes is left and entered with the theme
/// in use selected.
pub open spec fn tab_shown(m: SettingsModalState, tab: SettingsTab) -> SettingsModalState {
    let n = SettingsModalState { tab, ..m };
    if m.tab == SettingsTab::Theme || tab == SettingsTab::Theme {
        synced(n)
    } else {
        n
    }
}

/// What leaving a tab asks for: the theme in use is shown again.
pub open spec fn tab_left(m: SettingsModalState) -> SettingsAnswer {
    if m.tab == SettingsTab::Theme {
        SettingsAnswer::PreviewTheme(m.original_theme@)
    } else {
        SettingsAnswer::Handled
    }
}

fn show_tab(m: &mut SettingsModalState, tab: SettingsTab) -> (r: SettingsKeyResult)
    requires
        old(m).wf(),
        tab != old(m).tab,
    ensures
        *final(m) == tab_shown(*old(m), tab),
        r@ == tab_left(*old(m)),
        final(m).wf(),
{
    let left: bool = matches!(m.tab, SettingsTab::Theme);
    m.tab = tab;
    if left || matches!(tab, SettingsTab::Theme) {
        sync_theme_selection_to_applied(m);
    }
    if left {
        SettingsKeyResult::PreviewTheme(m.original_theme.clone())
    } else {
        SettingsKeyResult::Handled
    }
}

/// The body of the tab gets the focus, from its start.
pub open spec fn body_entered(m: SettingsModalState) -> SettingsModalState {
    let n = SettingsModalState { tab_bar_focused: false, ..m };
    match m.tab {
        SettingsTab::Theme => synced(n),
        SettingsTab::General => SettingsModalState {
            general_focus: GeneralTabFocus::StartupPage,
            ..n
        },
        SettingsTab::Paths => SettingsModalState {
            paths_focus: PathsTabFocus::LibraryFolders,
            ..n
        },
        SettingsTab::Plugins => SettingsModalState { plugins_selected: 0, ..n },
    }
}

/// What a key does while the bar of the tabs has the focus.
pub open spec fn tab_bar_key(m: SettingsModalState, key: KeyEvent) -> (
    SettingsModalState,
    SettingsAnswer,
) {
    match key.code {
        KeyCode::Left | KeyCode::Char('h') => (tab_shown(m, tab_before(m.tab)), tab_left(m)),
        KeyCode::Right | KeyCode::Char('l') => (tab_shown(m, tab_behind(m.tab)), tab_left(m)),
        KeyCode::Down | KeyCode::Char('j') | KeyCode::Enter => (
            body_entered(m),
            SettingsAnswer::Handled,
        ),
        _ => (m, SettingsAnswer::Handled),
    }
}

fn handle_tab_bar_key(m: &mut SettingsModalState, key: KeyEvent) -> (r: SettingsKeyResult)
    requires
        old(m).wf(),
    ensures
        (*final(m), r@) == tab_bar_key(*old(m), key),
        final(m).wf(),
{
    match key.code {
        KeyCode::Left | KeyCode::Char('h') => {
            let tab = m.tab.prev();
            show_tab(m, tab)
        },
        KeyCode::Right | KeyCode::Char('l') => {
            let tab = m.tab.next();
            show_tab(m, tab)
        },
        KeyCode::Down | KeyCode::Char('j') | KeyCode::Enter => {
            m.tab_bar_focused = false;
            match m.tab {
                SettingsTab::Theme => sync_theme_selection_to_applied(m),
                SettingsTab::General => m.general_focus = GeneralTabFocus::StartupPage,
                SettingsTab::Paths => m.paths_focus = PathsTabFocus::LibraryFolders,
                SettingsTab::Plugins => m.plugins_selected = 0,
            }
            SettingsKeyResult::Handled
        },
        _ => SettingsKeyResult::Handled,
    }
}

/// Whether left and right belong to a setting: a field is edited, or the section
/// that is shown first is chosen.
pub open spec fn keeps_arrows(m: SettingsModalState) -> bool {
    m.editing() || (m.tab == SettingsTab::General && !m.tab_bar_focused && m.general_focus
        == GeneralTabFocus::StartupPage)
}

/// What a key does that the tabs or their bodies take.
pub open spec fn tabs_after(
    m: SettingsModalState,
    n: SettingsModalState,
    key: KeyEvent,
    answer: SettingsAnswer,
) -> bool {
    if (key.code == KeyCode::Left || key.code == KeyCode::Right) && !keeps_arrows(m) {
        if key.code == KeyCode::Left && m.tab == SettingsTab::Theme {
            n == m && answer == SettingsAnswer::ReturnToSidebar
        } else {
            &&& n == SettingsModalState {
                tab_bar_focused: true,
                ..tab_shown(
                    m,
                    if key.code == KeyCode::Left {
                        tab_before(m.tab)
                    } else {
                        tab_behind(m.tab)
                    },
                )
            }
            &&& answer == tab_left(m)
        }
    } else if m.tab_bar_focused {
        (n, answer) == tab_bar_key(m, key)
    } else {
        match m.tab {
            SettingsTab::Theme => (n, answer) == theme_key(m, key),
            SettingsTab::General => general_after(m, n, key, answer),
            SettingsTab::Paths => paths_after(m, n, key, answer),
            SettingsTab::Plugins => plugins_after(m, n, key, answer),
        }
    }
}

fn handle_tabs_key(m: &mut SettingsModalState, key: KeyEvent) -> (r: SettingsKeyResult)
    requires
        old(m).wf(),
        !old(m).tab_bar_focused ==> old(m).ready(key),
    ensures
        tabs_after(*old(m), *final(m), key, r@),
        final(m).wf(),
{
    let keeps: bool = any_field_editing(m) || (matches!(m.tab, SettingsTab::General)
        && !m.tab_bar_focused && matches!(m.general_focus, GeneralTabFocus::StartupPage));
    if matches!(key.code, KeyCode::Left | KeyCode::Right) && !keeps {
        let left: bool = matches!(key.code, KeyCode::Left);
        if left && matches!(m.tab, SettingsTab::Theme) {
            return SettingsKeyResult::ReturnToSidebar;
        }
        let tab = if left {
            m.tab.prev()
        } else {
            m.tab.next()
        };
        let r = show_tab(m, tab);
        m.tab_bar_focused = true;
        return r;
    }
    if m.tab_bar_focused {
        return handle_tab_bar_key(m, key);
    }
    match m.tab {
        SettingsTab::Theme => handle_theme_key(m, key),
        SettingsTab::General => handle_general_key(m, key),
        SettingsTab::Paths => handle_paths_key(m, key),
        SettingsTab::Plugins => handle_plugins_key(m, key),
    }
}

/// What a key does in the settings, and what it asks for.
pub open spec fn settings_key_handled(
    before: (App, SettingsModalState),
    after: (App, SettingsModalState),
    key: KeyEvent,
    answer: SettingsAnswer,
) -> bool {
    let (app, m) = before;
    if key.code == KeyCode::Esc {
        if m.editing() {
            after == (app, edits_left(m)) && answer == SettingsAnswer::Handled
        } else {
            after == before && answer == SettingsAnswer::ReturnToSidebar
        }
    } else if key.code == KeyCode::Char('q') && !m.editing() {
        after == before && answer == SettingsAnswer::Quit
    } else if key.modifiers.control && key.code == KeyCode::Char('b') && !m.editing() {
        after == (dispatched(app, Command::TogglePalette), m) && answer == SettingsAnswer::Handled
    } else if asks_help(key) && !m.editing() {
        after == (dispatched(app, Command::ToggleHelp), m) && answer == SettingsAnswer::Handled
    } else if key.code == KeyCode::Char('/') && !m.editing() {
        after == (search_opened(app), m) && answer == SettingsAnswer::Handled
    } else {
        after.0 == app && tabs_after(m, after.1, key, answer)
    }
}

/// Keys while the settings have the focus.
pub fn handle_settings_key(app: &mut App, modal: &mut SettingsModalState, key: KeyEvent) -> (r:
    SettingsKeyResult)
    requires
        old(modal).wf(),
        !old(modal).tab_bar_focused ==> old(modal).ready(key),
    ensures
        settings_key_handled(
            (*old(app), *old(modal)),
            (*final(app), *final(modal)),
            key,
            r@,
        ),
        final(modal).wf(),
{
    let editing: bool = any_field_editing(modal);
    if matches!(key.code, KeyCode::Esc) {
        if editing {
            modal.pdf_viewer_editing = false;
            modal.keyword_editing = false;
            modal.library_editing = false;
            modal.download_path_editing = false;
            modal.projects_directory_editing = false;
            return SettingsKeyResult::Handled;
        }
        return SettingsKeyResult::ReturnToSidebar;
    }
    if matches!(key.code, KeyCode::Char('q')) && !editing {
        return SettingsKeyResult::Quit;
    }
    if key.modifiers.control && matches!(key.code, KeyCode::Char('b')) && !editing {
        app.dispatch(Command::TogglePalette);
        return SettingsKeyResult::Handled;
    }
    if is_help_shortcut(key) && !editing {
        app.dispatch(Command::ToggleHelp);
        return SettingsKeyResult::Handled;
    }
    if matches!(key.code, KeyCode::Char('/')) && !editing {
        app.page = Page::Discover;
        app.sidebar_index = 1;
        app.content_focused = true;
        app.mode = AppMode::Search;
        app.discovery.query_cursor = text_len(app.discovery.query.as_str());
        return SettingsKeyResult::Handled;
    }
    handle_tabs_key(modal, key)
}

// ---------------------------------------------------------------------------
// Applying
// ---------------------------------------------------------------------------

/// How applying the staged settings ended.
#[derive(Debug)]
pub enum ApplyOutcome {
    /// The configuration could not be put into words.
    Unwritable(String),
    /// The file could not be written.
    WriteFailed(String),
    /// The file was written as `text`, with a theme, and the configuration applied
    /// or not.
    Written { text: String, theme: String, applied: Result<(), String> },
}

/// What is said after the settings have been applied.
pub open spec fn apply_message(outcome: ApplyOutcome) -> Seq<char> {
    match outcome {
        ApplyOutcome::Unwritable(e) => "Serialization failed: "@ + e@,
        ApplyOutcome::WriteFailed(e) => "Write failed: "@ + e@,
        ApplyOutcome::Written { applied, .. } => match applied {
            Ok(_) => "Settings saved and applied."@,
            Err(e) => "Apply failed: "@ + e@,
        },
    }
}

/// The text of the file is in its editor, and nothing else of it changes but what
/// was noted of earlier texts and errors.
pub open spec fn editor_follows(before: ConfigEditor, after: ConfigEditor, text: Seq<char>) -> bool {
    &&& after == ConfigEditor {
        text: after.text,
        history: after.history,
        history_idx: 0,
        error: None,
        ..before
    }
    &&& after.text@ == text
    &&& texts(after.history@) == seq![text]
}

/// Takes in how applying the staged settings ended. Tells whether the library has
/// to be indexed anew.
pub fn settings_applied(
    app: &mut App,
    modal: &mut SettingsModalState,
    editor: &mut ConfigEditor,
    outcome: ApplyOutcome,
) -> (reindex: bool)
    ensures
        *final(app) == (App { toast: final(app).toast, ..*old(app) }),
        opt_text(final(app).toast) == Some(apply_message(outcome)),
        match outcome {
            ApplyOutcome::Written { text, theme, applied } => {
                &&& editor_follows(*old(editor), *final(editor), text@)
                &&& reindex == applied is Ok
                &&& *final(modal) == if applied is Ok {
                    synced(SettingsModalState { original_theme: theme, ..*old(modal) })
                } else {
                    *old(modal)
                }
            },
            _ => !reindex && *final(editor) == *old(editor) && *final(modal) == *old(modal),
        },
        old(modal).wf() ==> final(modal).wf(),
{
    match outcome {
        ApplyOutcome::Unwritable(e) => {
            app.toast = Some(concat("Serialization failed: ", e.as_str()));
            false
        },
        ApplyOutcome::WriteFailed(e) => {
            app.toast = Some(concat("Write failed: ", e.as_str()));
            false
        },
        ApplyOutcome::Written { text, theme, applied } => {
            let mut history: Vec<String> = Vec::new();
            history.push(text.clone());
            assert(texts(history@) =~= seq![text@]);
            editor.text = text;
            editor.history = history;
            editor.history_idx = 0;
            editor.error = None;
            match applied {
                Ok(_) => {
                    modal.original_theme = theme;
                    sync_theme_selection_to_applied(modal);
                    app.toast = Some("Settings saved and applied.".to_owned());
                    true
                },
                Err(e) => {
                    app.toast = Some(concat("Apply failed: ", e.as_str()));
                    false
                },
            }
        },
    }
}

/// The sidebar gets the focus, and the theme in use is selected.
pub fn return_to_sidebar(app: &mut App, modal: &mut SettingsModalState)
    ensures
        *final(app) == (App { content_focused: false, ..*old(app) }),
        *final(modal) == synced(*old(modal)),
        old(modal).wf() ==> final(modal).wf(),
{
    app.content_focused = false;
    sync_theme_selection_to_applied(modal);
}

/// The section that a configuration names, in whatever case.
pub open spec fn section_named(name: Seq<char>) -> Option<Page> {
    let n = lower(name);
    if n == "dashboard"@ {
        Some(Page::Dashboard)
    } else if n == "discover"@ {
        Some(Page::Discover)
    } else if n == "library"@ {
        Some(Page::Library)
    } else if n == "reading_queue"@ {
        Some(Page::ReadingQueue)
    } else if n == "collections"@ {
        Some(Page::Collections)
    } else if n == "bookmarks"@ {
        Some(Page::Bookmarks)
    } else if n == "authors"@ {
        Some(Page::Authors)
    } else if n == "notes"@ {
        Some(Page::Notes)
    } else if n == "downloads"@ {
        Some(Page::Downloads)
    } else if n == "projects"@ {
        Some(Page::Projects)
    } else if n == "history"@ {
        Some(Page::History)
    } else if n == "statistics"@ {
        Some(Page::Statistics)
    } else if n == "settings"@ {
        Some(Page::Settings)
    } else if n == "credits"@ {
        Some(Page::Credits)
    } else {
        None
    }
}

/// The section that a configuration names, in whatever case.
pub fn page_from_config(name: &str) -> (r: Option<Page>)
    ensures
        r == section_named(name@),
{
    let lowered = to_lower(name);
    let n: &str = lowered.as_str();
    if same_text(n, "dashboard") {
        Some(Page::Dashboard)
    } else if same_text(n, "discover") {
        Some(Page::Discover)
    } else if same_text(n, "library") {
        Some(Page::Library)
    } else if same_text(n, "reading_queue") {
        Some(Page::ReadingQueue)
    } else if same_text(n, "collections") {
        Some(Page::Collections)
    } else if same_text(n, "bookmarks") {
        Some(Page::Bookmarks)
    } else if same_text(n, "authors") {
        Some(Page::Authors)
    } else if same_text(n, "notes") {
        Some(Page::Notes)
    } else if same_text(n, "downloads") {
        Some(Page::Downloads)
    } else if same_text(n, "projects") {
        Some(Page::Projects)
    } else if same_text(n, "history") {
        Some(Page::History)
    } else if same_text(n, "statistics") {
        Some(Page::Statistics)
    } else if same_text(n, "settings") {
        Some(Page::Settings)
    } else if same_text(n, "credits") {
        Some(Page::Credits)
    } else {
        None
    }
}

/// Shows the section that the configuration names first, or the dashboard.
pub fn open_first_page(app: &mut App, startup_page: &str)
    ensures
        ({
            let page = section_named(startup_page@).unwrap_or(Page::Dashboard);
            *final(app) == (App {
                page,
                sidebar_index: crate::model::page_index(page) as usize,
                ..*old(app)
            })
        }),
{
    let page = match page_from_config(startup_page) {
        Some(page) => page,
        None => Page::Dashboard,
    };
    app.page = page;
    app.sidebar_index = page.index();
}

// ---------------------------------------------------------------------------
// What the tabs show
// ---------------------------------------------------------------------------

/// Where a list has to be scrolled to, so that the selected row is seen.
pub fn list_scroll(selected: usize, scroll: usize, height: usize) -> (r: usize)
    requires
        selected < usize::MAX,
    ensures
        r == scrolled_to(scroll as int, selected as int, max(height as int, 1)),
{
    let h: usize = if height == 0 {
        1
    } else {
        height
    };
    if selected < scroll {
        selected
    } else if selected - scroll >= h {
        selected - h + 1
    } else {
        scroll
    }
}

/// A small ASCII letter as a capital.
pub open spec fn capital(c: char) -> char {
    if 'a' <= c <= 'z' {
        (c as u8 - 32) as char
    } else {
        c
    }
}

/// A name with its parts, which hyphens separate, set apart and capitalised.
pub open spec fn display_name(name: Seq<char>) -> Seq<char> {
    Seq::new(
        name.len(),
        |i: int|
            if name[i] == '-' {
                ' '
            } else if i == 0 || name[i - 1] == '-' {
                capital(name[i])
            } else {
                name[i]
            },
    )
}

/// What the list of themes shows for one of them.
pub open spec fn theme_label_text(name: Seq<char>, selected: bool, applied: bool) -> Seq<char> {
    (if selected {
        "> "@
    } else {
        "  "@
    }) + display_name(name) + (if applied {
        " (Active)"@
    } else {
        ""@
    })
}

/// What the list of themes shows for one of them.
pub fn theme_label(i: usize, modal: &SettingsModalState) -> (r: String)
    requires
        i < THEME_COUNT,
    ensures
        r@ == theme_label_text(
            theme_name(i),
            i == modal.theme_selected,
            ascii_lowered(theme_name(i)) == ascii_lowered(modal.original_theme@),
        ),
{
    let name = to_chars(builtin_theme(i));
    let mut r = String::new();
    if i == modal.theme_selected {
        push_text(&mut r, "> ");
    } else {
        push_text(&mut r, "  ");
    }
    let ghost head = r@;
    let mut k: usize = 0;
    assert(head + display_name(name@).take(0) =~= head);
    assert(r@ =~= head);
    while k < name.len()
        invariant
            k <= name@.len(),
            r@ == head + display_name(name@).take(k as int),
        decreases name@.len() - k,
    {
        let c = name[k];
        let shown: char = if c == '-' {
            ' '
        } else if (k == 0 || name[k - 1] == '-') && 'a' <= c && c <= 'z' {
            (c as u8 - 32) as char
        } else {
            c
        };
        push_char(&mut r, shown);
        assert(shown == display_name(name@)[k as int]);
        assert(r@ =~= head + display_name(name@).take(k + 1));
        k = k + 1;
    }
    assert(display_name(name@).take(k as int) =~= display_name(name@));
    if same_ignoring_ascii_case(builtin_theme(i), modal.original_theme.as_str()) {
        push_text(&mut r, " (Active)");
    } else {
        push_text(&mut r, "");
    }
    assert(r@ =~= theme_label_text(
        theme_name(i),
        i == modal.theme_selected,
        ascii_lowered(theme_name(i)) == ascii_lowered(modal.original_theme@),
    ));
    r
}

/// What is shown of the section that comes first, of five.
pub fn startup_line(selected: usize) -> (r: String)
    requires
        selected < usize::MAX,
    ensures
        r@ == " ◄  "@ + startup_label(selected) + "  ►   ("@ + decimal((selected + 1) as nat)
            + "/5) "@,
{
    let mut r = concat(" ◄  ", startup_page_label(selected));
    push_text(&mut r, "  ►   (");
    push_text(&mut r, to_decimal((selected + 1) as u64).as_str());
    push_text(&mut r, "/5) ");
    r
}

/// What is shown of the plugins in the general tab.
pub open spec fn plugin_hint_text(enabled: nat, installed: nat) -> Seq<char> {
    if installed == 0 {
        "No plugins installed."@
    } else {
        decimal(enabled) + "/"@ + decimal(installed)
            + " plugins enabled — go to Plugins tab to manage"@
    }
}

/// What is shown of the plugins in the general tab.
pub fn plugin_hint(modal: &SettingsModalState) -> (r: String)
    ensures
        r@ == plugin_hint_text(modal.enabled_plugins@.len(), modal.plugins@.len()),
{
    if modal.plugins.len() == 0 {
        return "No plugins installed.".to_owned();
    }
    let mut r = concat(to_decimal(modal.enabled_plugins.len() as u64).as_str(), "/");
    push_text(&mut r, to_decimal(modal.plugins.len() as u64).as_str());
    push_text(&mut r, " plugins enabled — go to Plugins tab to manage");
    r
}

/// Number of rows that an entry takes: those of its text, and one for its error.
pub open spec fn entry_rows(e: PathEntryState, width: int) -> int {
    max((byte_len(e.text@) + width - 1) / width, 1) + if e.error is Some {
        1int
    } else {
        0
    }
}

/// Row at which entry `n` starts.
pub open spec fn entry_top(entries: Seq<PathEntryState>, width: int, n: int) -> int
    decreases n,
{
    if n <= 0 {
        0
    } else {
        entry_top(entries, width, n - 1) + entry_rows(entries[n - 1], width)
    }
}

/// Rows at which the entries start, as far as they are on the screen.
pub fn entry_layout(entries: &Vec<PathEntryState>, width: u16, height: u16) -> (r: Vec<usize>)
    ensures
        r@.len() <= entries@.len(),
        forall|i: int|
            0 <= i < r@.len() ==> #[trigger] r@[i] == entry_top(
                entries@,
                max(width - 2, 1),
                i,
            ) && r@[i] < height,
        r@.len() < entries@.len() ==> entry_top(entries@, max(width - 2, 1), r@.len() as int)
            >= height,
{
    let w: usize = if width > 3 {
        (width - 2) as usize
    } else {
        1
    };
    let ghost gw = max(width - 2, 1);
    let mut r: Vec<usize> = Vec::new();
    let mut top: usize = 0;
    while r.len() < entries.len() && top < height as usize
        invariant
            w == gw,
            w >= 1,
            r@.len() <= entries@.len(),
            top == entry_top(entries@, gw, r@.len() as int) || (top >= height && entry_top(
                entries@,
                gw,
                r@.len() as int,
            ) >= height),
            forall|i: int|
                0 <= i < r@.len() ==> #[trigger] r@[i] == entry_top(entries@, gw, i) && r@[i]
                    < height,
        decreases entries@.len() - r@.len(),
    {
        let i: usize = r.len();
        let n: usize = text_len(entries[i].text.as_str());
        let full: usize = n / w;
        proof {
            vstd::arithmetic::div_mod::lemma_fundamental_div_mod(n as int, w as int);
            lemma_rows(n as int, w as int);
        }
        let rows: usize = if n % w == 0 {
            if full == 0 {
                1
            } else {
                full
            }
        } else {
            full + 1
        };
        let error: usize = if entries[i].error.is_some() {
            1
        } else {
            0
        };
        r.push(top);
        let room: usize = height as usize - top;
        if rows >= room {
            top = height as usize;
        } else {
            top = top + rows + error;
        }
    }
    r
}

proof fn lemma_rows(n: int, w: int)
    requires
        0 <= n,
        1 <= w,
    ensures
        (n + w - 1) / w == if n % w == 0 {
            n / w
        } else {
            n / w + 1
        },
        n / w <= n,
        n / w >= 0,
        n % w != 0 ==> n / w < n,
{
    vstd::arithmetic::div_mod::lemma_fundamental_div_mod(n, w);
    let q = n / w;
    let s = n % w;
    assert(0 <= s < w) by {
        vstd::arithmetic::div_mod::lemma_mod_pos_bound(n, w);
    }
    assert(q >= 0 && q <= n) by (nonlinear_arith)
        requires
            n == w * q + s,
            0 <= s < w,
            1 <= w,
            0 <= n,
    ;
    if s != 0 {
        assert(q < n) by (nonlinear_arith)
            requires
                n == w * q + s,
                1 <= s,
                1 <= w,
                0 <= q,
        ;
    }
    if s == 0 {
        assert(n + w - 1 == q * w + (w - 1)) by (nonlinear_arith)
            requires
                n == w * q + s,
                s == 0,
        ;
        vstd::arithmetic::div_mod::lemma_fundamental_div_mod_converse(n + w - 1, w, q, w - 1);
    } else {
        assert(n + w - 1 == (q + 1) * w + (s - 1)) by (nonlinear_arith)
            requires
                n == w * q + s,
        ;
        vstd::arithmetic::div_mod::lemma_fundamental_div_mod_converse(n + w - 1, w, q + 1, s - 1);
    }
}

/// Title and text of the field of a path: with an error, both tell of it.
pub fn path_field(title: &str, text: &str, error: &Option<String>) -> (r: (String, String))
    ensures
        match *error {
            Some(e) => r.0@ == crate::strings::trim_end(title@) + " ⚠"@ && r.1@ == text@ + " — "@
                + e@,
            None => r.0@ == title@ && r.1@ == text@,
        },
{
    match error {
        Some(e) => {
            let chars = to_chars(title);
            let mut n: usize = chars.len();
            let ghost all = chars@;
            assert(all.take(n as int) =~= all);
            while n > 0 && crate::chars::is_whitespace(chars[n - 1])
                invariant
                    n <= chars@.len(),
                    all == chars@,
                    crate::strings::trim_end(all) == crate::strings::trim_end(all.take(n as int)),
                decreases n,
            {
                assert(all.take(n as int).drop_last() =~= all.take(n - 1));
                n = n - 1;
            }
            assert(all.subrange(0, n as int) =~= all.take(n as int));
            let head = crate::text::from_range(&chars, 0, n);
            let mut content = concat(text, " — ");
            push_text(&mut content, e.as_str());
            (concat(head.as_str(), " ⚠"), content)
        },
        None => (title.to_owned(), text.to_owned()),
    }
}

/// Escape leaves what has been typed as it is, and no field is edited any more. Where
/// none was, the sidebar gets the focus.
pub proof fn lemma_escape_leaves_the_field(
    before: (App, SettingsModalState),
    after: (App, SettingsModalState),
    key: KeyEvent,
    answer: SettingsAnswer,
)
    requires
        settings_key_handled(before, after, key, answer),
        key.code == KeyCode::Esc,
    ensures
        !after.1.editing(),
        after.0 == before.0,
        answer == if before.1.editing() {
            SettingsAnswer::Handled
        } else {
            SettingsAnswer::ReturnToSidebar
        },
        after.1.tab == before.1.tab,
        after.1.theme_selected == before.1.theme_selected,
        after.1.startup_page_selected == before.1.startup_page_selected,
        after.1.pdf_viewer == before.1.pdf_viewer,
        after.1.keyword_entries == before.1.keyword_entries,
        after.1.library_entries == before.1.library_entries,
        after.1.download_path == before.1.download_path,
        after.1.projects_directory == before.1.projects_directory,
        after.1.enabled_plugins == before.1.enabled_plugins,
{
}

/// The letters that ask for something elsewhere are typed while a field is edited.
pub proof fn lemma_fields_take_all_letters(
    before: (App, SettingsModalState),
    after: (App, SettingsModalState),
    key: KeyEvent,
    answer: SettingsAnswer,
    a: Seq<char>,
    b: Seq<char>,
    ch: char,
)
    requires
        settings_key_handled(before, after, key, answer),
        before.1.tab == SettingsTab::Paths,
        !before.1.tab_bar_focused,
        before.1.paths_focus == PathsTabFocus::DownloadPath,
        before.1.download_path_editing,
        before.1.download_path@ == a + b,
        before.1.download_path_cursor == byte_len(a),
        key.code == KeyCode::Char(ch),
        ch != '/',
    ensures
        after.0 == before.0,
        answer == SettingsAnswer::Handled,
        after.1.library_entries == before.1.library_entries,
        after.1.projects_directory == before.1.projects_directory,
        after.1.download_path_editing,
        after.1.download_path@ == a.push(ch) + b,
        after.1.download_path_cursor == byte_len(a.push(ch)),
{
    crate::field::lemma_field_takes_characters(a, b, ch, key);
}

/// The theme that is selected is shown at once, and the one in use is shown again when
/// the themes are left without one being applied.
pub proof fn lemma_themes_are_previewed(
    before: (App, SettingsModalState),
    after: (App, SettingsModalState),
    key: KeyEvent,
    answer: SettingsAnswer,
)
    requires
        settings_key_handled(before, after, key, answer),
        before.1.wf(),
        before.1.tab == SettingsTab::Theme,
        !before.1.tab_bar_focused,
        !before.1.editing(),
        key.code == KeyCode::Down || key.code == KeyCode::Up || key.code == KeyCode::Right
            || key.code == KeyCode::Enter,
    ensures
        after.0 == before.0,
        key.code == KeyCode::Down && before.1.theme_selected + 1 < THEME_COUNT
            ==> after.1.theme_selected == before.1.theme_selected + 1 && answer
            == SettingsAnswer::PreviewTheme(theme_name(after.1.theme_selected)),
        key.code == KeyCode::Down && before.1.theme_selected + 1 >= THEME_COUNT ==> after.1
            == before.1,
        key.code == KeyCode::Up && before.1.theme_selected > 0 ==> after.1.theme_selected
            == before.1.theme_selected - 1 && answer == SettingsAnswer::PreviewTheme(
            theme_name(after.1.theme_selected),
        ),
        key.code == KeyCode::Up && before.1.theme_selected == 0 ==> after.1.tab_bar_focused
            && after.1.theme_selected == 0,
        key.code == KeyCode::Right ==> after.1.tab == SettingsTab::General && answer
            == SettingsAnswer::PreviewTheme(before.1.original_theme@),
        key.code == KeyCode::Enter ==> after.1 == before.1 && answer == SettingsAnswer::Apply,
        after.1.original_theme == before.1.original_theme,
{
}

/// An entry that is taken out leaves the others in their order. One that is moved changes
/// places with its neighbour. The selection stays with what it was on, or goes to what
/// takes its place.
pub proof fn lemma_entries_are_rearranged(
    a: Seq<PathEntryState>,
    x: PathEntryState,
    y: PathEntryState,
    b: Seq<PathEntryState>,
)
    ensures
        ({
            let all = a + seq![x] + b;
            let n = a.len() as int;
            let out = Some(
                (
                    a + b,
                    if b.len() > 0 || n == 0 {
                        n
                    } else {
                        n - 1
                    },
                ),
            );
            &&& list_key(all, n, KeyCode::Char('d')) == out
            &&& list_key(all, n, KeyCode::Delete) == out
        }),
        ({
            let all = a + seq![x, y] + b;
            let n = a.len() as int;
            &&& list_key(all, n + 1, KeyCode::Char('K')) == Some((a + seq![y, x] + b, n))
            &&& list_key(all, n, KeyCode::Char('J')) == Some((a + seq![y, x] + b, n + 1))
        }),
        list_key(a, 0, KeyCode::Char('K')) is None,
        list_key(a.push(x), a.len() as int, KeyCode::Char('J')) is None,
        list_key(Seq::empty(), 0, KeyCode::Char('d')) is None,
{
    let n = a.len() as int;
    let one = a + seq![x] + b;
    assert(one.remove(n) =~= a + b);
    let all = a + seq![x, y] + b;
    assert(all[n] == x && all[n + 1] == y);
    assert(all.update(n + 1, x).update(n, y) =~= a + seq![y, x] + b);
    assert(all.update(n, y).update(n + 1, x) =~= a + seq![y, x] + b);
}

/// A path has to start at the root, whatever white space stands around it. None at all is
/// in order.
pub proof fn lemma_paths_start_at_the_root(a: Seq<char>, n: Seq<char>, b: Seq<char>)
    requires
        forall|i: int| 0 <= i < a.len() ==> whitespace(#[trigger] a[i]),
        forall|i: int| 0 <= i < b.len() ==> whitespace(#[trigger] b[i]),
    ensures
        path_error(a) is None,
        n.len() > 0 && !whitespace(n[0]) && !whitespace(n.last()) ==> (path_error(a + n + b) is None
            <==> n[0] == '/'),
{
    crate::strings::lemma_blank(a);
    if n.len() > 0 && !whitespace(n[0]) && !whitespace(n.last()) {
        crate::strings::lemma_trimmed_inside(a, n, b);
    }
}

/// Going through the sections that can come first is going round in a circle, and left
/// takes back what right did.
pub proof fn lemma_options_form_a_circle(selected: int, len: int)
    requires
        0 <= selected < len,
    ensures
        0 <= option_beside(selected, len, false) < len,
        option_beside(option_beside(selected, len, false), len, true) == selected,
        option_beside(option_beside(selected, len, true), len, false) == selected,
        selected + 1 < len ==> option_beside(selected, len, false) == selected + 1,
        selected + 1 == len ==> option_beside(selected, len, false) == 0,
{
    if selected + 1 < len {
        assert((selected + 1) % len == selected + 1) by (nonlinear_arith)
            requires
                0 <= selected + 1 < len,
        ;
        assert((selected + 1 + len - 1) % len == selected) by (nonlinear_arith)
            requires
                0 <= selected < len,
        ;
    } else {
        assert(len % len == 0) by (nonlinear_arith)
            requires
                len > 0,
        ;
        assert((0 + len - 1) % len == len - 1) by (nonlinear_arith)
            requires
                len > 0,
        ;
    }
    if selected > 0 {
        assert((selected + len - 1) % len == selected - 1) by (nonlinear_arith)
            requires
                0 < selected < len,
        ;
        assert((selected - 1 + 1) % len == selected) by (nonlinear_arith)
            requires
                0 <= selected < len,
        ;
    } else {
        assert((0 + len - 1) % len == len - 1) by (nonlinear_arith)
            requires
                len > 0,
        ;
        assert((len - 1 + 1) % len == 0) by (nonlinear_arith)
            requires
                len > 0,
        ;
    }
}

/// Tells the texts that hold more than white space.
pub open spec fn says_something() -> spec_fn(Seq<char>) -> bool {
    |t: Seq<char>| exists|i: int| 0 <= i < t.len() && !whitespace(#[trigger] t[i])
}

/// Folders and keywords that say nothing are left out of the configuration. The others
/// stay in their order, folders as they are and keywords without the white space around
/// them.
pub proof fn lemma_blank_entries_are_left_out(t: Seq<Seq<char>>)
    ensures
        filled(t) == t.filter(says_something()),
        filled_trimmed(t) == t.filter(says_something()).map_values(|w: Seq<char>| trimmed(w)),
    decreases t.len(),
{
    reveal(Seq::filter);
    let p = says_something();
    let f = |w: Seq<char>| trimmed(w);
    if t.len() > 0 {
        lemma_blank_entries_are_left_out(t.drop_last());
        let last = t.last();
        crate::strings::lemma_blank(last);
        assert(p(last) <==> trimmed(last).len() > 0);
        let rest = t.drop_last().filter(p);
        assert(rest.push(last).map_values(f) =~= rest.map_values(f).push(trimmed(last)));
    } else {
        assert(t.filter(p) =~= Seq::<Seq<char>>::empty());
        assert(filled_trimmed(t) =~= t.filter(p).map_values(f));
    }
}

/// A keyword that is entered is taken over without the white space around it, and one
/// that says nothing is not.
pub proof fn lemma_keyword_is_taken_over(
    m: SettingsModalState,
    n: SettingsModalState,
    key: KeyEvent,
    answer: SettingsAnswer,
    a: Seq<char>,
    word: Seq<char>,
    b: Seq<char>,
)
    requires
        keyword_edited(m, n, key, answer),
        key.code == KeyCode::Enter,
        m.keyword_editing,
        m.keyword_selected < m.keyword_entries@.len(),
        m.keyword_entries@[m.keyword_selected as int].text@ == a + word + b,
        forall|i: int| 0 <= i < a.len() ==> whitespace(#[trigger] a[i]),
        forall|i: int| 0 <= i < b.len() ==> whitespace(#[trigger] b[i]),
        word.len() > 0 ==> !whitespace(word[0]) && !whitespace(word.last()),
    ensures
        n.keyword_entries@.len() == m.keyword_entries@.len(),
        forall|i: int|
            0 <= i < m.keyword_entries@.len() && i != m.keyword_selected
                ==> #[trigger] n.keyword_entries@[i] == m.keyword_entries@[i],
        word.len() > 0 ==> n.keyword_entries@[m.keyword_selected as int].text@ == word
            && !n.keyword_editing && answer == SettingsAnswer::Apply,
        word.len() == 0 ==> n.keyword_entries@[m.keyword_selected as int].text@ == a + b
            && n.keyword_entries@[m.keyword_selected as int].error is Some && n.keyword_editing
            && answer == SettingsAnswer::Handled,
{
    let i = m.keyword_selected as int;
    let text = a + word + b;
    if word.len() > 0 {
        crate::strings::lemma_trimmed_inside(a, word, b);
    } else {
        assert(text =~= a + b);
        assert forall|k: int| 0 <= k < text.len() implies whitespace(#[trigger] text[k]) by {
            if k < a.len() {
                assert(text[k] == a[k]);
            } else {
                assert(text[k] == b[k - a.len()]);
            }
        }
        crate::strings::lemma_blank(text);
    }
}

} // verus!
