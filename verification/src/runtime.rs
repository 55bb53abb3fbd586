//! The rounds of the main loop: what they look at, and what follows.

use crate::effect::{EffectView, KeyEffect};
use crate::keys::KeyEventKind;
use crate::model::{App, AppMode, Page, ProjectPane, ProjectState, PdfState, WorkspaceSearchState};
use crate::paths::{inside, is_inside};
use crate::strings::{copy_texts, opt_text, same_text, texts};
use vstd::prelude::*;

verus! {

/// How a mouse is moved.
#[derive(Clone, Copy, Debug, PartialEq, Eq, Structural)]
pub enum MouseEventKind {
    ScrollUp,
    ScrollDown,
    Other,
}

/// What the wheel of the mouse does: an open document scrolls by three rows.
pub fn handle_mouse(mode: AppMode, kind: MouseEventKind) -> (r: KeyEffect)
    ensures
        r@ == (if mode != AppMode::PdfView {
            EffectView::Nothing
        } else {
            match kind {
                MouseEventKind::ScrollUp => EffectView::ScrollPdf(-3i64),
                MouseEventKind::ScrollDown => EffectView::ScrollPdf(3i64),
                MouseEventKind::Other => EffectView::Nothing,
            }
        }),
{
    if mode != AppMode::PdfView {
        return KeyEffect::Nothing;
    }
    match kind {
        MouseEventKind::ScrollUp => KeyEffect::ScrollPdf(-3),
        MouseEventKind::ScrollDown => KeyEffect::ScrollPdf(3),
        MouseEventKind::Other => KeyEffect::Nothing,
    }
}

/// What a key event is for.
#[derive(Clone, Copy, Debug, PartialEq, Eq, Structural)]
pub enum KeyRoute {
    Ignored,
    Settings,
    Program,
}

/// What a key event is for: keys count when they are pressed, and over an open
/// document also while they are held. The settings take their own keys.
pub open spec fn key_route(app: App, kind: KeyEventKind) -> KeyRoute {
    if kind == KeyEventKind::Press || (app.mode == AppMode::PdfView && kind
        == KeyEventKind::Repeat) {
        if app.page == Page::Settings && app.content_focused && app.mode == AppMode::Normal {
            KeyRoute::Settings
        } else {
            KeyRoute::Program
        }
    } else {
        KeyRoute::Ignored
    }
}

/// What a key event is for.
pub fn route_event(app: &App, kind: KeyEventKind) -> (r: KeyRoute)
    ensures
        r == key_route(*app, kind),
{
    if matches!(kind, KeyEventKind::Press) || (app.mode == AppMode::PdfView && matches!(
        kind,
        KeyEventKind::Repeat
    )) {
        if app.page == Page::Settings && app.content_focused && app.mode == AppMode::Normal {
            KeyRoute::Settings
        } else {
            KeyRoute::Program
        }
    } else {
        KeyRoute::Ignored
    }
}

/// Whether a document is shown: on its own, or beside the text of a project.
pub open spec fn preview_active(app: App) -> bool {
    app.mode == AppMode::PdfView || (app.page == Page::Projects && app.project.active is Some
        && app.pdf.path is Some)
}

/// Whether a document is shown.
pub fn is_preview_active(app: &App) -> (r: bool)
    ensures
        r == preview_active(*app),
{
    app.mode == AppMode::PdfView || (app.page == Page::Projects && app.project.active.is_some()
        && app.pdf.path.is_some())
}

/// How long to wait for the next event, in milliseconds: shortly while a document
/// scrolls or is being drawn.
pub fn poll_timeout(preview: bool, animating: bool, page_cached: bool) -> (r: u64)
    ensures
        r == (if !preview {
            100
        } else if animating {
            8
        } else if page_cached {
            250u64
        } else {
            50
        }),
{
    if !preview {
        100
    } else if animating {
        8
    } else if page_cached {
        250
    } else {
        50
    }
}

/// How long a message stays, in milliseconds.
pub const TOAST_TTL: u64 = 7_000;

/// The time since a message was shown first.
pub open spec fn toast_start(app: App, last: Option<Seq<char>>, now: u64) -> Option<u64> {
    if opt_text(app.toast) != last {
        Some(now)
    } else {
        app.toast_at
    }
}

/// Whether a message has been shown long enough.
pub open spec fn toast_over(app: App, last: Option<Seq<char>>, now: u64) -> bool {
    toast_start(app, last, now) matches Some(at) && now - at >= TOAST_TTL
}

/// Lets messages go after some time. `last` is the message of the last round.
/// Tells whether anything has to be drawn.
pub fn tick_toast(app: &mut App, last: &mut Option<String>, now: u64) -> (changed: bool)
    ensures
        ({
            let shown = opt_text(*old(last));
            if old(app).toast is None {
                &&& *final(app) == (App { toast_at: None, ..*old(app) })
                &&& *final(last) is None
                &&& changed == (shown is Some)
            } else if toast_over(*old(app), shown, now) {
                &&& *final(app) == (App { toast: None, toast_at: None, ..*old(app) })
                &&& *final(last) is None
                &&& changed
            } else {
                &&& *final(app) == (App {
                    toast_at: toast_start(*old(app), shown, now),
                    ..*old(app)
                })
                &&& opt_text(*final(last)) == opt_text(old(app).toast)
                &&& changed == (opt_text(old(app).toast) != shown)
            }
        }),
{
    let mut changed: bool = false;
    let same: bool = match (&app.toast, &*last) {
        (Some(a), Some(b)) => same_text(a.as_str(), b.as_str()),
        _ => false,
    };
    match &app.toast {
        None => {
            changed = last.is_some();
            app.toast_at = None;
            *last = None;
            return changed;
        },
        Some(toast) => {
            if !same {
                *last = Some(toast.clone());
                changed = true;
            }
        },
    }
    if changed {
        app.toast_at = Some(now);
    }
    match app.toast_at {
        Some(at) => {
            if now >= at && now - at >= TOAST_TTL {
                app.toast = None;
                app.toast_at = None;
                *last = None;
                changed = true;
            }
        },
        None => {},
    }
    changed
}

/// A message that is shown for the first time does not go in the same round.
pub proof fn lemma_new_toast_stays(app: App, last: Option<Seq<char>>, now: u64)
    requires
        opt_text(app.toast) != last,
    ensures
        !toast_over(app, last, now),
{
}

/// What a change of the section brings about.
#[derive(Clone, Copy, Debug, PartialEq, Eq, Structural)]
pub struct PageChange {
    pub changed: bool,
    pub revert_theme: bool,
    pub refresh_dashboard: bool,
    pub open_settings: bool,
}

/// Looks whether another section is shown than in the last round. The local search
/// is then empty; a theme that was only tried out is given up when the settings
/// are left; figures are read anew for sections that show them.
pub fn note_page(app: &mut App, last: Option<Page>) -> (r: PageChange)
    ensures
        ({
            let changed = last != Some(old(app).page);
            &&& r == (PageChange {
                changed,
                revert_theme: changed && last == Some(Page::Settings),
                refresh_dashboard: changed && (old(app).page == Page::Dashboard || old(app).page
                    == Page::History || old(app).page == Page::Statistics),
                open_settings: changed && old(app).page == Page::Settings,
            })
            &&& if changed {
                &&& *final(app) == (App {
                    search: WorkspaceSearchState {
                        query: final(app).search.query,
                        query_cursor: 0,
                        ..old(app).search
                    },
                    ..*old(app)
                })
                &&& final(app).search.query@.len() == 0
            } else {
                *final(app) == *old(app)
            }
        }),
{
    let same: bool = match last {
        Some(page) => page == app.page,
        None => false,
    };
    if same {
        return PageChange {
            changed: false,
            revert_theme: false,
            refresh_dashboard: false,
            open_settings: false,
        };
    }
    app.search.query = String::new();
    app.search.query_cursor = 0;
    let left_settings: bool = match last {
        Some(page) => page == Page::Settings,
        None => false,
    };
    PageChange {
        changed: true,
        revert_theme: left_settings,
        refresh_dashboard: matches!(app.page, Page::Dashboard | Page::History | Page::Statistics),
        open_settings: app.page == Page::Settings,
    }
}

/// Whether a theme that was only tried out has to be given up for the one that was
/// in use: that one is known, and another is shown.
pub fn must_revert_theme(original: &str, shown: &str) -> (r: bool)
    ensures
        r == (original@.len() > 0 && shown@ != original@),
{
    !original.is_empty() && !same_text(shown, original)
}

/// How often the date is looked at, in milliseconds.
pub const DATE_CHECK_PERIOD: u64 = 1_000;

/// How often papers are looked for that could be completed, in milliseconds.
pub const ENRICHMENT_CHECK_PERIOD: u64 = 300_000;

/// Whether something is due again that is done every `period` milliseconds.
pub fn is_due(last: u64, now: u64, period: u64) -> (r: bool)
    ensures
        r == (now >= last && now - last >= period),
{
    now >= last && now - last >= period
}

/// Notes that all answers of the catalogues are in. Tells whether that is new.
pub fn enrichment_idle(app: &mut App, waiting: bool) -> (changed: bool)
    ensures
        changed == (!waiting && old(app).enrichment_pending),
        *final(app) == (App {
            enrichment_pending: old(app).enrichment_pending && waiting,
            ..*old(app)
        }),
{
    if !waiting && app.enrichment_pending {
        app.enrichment_pending = false;
        return true;
    }
    false
}

/// Whether a folder lies in one of `roots`.
pub open spec fn in_roots(roots: Seq<Seq<char>>, path: Seq<char>) -> bool {
    exists|i: int| 0 <= i < roots.len() && inside(path, #[trigger] roots[i])
}

/// The folders of the library: those of the groups and, unless it lies in one of
/// them, that of the downloads.
pub fn library_roots(collection_roots: &Vec<String>, download_dir: &str) -> (r: Vec<String>)
    ensures
        texts(r@) == (if in_roots(texts(collection_roots@), download_dir@) {
            texts(collection_roots@)
        } else {
            texts(collection_roots@).push(download_dir@)
        }),
{
    let mut r = copy_texts(collection_roots);
    let mut i: usize = 0;
    while i < collection_roots.len()
        invariant
            i <= collection_roots@.len(),
            texts(r@) == texts(collection_roots@),
            forall|j: int|
                0 <= j < i ==> !inside(download_dir@, #[trigger] texts(collection_roots@)[j]),
        decreases collection_roots@.len() - i,
    {
        if is_inside(download_dir, collection_roots[i].as_str()) {
            assert(inside(download_dir@, texts(collection_roots@)[i as int]));
            return r;
        }
        i = i + 1;
    }
    let ghost before = texts(r@);
    r.push(download_dir.to_owned());
    assert(texts(r@) =~= before.push(download_dir@));
    r
}

/// Takes over the configured viewer. Without the one of the program there is no
/// preview to be in.
pub fn viewer_configured(app: &mut App, viewer: String)
    ensures
        *final(app) == (App {
            pdf: PdfState { viewer, ..old(app).pdf },
            project: ProjectState {
                pane: if viewer@ != "internal"@ && old(app).project.pane == ProjectPane::Preview {
                    ProjectPane::FileTree
                } else {
                    old(app).project.pane
                },
                ..old(app).project
            },
            ..*old(app)
        }),
{
    let internal: bool = same_text(viewer.as_str(), "internal");
    app.pdf.viewer = viewer;
    if !internal && app.project.pane == ProjectPane::Preview {
        app.project.pane = ProjectPane::FileTree;
    }
}

/// A key that is let go does nothing, and one that is held repeats over an open document
/// only. The settings take keys while they have the focus and nothing lies over them.
pub proof fn lemma_keys_count_when_pressed(app: App, kind: KeyEventKind)
    ensures
        kind == KeyEventKind::Release ==> key_route(app, kind) == KeyRoute::Ignored,
        kind == KeyEventKind::Repeat && app.mode != AppMode::PdfView ==> key_route(app, kind)
            == KeyRoute::Ignored,
        kind == KeyEventKind::Repeat && app.mode == AppMode::PdfView ==> key_route(app, kind)
            == KeyRoute::Program,
        kind == KeyEventKind::Press ==> key_route(app, kind) != KeyRoute::Ignored,
        key_route(app, kind) == KeyRoute::Settings ==> app.page == Page::Settings
            && app.content_focused && app.mode == AppMode::Normal,
{
}

/// A message is shown for seven seconds from when it was seen first.
pub proof fn lemma_message_is_shown_for_a_while(app: App, last: Option<Seq<char>>, at: u64, now: u64)
    requires
        opt_text(app.toast) == last,
        app.toast_at == Some(at),
    ensures
        toast_over(app, last, now) <==> now >= at + 7000,
{
}

} // verus!
