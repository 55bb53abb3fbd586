//! What has to be done outside of the library before a key is dealt with.

use crate::action::{ActionView, UiAction};
use crate::model::ProjectPane;
use crate::terminal::{RequestView, TerminalRequest};
use vstd::prelude::*;

verus! {

/// What follows once the text of the project editor has been saved.
#[derive(Clone, Copy, Debug, PartialEq, Eq, Structural)]
pub enum AfterSave {
    Stay,
    Focus(ProjectPane),
    LeaveProject,
    ShowFileTree,
}

/// What a key leads to beyond the state of the program.
#[derive(Debug)]
pub enum KeyEffect {
    Nothing,
    Act(UiAction),
    /// Scroll the open document by rows.
    ScrollPdf(i64),
    PdfPageUp,
    PdfPageDown,
    /// Show a page of the open document from its top.
    JumpToPage(usize),
    RunTerminal(TerminalRequest),
    /// Write the text of the project editor to its file.
    SaveProject(AfterSave),
    /// Read the clipboard for the project editor.
    PasteClipboard,
    /// Put a text on the clipboard.
    CopyText(String),
    /// Find out whether an entry of the file tree is a folder.
    OpenTreeEntry(String),
    /// List the folder above the one that the file tree shows.
    ListTreeParent,
}

/// A [`KeyEffect`] by its texts.
pub enum EffectView {
    Nothing,
    Act(ActionView),
    ScrollPdf(i64),
    PdfPageUp,
    PdfPageDown,
    JumpToPage(int),
    RunTerminal(RequestView),
    SaveProject(AfterSave),
    PasteClipboard,
    CopyText(Seq<char>),
    OpenTreeEntry(Seq<char>),
    ListTreeParent,
}

impl View for KeyEffect {
    type V = EffectView;

    open spec fn view(&self) -> EffectView {
        match *self {
            KeyEffect::Nothing => EffectView::Nothing,
            KeyEffect::Act(a) => EffectView::Act(a@),
            KeyEffect::ScrollPdf(n) => EffectView::ScrollPdf(n),
            KeyEffect::PdfPageUp => EffectView::PdfPageUp,
            KeyEffect::PdfPageDown => EffectView::PdfPageDown,
            KeyEffect::JumpToPage(n) => EffectView::JumpToPage(n as int),
            KeyEffect::RunTerminal(r) => EffectView::RunTerminal(r@),
            KeyEffect::SaveProject(a) => EffectView::SaveProject(a),
            KeyEffect::PasteClipboard => EffectView::PasteClipboard,
            KeyEffect::CopyText(s) => EffectView::CopyText(s@),
            KeyEffect::OpenTreeEntry(s) => EffectView::OpenTreeEntry(s@),
            KeyEffect::ListTreeParent => EffectView::ListTreeParent,
        }
    }
}

/// An action that may be missing, as an effect.
pub open spec fn acting(a: Option<ActionView>) -> EffectView {
    match a {
        Some(v) => EffectView::Act(v),
        None => EffectView::Nothing,
    }
}

/// An action that may be missing, as an effect.
pub fn effect_of(a: Option<UiAction>) -> (r: KeyEffect)
    ensures
        r@ == acting(crate::action::act(a)),
{
    match a {
        Some(u) => KeyEffect::Act(u),
        None => KeyEffect::Nothing,
    }
}

} // verus!
