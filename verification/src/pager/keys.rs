//! Keys and the other things that happen at a terminal.

use crate::render::TintPalette;
use crate::terminal_palette::AnsiColor;
use vstd::prelude::*;

verus! {

/// A key.
#[derive(Clone, Copy, Debug, Eq, PartialEq, Structural)]
pub enum KeyCode {
    Char(char),
    Backspace,
    Enter,
    Esc,
    Up,
    Down,
    Left,
    Right,
    Home,
    End,
    PageUp,
    PageDown,
    /// Any key that the pager has no use for.
    Other,
}

/// Whether the control key was held.
#[derive(Clone, Copy, Debug, Eq, PartialEq, Structural)]
pub enum KeyModifiers {
    Plain,
    Control,
}

/// Something that happened at the terminal.
#[derive(Clone, Copy, Debug, Eq, PartialEq, Structural)]
pub enum PagerEvent {
    Key { code: KeyCode, modifiers: KeyModifiers },
    ScrollUp,
    ScrollDown,
    /// The left button was pressed.
    Press { row: u16, column: u16 },
    /// The mouse was moved with the left button held.
    Drag { row: u16 },
    /// The left button was released.
    Release { row: u16 },
    /// The terminal has the focus again; its colors may have changed.
    Focus { palette: TintPalette, search_bg: Option<AnsiColor> },
    Other,
}

/// What is to be done after something happened.
#[derive(Debug, Eq, PartialEq)]
pub enum PagerAction {
    Continue,
    Quit,
    /// Hand a text to the clipboard.
    Copy(String),
}

/// What a [`PagerAction`] says.
pub enum ActionView {
    Continue,
    Quit,
    Copy(Seq<char>),
}

impl View for PagerAction {
    type V = ActionView;

    open spec fn view(&self) -> ActionView {
        match self {
            PagerAction::Continue => ActionView::Continue,
            PagerAction::Quit => ActionView::Quit,
            PagerAction::Copy(text) => ActionView::Copy(text@),
        }
    }
}

} // verus!
