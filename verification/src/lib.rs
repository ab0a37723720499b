//! A CUA / Turbo-Vision-style widget toolkit for character-cell text UIs.
//!
//! It draws DOS-era modal forms — framed dialogs, entry fields, choice
//! pickers, toggles, buttons — onto a character-cell grid, and hands the
//! result back as [`Layer`]s plus an optional [`TextCursor`]. It never
//! touches a terminal, a framebuffer or an event loop: rendering is a pure
//! function from state to cells.
//!
//! [`FormState`] holds the fields and focus; [`render()`] turns it into
//! layers. Input arrives as [`FormEvent`] values, and [`FormState::handle`]
//! returns a [`FormOutcome`] describing what the form did. The model is
//! generic over the caller's action type `A`, which it stores and returns
//! but never inspects.
//!
//! Underneath is the character-cell substrate: cells and buffers, CP437,
//! geometry, layers and their compositing, and drawing helpers.
use vstd::prelude::*;

pub mod cell;
pub mod cp437;
pub mod cursor;
pub mod draw;
pub mod form;
pub mod geom;
pub mod layer;
mod text;

pub use cell::{Cell, CellBuffer};
pub use cursor::{CursorShape, TextCursor};
pub use draw::{BoxChars, CellCanvas, CellDraw};
pub use form::model::{
    ButtonKind, ChoiceOption, Field, FieldKind, FormEvent, FormOutcome, FormState, NumberCommit,
    NumberCommitter, Popup, TextCommit, TextCommitter,
};
pub use form::render::{render, render_themed, render_with_cursor, HotkeyAttrs, Layout, Theme};
pub use geom::{Point, Rect, Size};
pub use layer::{Layer, LayerCell, LayerStack, SHADE_ATTR};

verus! {

} // verus!
