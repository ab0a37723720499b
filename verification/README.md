# neovision

A toolkit for DOS / Turbo-Vision-style (CUA) text UIs on a character-cell
grid, written in Verus: every function states what it does in a contract, and
Verus proves the code against it.

The toolkit renders to a buffer of cells — a CP437 byte plus a VGA attribute
byte, the layout of text-mode video memory — and stops there. Turning cells
into pixels or terminal output, reading keys and applying the form's actions
are the host's business.

## Layout

| module | what it holds |
|---|---|
| `cell` | `Cell`, the packed VGA attribute, and `CellBuffer` with row shifts |
| `cp437` | the CP437 table, both directions, and folding a `char` to a byte |
| `geom` | `Point`, `Size`, `Rect` with saturating edges and intersection |
| `layer` | `Layer`, `LayerCell`, `LayerStack` and the compositor |
| `draw` | `CellCanvas` / `CellDraw`: text, fills, frames and rules on any surface |
| `cursor` | the text caret a renderer reports instead of drawing |
| `form::model` | `FormState`: fields (choices, numbers, text, toggles, radio and check clusters, buttons), focus, the entry-field editor, popups, hotkeys, Cancel |
| `form::render` | the CUA renderer, from a form to layers and a caret |

## What is proved

- `FormState::handle` is specified event by event over a model of the form
  (`FormState::handled`): navigation by rows and along the button bar, Tab
  order, the entry-field editor, committing and clamping numbers, the modal
  popup, accelerators, and the Cancel restore set.
- `render` and `render_with_cursor` are specified cell by cell: the panel, its
  shadow, the popup list and its shadow, and the caret, every layer on screen.
- The compositor, the drawing helpers, CP437 folding and the buffer's row
  shifts each have an exact contract.
- Laws that span calls — focus landing on an entry selects it, Cancel restores
  only touched fields, the popup is modal, Tab lands on a focusable field, a
  scrollbar keeps inside its frame, and more — are public proof functions.

The tests under `tests/` run the same library on concrete forms and screens.

## Not included

The bundled VGA bitmap faces (`font::glyph`, `font::glyph_8x8`, `font::pixel`)
are not part of this crate: their glyph data is not available here. A pixel
host supplies its own face and indexes it with a cell's CP437 byte.
