//! Draw a [`FormState`] into cell layers.
//!
//! Pure: takes state, returns layers, touches nothing. The caller pushes the
//! result onto its layer stack. Layers come back bottom-to-top, so pushing
//! them in order gives the right z-order.
use vstd::prelude::*;
use vstd::string::*;

use crate::cell::Cell;
use crate::cp437::{fold, fold_char};
use crate::cursor::{CursorShape, TextCursor};
use crate::draw::{box_glyph, write_count, BoxChars, CellCanvas, CellDraw};
use crate::form::model::{
    bar_start, entry_of, mnemonic_mark, mnemonic_text, parse_mnemonic, ButtonKind, ChoiceOption,
    ClusterItem, ClusterStyle, Field, FieldKind, FormState, Popup,
};
use crate::geom::{sat_sub, Point, Rect, Size};
use crate::layer::{Layer, LayerCell};
use crate::text::{chars_of, decimal, push_char, push_decimal, push_repeat, string_of};

verus! {

/// Attributes for the accelerator letter in a label.
///
/// Two of them, because a hotkey has to stay legible on both backgrounds a
/// label is drawn on, and one attribute cannot.
#[derive(Debug, Clone, Copy, PartialEq, Eq, Structural)]
pub struct HotkeyAttrs {
    /// On an unfocused row, over `normal`.
    pub normal: u8,
    /// On the focused row, over `selected`.
    pub selected: u8,
}

/// VGA attributes for the form's parts.
#[derive(Debug, Clone, Copy)]
pub struct Theme {
    /// Frame and labels.
    pub normal: u8,
    /// The bracketed value text of an editable field — distinct from
    /// `normal` so data visually stands out from its label, CUA-style.
    pub value: u8,
    /// The focused row and the highlighted popup option.
    pub selected: u8,
    /// Read-only rows (label and value both).
    pub dim: u8,
    /// The panel title.
    pub title: u8,
    /// Caret colour, for a themed host that draws the caret itself. The
    /// renderer never reads it: the caret is reported out-of-band as a
    /// [`TextCursor`], so drawing it cannot overwrite the glyph underneath.
    pub cursor: u8,
    /// How to mark the accelerator letter in a label, or `None` to leave
    /// labels unmarked — for hosts that cannot deliver hotkeys at all.
    pub hotkey: Option<HotkeyAttrs>,
    /// The whole-value selection highlight of a selected Number field.
    pub selection: u8,
}

impl Theme {
    /// CUA convention: light grey on blue, inverted for the selection bar,
    /// bright white values and a yellow title accent.
    pub open spec fn spec_default() -> Theme {
        Theme {
            normal: 0x17,
            value: 0x1F,
            selected: 0x71,
            dim: 0x18,
            title: 0x1E,
            cursor: 0x70,
            hotkey: Some(HotkeyAttrs { normal: 0x1E, selected: 0x74 }),
            selection: 0x17,
        }
    }
}

impl Default for Theme {
    /// CUA convention: light grey on blue (0x17), inverted for the selection
    /// bar (0x71), bright white values (0x1F), a dark grey for read-only rows
    /// (0x18), a yellow title accent (0x1E), a black caret that contrasts
    /// with the selection bar (0x70), yellow accelerators — red on the bar —
    /// and a whole-value selection in the reverse of the bar (0x17).
    fn default() -> (t: Theme)
        ensures
            t == Theme::spec_default(),
    {
        Theme {
            normal: 0x17,
            value: 0x1F,
            selected: 0x71,
            dim: 0x18,
            title: 0x1E,
            cursor: 0x70,
            hotkey: Some(HotkeyAttrs { normal: 0x1E, selected: 0x74 }),
            selection: 0x17,
        }
    }
}

/// The geometry of a form's panel: how wide its two columns are.
#[derive(Debug, Clone, Copy, PartialEq, Eq, Structural)]
pub struct Layout {
    /// Width of the label column, in cells. Longer labels are truncated.
    pub label_w: u16,
    /// Width of the value column, in cells, brackets included.
    pub value_w: u16,
}

/// Narrowest a value column can usefully be: a bracket, a character, a
/// bracket, and room for the caret.
pub const MIN_VALUE_W: u16 = 4;

impl Layout {
    /// Wide enough for the labels and values a settings dialog tends to have,
    /// and narrow enough that two fit side by side on an 80-column screen.
    pub open spec fn spec_default() -> Layout {
        Layout { label_w: 14, value_w: 22 }
    }

    /// The value column's width, widened to the usable minimum.
    pub open spec fn value_cols(self) -> int {
        if self.value_w < MIN_VALUE_W {
            MIN_VALUE_W as int
        } else {
            self.value_w as int
        }
    }

    /// The panel's inner width: label, a gap, value.
    pub open spec fn spec_inner_w(self) -> int {
        self.label_w + 1 + self.value_cols()
    }

    /// The panel, frame included, is as wide as a `u16` can count.
    pub open spec fn fits(self) -> bool {
        self.spec_inner_w() + 2 <= u16::MAX
    }

    /// Visible width of a text value, inside its brackets.
    pub open spec fn spec_text_visible_w(self) -> int {
        self.value_cols() - 2
    }

    /// Column the value starts at, within the panel body.
    pub open spec fn spec_value_x(self) -> int {
        2 + self.label_w
    }

    /// The panel's inner width: label, a gap, value.
    pub fn inner_w(&self) -> (w: u16)
        requires
            self.spec_inner_w() <= u16::MAX,
        ensures
            w == self.spec_inner_w(),
    {
        let v = if self.value_w < MIN_VALUE_W {
            MIN_VALUE_W
        } else {
            self.value_w
        };
        self.label_w + 1 + v
    }

    /// Visible width of a text value, inside its brackets.
    pub fn text_visible_w(&self) -> (w: u16)
        ensures
            w == self.spec_text_visible_w(),
    {
        let v = if self.value_w < MIN_VALUE_W {
            MIN_VALUE_W
        } else {
            self.value_w
        };
        v - 2
    }

    /// Column the value starts at, within the panel body.
    fn value_x(&self) -> (x: u16)
        requires
            self.spec_value_x() <= u16::MAX,
        ensures
            x == self.spec_value_x(),
    {
        2 + self.label_w
    }
}

impl Default for Layout {
    /// 14 cells of label and 22 of value.
    fn default() -> (l: Layout)
        ensures
            l == Layout::spec_default(),
    {
        Layout { label_w: 14, value_w: 22 }
    }
}

/// `n` spaces.
pub open spec fn spaces(n: int) -> Seq<char> {
    Seq::new(n as nat, |_i: int| ' ')
}

/// `s` truncated or padded with spaces to exactly `width` chars.
pub open spec fn fitted(s: Seq<char>, width: int) -> Seq<char> {
    if s.len() >= width {
        s.take(width)
    } else {
        s + spaces(width - s.len())
    }
}

/// `s` padded with spaces to at least `width` chars, as `{:<width}` does.
pub open spec fn padded(s: Seq<char>, width: int) -> Seq<char> {
    if s.len() < width {
        s + spaces(width - s.len())
    } else {
        s
    }
}

/// Up to `width` chars of `s` starting at char `first`.
pub open spec fn window(s: Seq<char>, first: int, width: int) -> Seq<char> {
    if first >= s.len() {
        Seq::empty()
    } else if first + width <= s.len() {
        s.subrange(first, first + width)
    } else {
        s.subrange(first, s.len() as int)
    }
}

/// First visible character of a text field whose caret is at `cursor`.
pub open spec fn spec_text_scroll(cursor: int, layout: Layout) -> int {
    if cursor > layout.spec_text_visible_w() - 1 {
        cursor - (layout.spec_text_visible_w() - 1)
    } else {
        0
    }
}

/// First visible character of a text field, derived from the caret alone.
///
/// Stateless on purpose: keeping a `first_visible` in the model would be a
/// second source of truth that has to be nudged back into agreement with the
/// caret on every edit. Deriving it means the two cannot disagree.
pub fn text_scroll(cursor: usize, layout: Layout) -> (first: usize)
    ensures
        first == spec_text_scroll(cursor as int, layout),
{
    cursor.saturating_sub(layout.text_visible_w() as usize - 1)
}

/// Truncate-or-pad `s` to exactly `width` chars.
///
/// Operates on chars, not bytes: one char in, one cell out.
fn fit(s: &str, width: usize) -> (out: String)
    ensures
        out@ == fitted(s@, width as int),
{
    let chars = chars_of(s);
    let n = chars.len();
    if n >= width {
        string_of(&chars, 0, width)
    } else {
        let mut out = string_of(&chars, 0, n);
        assert(chars@.subrange(0, n as int) =~= s@);
        push_repeat(&mut out, ' ', width - n);
        out
    }
}

/// The text a field shows as its value.
pub open spec fn value_text_of<A>(f: Field<A>) -> Seq<char> {
    match f.kind {
        FieldKind::Choice { options, selected } => match selected {
            Some(i) => if i < options@.len() {
                options@[i as int].label@
            } else {
                seq!['\u{2014}']
            },
            None => seq!['\u{2014}'],
        },
        FieldKind::Number { value, buffer, unit, .. } => if buffer@.len() == 0 {
            decimal(value as nat) + unit@
        } else {
            buffer@ + unit@
        },
        FieldKind::Text { buffer, .. } => buffer@,
        FieldKind::Toggle { on, .. } => if on {
            seq!['Y', 'e', 's']
        } else {
            seq!['N', 'o']
        },
        FieldKind::ReadOnly(s) => s@,
        FieldKind::Button(k) => k.spec_label(),
        // A cluster draws its own rows rather than a value column.
        FieldKind::Cluster { .. } => Seq::empty(),
    }
}

/// The text a field shows as its value: the chosen option (an em dash when
/// unset), a number with its unit, the text, `Yes`/`No`, or a button's label.
fn value_text<A>(field: &Field<A>) -> (s: String)
    ensures
        s@ == value_text_of(*field),
{
    match &field.kind {
        FieldKind::Choice { options, selected } => {
            match selected {
                Some(i) => {
                    if *i < options.len() {
                        return options[*i].label.clone();
                    }
                },
                None => {},
            }
            let mut s = String::new();
            push_char(&mut s, '\u{2014}');
            assert(s@ =~= seq!['\u{2014}']);
            s
        },
        FieldKind::Number { value, buffer, unit, .. } => {
            let mut s = String::new();
            if buffer.as_str().unicode_len() == 0 {
                push_decimal(&mut s, *value);
            } else {
                s.append(buffer.as_str());
            }
            s.append(unit);
            assert(s@ =~= value_text_of(*field));
            s
        },
        FieldKind::Text { buffer, .. } => buffer.clone(),
        FieldKind::Cluster { .. } => String::new(),
        FieldKind::Toggle { on, .. } => {
            let lit = if *on {
                "Yes"
            } else {
                "No"
            };
            proof {
                reveal_strlit("Yes");
                reveal_strlit("No");
            }
            let s = String::from_str(lit);
            assert(s@ =~= value_text_of(*field));
            s
        },
        FieldKind::ReadOnly(s) => s.clone(),
        FieldKind::Button(k) => String::from_str(k.label()),
    }
}

/// What the value column of a non-button field reads.
///
/// Bracketed and padded to the column for every editable kind, so the
/// closing bracket lines up down the panel; unbracketed (but still fitted to
/// the column) for `ReadOnly`, whose absence of chrome marks it
/// non-editable. A number shows a fixed four-digit slot plus a caret slot,
/// then its unit and range; a focused, emptied number shows empty rather
/// than its stale committed value. Text shows the window that keeps its
/// caret in view.
pub open spec fn value_column_of<A>(f: Field<A>, focused: bool, layout: Layout) -> Seq<char> {
    let visible = layout.spec_text_visible_w();
    match f.kind {
        FieldKind::ReadOnly(_) => fitted(value_text_of(f), layout.value_w as int),
        FieldKind::Number { value, buffer, unit, min, max, .. } => {
            let digits = if buffer@.len() == 0 && !focused {
                decimal(value as nat)
            } else {
                buffer@
            };
            fitted(number_column_of(digits, unit@, min, max), layout.value_w as int)
        },
        FieldKind::Text { buffer, cursor, .. } => seq!['['] + fitted(
            window(buffer@, spec_text_scroll(cursor as int, layout), visible),
            visible,
        ) + seq![']'],
        _ => seq!['['] + fitted(value_text_of(f), visible) + seq![']'],
    }
}

/// A number's value column before fitting: `[digits ]unit (min-max)`, the
/// digits padded to a four-wide slot.
pub open spec fn number_column_of(digits: Seq<char>, unit: Seq<char>, min: u32, max: u32) -> Seq<char> {
    seq!['['] + padded(digits, 4) + seq![' ', ']'] + unit + seq![' ', '('] + decimal(min as nat)
        + seq!['-'] + decimal(max as nat) + seq![')']
}

fn number_column(digits: &str, unit: &str, min: u32, max: u32) -> (s: String)
    ensures
        s@ == number_column_of(digits@, unit@, min, max),
{
    let mut s = String::new();
    push_char(&mut s, '[');
    s.append(digits);
    let dlen = digits.unicode_len();
    if dlen < 4 {
        push_repeat(&mut s, ' ', 4 - dlen);
    }
    assert(s@ =~= seq!['['] + padded(digits@, 4));
    push_char(&mut s, ' ');
    push_char(&mut s, ']');
    s.append(unit);
    push_char(&mut s, ' ');
    push_char(&mut s, '(');
    push_decimal(&mut s, min);
    push_char(&mut s, '-');
    push_decimal(&mut s, max);
    push_char(&mut s, ')');
    assert(s@ =~= number_column_of(digits@, unit@, min, max));
    s
}

/// The part of a text field's buffer on show, bracketed.
fn text_column(buffer: &str, cursor: usize, layout: Layout) -> (s: String)
    ensures
        s@ == seq!['['] + fitted(
            window(buffer@, spec_text_scroll(cursor as int, layout), layout.spec_text_visible_w()),
            layout.spec_text_visible_w(),
        ) + seq![']'],
{
    let visible = layout.text_visible_w() as usize;
    let first = text_scroll(cursor, layout);
    let chars = chars_of(buffer);
    let n = chars.len();
    let win = if first >= n {
        String::new()
    } else if visible <= n - first {
        string_of(&chars, first, first + visible)
    } else {
        string_of(&chars, first, n)
    };
    assert(win@ == window(buffer@, first as int, visible as int));
    let mut s = String::new();
    push_char(&mut s, '[');
    let inner = fit(win.as_str(), visible);
    s.append(inner.as_str());
    push_char(&mut s, ']');
    assert(s@ =~= seq!['['] + inner@ + seq![']']);
    s
}

/// The value column for a non-button field; see [`value_column_of`].
///
/// Truncating here — rather than relying on `write_str`'s canvas-edge
/// truncation — is what keeps an oversized value from overwriting the right
/// border.
fn value_column<A>(field: &Field<A>, focused: bool, layout: Layout) -> (s: String)
    ensures
        s@ == value_column_of(*field, focused, layout),
{
    match &field.kind {
        FieldKind::ReadOnly(_) => {
            let v = value_text(field);
            fit(v.as_str(), layout.value_w as usize)
        },
        FieldKind::Number { value, buffer, unit, min, max, .. } => {
            // A focused, emptied buffer must render as genuinely empty, not
            // fall back to the stale committed value.
            let s = if buffer.as_str().unicode_len() == 0 && !focused {
                let d = crate::text::decimal_string(*value);
                number_column(d.as_str(), unit, *min, *max)
            } else {
                number_column(buffer.as_str(), unit, *min, *max)
            };
            fit(s.as_str(), layout.value_w as usize)
        },
        FieldKind::Text { buffer, cursor, .. } => text_column(buffer.as_str(), *cursor, layout),
        _ => {
            let visible = layout.text_visible_w() as usize;
            let v = value_text(field);
            let mut s = String::new();
            push_char(&mut s, '[');
            let inner = fit(v.as_str(), visible);
            s.append(inner.as_str());
            push_char(&mut s, ']');
            assert(s@ =~= seq!['['] + inner@ + seq![']']);
            s
        },
    }
}

/// Minimum inner width (excluding the brackets) of a button's chrome, so a
/// short label like "OK" still reads as a button rather than a bare word in
/// brackets. Longer labels just get their usual 1-cell padding.
pub const BUTTON_MIN_INNER: u16 = 6;

/// Gap between adjacent buttons on a shared row.
pub const BUTTON_GAP: u16 = 4;

/// Cells between a button's label and its brackets, on the left and on the
/// right: one each side, widened to meet [`BUTTON_MIN_INNER`].
pub open spec fn chrome_pads(len: int) -> (int, int) {
    let inner = if len + 2 > BUTTON_MIN_INNER {
        len + 2
    } else {
        BUTTON_MIN_INNER as int
    };
    let pad = inner - len;
    (pad / 2, pad - pad / 2)
}

/// A button's chrome, e.g. `[  OK  ]` or `[ Cancel ]`.
pub open spec fn chrome_of(label: Seq<char>) -> Seq<char> {
    let (left, right) = chrome_pads(label.len() as int);
    seq!['['] + spaces(left) + label + spaces(right) + seq![']']
}

/// A button's chrome, with guillemets in place of the brackets on the
/// default button — the one Enter presses.
pub open spec fn chrome_with_of(label: Seq<char>, is_default: bool) -> Seq<char> {
    let s = chrome_of(label);
    if is_default {
        s.update(0, '\u{00AB}').update(s.len() - 1, '\u{00BB}')
    } else {
        s
    }
}

/// Render one button's chrome, e.g. `[  OK  ]` or `[ Cancel ]`.
fn button_chrome(label: &str) -> (s: String)
    requires
        label@.len() + 2 <= u16::MAX,
    ensures
        s@ == chrome_of(label@),
{
    let len = label.unicode_len() as u16;
    let inner_w = if len + 2 > BUTTON_MIN_INNER {
        len + 2
    } else {
        BUTTON_MIN_INNER
    };
    let pad = inner_w - len;
    let left = pad / 2;
    let right = pad - left;
    let mut s = String::new();
    push_char(&mut s, '[');
    push_repeat(&mut s, ' ', left as usize);
    s.append(label);
    push_repeat(&mut s, ' ', right as usize);
    push_char(&mut s, ']');
    assert(s@ =~= chrome_of(label@));
    s
}

/// A button's chrome, marked as the default button when `is_default`:
/// CP437 guillemets replace the brackets, at the same width, so nothing
/// shifts.
fn button_chrome_with(label: &str, is_default: bool) -> (s: String)
    requires
        label@.len() + 2 <= u16::MAX,
    ensures
        s@ == chrome_with_of(label@, is_default),
{
    let s = button_chrome(label);
    if is_default {
        let mut chars = chars_of(s.as_str());
        let n = chars.len();
        chars.set(0, '\u{00AB}');
        chars.set(n - 1, '\u{00BB}');
        let out = string_of(&chars, 0, n);
        assert(out@ =~= chrome_with_of(label@, is_default));
        out
    } else {
        s
    }
}

/// The text a label draws in a column `width` cells wide: markers
/// stripped, truncated to the column.
pub open spec fn label_text(label: Seq<char>, width: int) -> Seq<char> {
    let t = mnemonic_text(label);
    if t.len() > width {
        t.take(width)
    } else {
        t
    }
}

/// The column, relative to the label's start, that carries the hotkey
/// attribute: the accelerator's position, if the label marks one, a hotkey
/// attribute is given, and the accelerator survived truncation.
pub open spec fn hot_column(label: Seq<char>, width: int, hotkey_attr: Option<u8>) -> Option<int> {
    match (mnemonic_mark(label), hotkey_attr) {
        (Some((_, idx)), Some(_)) => if idx < label_text(label, width).len() {
            Some(idx as int)
        } else {
            None
        },
        _ => None,
    }
}

/// Write a label, stripping `~X~` markers and marking the accelerator.
///
/// The marker characters never occupy a cell, so a label's rendered width is
/// its text width whether or not it claims an accelerator. The label is
/// truncated to `width` rather than running into the column beside it.
fn write_label<C: CellDraw>(
    canvas: &mut C,
    at: Point,
    label: &str,
    attr: u8,
    hotkey_attr: Option<u8>,
    width: u16,
)
    requires
        old(canvas).canvas_ok(),
    ensures
        final(canvas).canvas_ok(),
        final(canvas).canvas_size() == old(canvas).canvas_size(),
        final(canvas).canvas_origin() == old(canvas).canvas_origin(),
        ({
            let text = label_text(label@, width as int);
            let n = write_count(old(canvas).canvas_size(), at, text.len());
            let hot = hot_column(label@, width as int, hotkey_attr);
            forall|px: int, py: int|
                #![trigger final(canvas).content_at(px, py)]
                final(canvas).content_at(px, py) == if py == at.y && at.x <= px < at.x + n {
                    LayerCell::Opaque(
                        Cell {
                            ch: fold_char(text[px - at.x]),
                            attr: if hot == Some(px - at.x) {
                                hotkey_attr->0
                            } else {
                                attr
                            },
                        },
                    )
                } else {
                    old(canvas).content_at(px, py)
                }
        }),
{
    let (full, mark) = parse_mnemonic(label);
    let chars = chars_of(full.as_str());
    let keep = if chars.len() > width as usize {
        width as usize
    } else {
        chars.len()
    };
    let text = string_of(&chars, 0, keep);
    proof {
        assert(text@ =~= label_text(label@, width as int));
    }
    let ghost size = canvas.canvas_size();
    let ghost n = write_count(size, at, text@.len());
    canvas.write_str(at, text.as_str(), attr);
    if let (Some((_, idx)), Some(hot)) = (mark, hotkey_attr) {
        if idx < keep {
            // Repaint just the one cell, so the accelerator picks up its own
            // attribute without the label being drawn twice.
            let x = at.x.saturating_add(idx as u16);
            canvas.put(x, at.y, Cell { ch: fold(chars[idx]), attr: hot });
        }
    }
}

/// `l` is the drop shadow of `r` on `screen`: a solid `Shade` rect the size
/// of `r`, one cell right and one down, clamped so it never leaves the screen.
pub open spec fn shadows(l: Layer, r: Rect, screen: Size) -> bool {
    &&& l.origin_of().x == if r.origin.x + 1 < screen.w {
        r.origin.x + 1
    } else {
        screen.w as int
    }
    &&& l.origin_of().y == if r.origin.y + 1 < screen.h {
        r.origin.y + 1
    } else {
        screen.h as int
    }
    &&& l.size_of().w == if r.size.w <= screen.w - l.origin_of().x {
        r.size.w as int
    } else {
        screen.w - l.origin_of().x
    }
    &&& l.size_of().h == if r.size.h <= screen.h - l.origin_of().y {
        r.size.h as int
    } else {
        screen.h - l.origin_of().y
    }
    &&& forall|x: int, y: int|
        #![trigger l.cell_at(x, y)]
        l.cell_at(x, y) == if 0 <= x < l.size_of().w && 0 <= y < l.size_of().h {
            LayerCell::Shade
        } else {
            LayerCell::Transparent
        }
}

/// A solid `Shade` layer covering `r`, offset one cell right and down,
/// clamped so that it never leaves the screen.
///
/// Deliberately solid, not L-shaped: the panel is pushed after this and
/// overwrites the overlapping cells opaquely, so the visible result is the
/// usual CUA L.
fn shadow_layer(r: Rect, screen: Size) -> (l: Layer)
    requires
        r.origin.x < u16::MAX,
        r.origin.y < u16::MAX,
    ensures
        l.wf(),
        shadows(l, r, screen),
        l.origin_of().x + l.size_of().w <= screen.w,
        l.origin_of().y + l.size_of().h <= screen.h,
{
    // Clamp the offset origin itself, not just the width and height: on a
    // screen too small to hold `r`, `r.top() + 1` can already be past the
    // edge.
    let x = if r.left() + 1 < screen.w {
        r.left() + 1
    } else {
        screen.w
    };
    let y = if r.top() + 1 < screen.h {
        r.top() + 1
    } else {
        screen.h
    };
    let w = if r.size.w <= screen.w - x {
        r.size.w
    } else {
        screen.w - x
    };
    let h = if r.size.h <= screen.h - y {
        r.size.h
    } else {
        screen.h - y
    };
    let mut layer = Layer::new(Point::new(x, y), Size::new(w, h));
    let local = layer.local_bounds();
    layer.fill(local, LayerCell::Shade);
    layer
}

/// The rect of `size` centred on `screen`, shrunk to fit it.
pub open spec fn centred_rect(size: Size, screen: Size) -> Rect {
    let w = if size.w <= screen.w {
        size.w
    } else {
        screen.w
    };
    let h = if size.h <= screen.h {
        size.h
    } else {
        screen.h
    };
    Rect::mk(((screen.w - w) / 2) as u16, ((screen.h - h) / 2) as u16, w, h)
}

/// Centre a rect of `size` on `screen`, clamped so it never goes off the
/// left or top edge (coordinates are unsigned).
fn centred(size: Size, screen: Size) -> (r: Rect)
    ensures
        r == centred_rect(size, screen),
        r.origin.x + r.size.w <= screen.w,
        r.origin.y + r.size.h <= screen.h,
{
    let w = if size.w <= screen.w {
        size.w
    } else {
        screen.w
    };
    let h = if size.h <= screen.h {
        size.h
    } else {
        screen.h
    };
    let x = (screen.w - w) / 2;
    let y = (screen.h - h) / 2;
    Rect::new(x, y, w, h)
}

/// Index of the first field in the trailing run of buttons, or the field
/// count if there is none.
///
/// Only a *trailing* run collapses onto a shared row, so a button in the
/// middle of the field list would still get its own row.
fn button_run_start<A>(fields: &[Field<A>]) -> (bs: usize)
    ensures
        bs == bar_start(fields@),
        bs <= fields@.len(),
{
    let n = fields.len();
    let mut k = n;
    while k > 0 && is_button_field(&fields[k - 1])
        invariant
            k <= n,
            n == fields@.len(),
            crate::form::model::run_start(fields@, n as int) == crate::form::model::run_start(
                fields@,
                k as int,
            ),
        decreases k,
    {
        k = k - 1;
    }
    k
}

fn is_button_field<A>(f: &Field<A>) -> (b: bool)
    ensures
        b == f.kind is Button,
{
    match f.kind {
        FieldKind::Button(_) => true,
        _ => false,
    }
}

/// Where the scrollbar's thumb sits, in rows below the up arrow: by the
/// proportion of the way `first` is through the possible scroll offsets,
/// never below the track's last row.
pub open spec fn thumb_row(visible: int, total: int, first: int) -> int {
    let inner_h = visible % 0x1_0000 - 2;
    let span = if inner_h >= 1 {
        inner_h - 1
    } else {
        0
    };
    let max_first = total - visible;
    let t = if max_first == 0 {
        0
    } else {
        (first * span / max_first) % 0x1_0000
    };
    if t < inner_h - 1 {
        t
    } else {
        inner_h - 1
    }
}

/// The glyph the scrollbar puts at row `y` of its column, if any: arrows at
/// the ends, a medium-shade track between them and a solid thumb on it.
/// Nothing when the whole list fits. The bar is `visible` rows tall as a
/// `u16` counts it, so a count past `u16::MAX` wraps.
pub open spec fn scrollbar_glyph(visible: int, total: int, first: int, y: int) -> Option<u8> {
    let track_h = visible % 0x1_0000;
    if total <= visible || visible == 0 {
        None
    } else if y == track_h {
        Some(0x1Fu8)
    } else if y == 1 {
        Some(0x1Eu8)
    } else if track_h >= 3 && 2 <= y < track_h {
        if y == 2 + thumb_row(visible, total, first) {
            Some(0xDBu8)
        } else {
            Some(0xB1u8)
        }
    } else {
        None
    }
}

/// Draw a vertical scrollbar in column `x` of the list.
///
/// Nothing is drawn when the whole list fits: a bar that is always full says
/// only that there is nothing to scroll. The thumb is placed by proportion
/// and always occupies one cell, so a very long list still shows where it is.
fn draw_scrollbar(list: &mut Layer, x: u16, visible: usize, total: usize, first: usize, theme: Theme)
    requires
        old(list).wf(),
    ensures
        final(list).wf(),
        final(list).origin_of() == old(list).origin_of(),
        final(list).size_of() == old(list).size_of(),
        forall|px: int, py: int|
            #![trigger final(list).cell_at(px, py)]
            final(list).cell_at(px, py) == if px == x && 0 <= py < old(list).size_of().h
                && x < old(list).size_of().w && scrollbar_glyph(
                visible as int,
                total as int,
                first as int,
                py,
            ) is Some {
                LayerCell::Opaque(
                    Cell {
                        ch: scrollbar_glyph(visible as int, total as int, first as int, py)->0,
                        attr: theme.normal,
                    },
                )
            } else {
                old(list).cell_at(px, py)
            },
{
    if total <= visible || visible == 0 {
        return;
    }
    let track_h = visible as u16;
    assert(track_h == visible % 0x1_0000) by (bit_vector)
        requires
            track_h == visible as u16,
    ;
    // Arrow caps sit on the frame corners' inner neighbours.
    list.set(x, 1, LayerCell::Opaque(Cell { ch: 0x1E, attr: theme.normal }));
    list.set(x, track_h, LayerCell::Opaque(Cell { ch: 0x1F, attr: theme.normal }));
    // The track between the caps, if there is any room for one.
    if track_h < 3 {
        return;
    }
    let inner_h = track_h - 2;
    let ghost capped = *list;
    let mut row: u16 = 0;
    while row < inner_h
        invariant
            row <= inner_h,
            inner_h == track_h - 2,
            track_h == visible % 0x1_0000,
            3 <= track_h,
            list.wf(),
            list.origin_of() == old(list).origin_of(),
            list.size_of() == old(list).size_of(),
            forall|px: int, py: int|
                #![trigger list.cell_at(px, py)]
                list.cell_at(px, py) == if px == x && 2 <= py < 2 + row && x < old(list).size_of().w
                    && py < old(list).size_of().h {
                    LayerCell::Opaque(Cell { ch: 0xB1, attr: theme.normal })
                } else {
                    capped.cell_at(px, py)
                },
        decreases inner_h - row,
    {
        // Medium shade, not light: the desktop behind a popup is filled with
        // light shade, and a track in the same glyph reads as a hole.
        list.set(x, 2 + row, LayerCell::Opaque(Cell { ch: 0xB1, attr: theme.normal }));
        row = row + 1;
    }
    // Thumb position by proportion of how far `first` is through the range
    // of possible scroll offsets.
    let max_first = total - visible;
    let span: u16 = if inner_h >= 1 {
        inner_h - 1
    } else {
        0
    };
    assert((first as u128) * (span as u128) <= 0xffff_ffff_ffff_ffffu128 * 0xffffu128) by (nonlinear_arith)
        requires
            first <= 0xffff_ffff_ffff_ffffu64,
            span <= 0xffff,
    ;
    let t: u16 = ((first as u128 * span as u128) / max_first as u128 % 0x1_0000) as u16;
    let thumb = if t < inner_h - 1 {
        t
    } else {
        inner_h - 1
    };
    list.set(x, 2 + thumb, LayerCell::Opaque(Cell { ch: 0xDB, attr: theme.normal }));
}

/// Every field from `bar_start` on is a button.
proof fn lemma_bar_is_buttons<A>(fs: Seq<Field<A>>, k: int, j: int)
    requires
        0 <= k <= fs.len(),
        crate::form::model::run_start(fs, k) <= j < k,
    ensures
        fs[j].kind is Button,
    decreases k,
{
    if 0 < k && fs[k - 1].kind is Button && j < k - 1 {
        lemma_bar_is_buttons(fs, k - 1, j);
    }
}

/// The button bar starts within the field list.
pub proof fn lemma_bar_start_bounds<A>(fs: Seq<Field<A>>, k: int)
    requires
        0 <= k <= fs.len(),
    ensures
        0 <= crate::form::model::run_start(fs, k) <= k,
    decreases k,
{
    if 0 < k && fs[k - 1].kind is Button {
        lemma_bar_start_bounds(fs, k - 1);
    }
}

/// Rows a field takes on the panel: one per item for a cluster (at least
/// one), one for anything else.
pub open spec fn rows_of<A>(f: Field<A>) -> int {
    match f.kind {
        FieldKind::Cluster { items, .. } => if items@.len() > 1 {
            items@.len() as int
        } else {
            1
        },
        _ => 1,
    }
}

/// The body row offset of field `i`: the rows the fields before it take.
pub open spec fn row_offset<A>(fs: Seq<Field<A>>, i: int) -> int
    decreases i,
{
    if i <= 0 {
        0
    } else {
        row_offset(fs, i - 1) + rows_of(fs[i - 1])
    }
}

/// Row offsets grow with the index, by at least one row per field.
pub proof fn lemma_row_offset_grows<A>(fs: Seq<Field<A>>, a: int, b: int)
    requires
        0 <= a <= b,
    ensures
        row_offset(fs, a) + (b - a) <= row_offset(fs, b),
        row_offset(fs, a) >= a,
    decreases b,
{
    if b > a {
        lemma_row_offset_grows(fs, a, b - 1);
    } else if a > 0 {
        lemma_row_offset_grows(fs, a - 1, a - 1);
    }
}

/// Rows the panel needs: the fields' rows above the button bar, a separator
/// and the bar itself when there are buttons, and the frame.
pub open spec fn panel_rows<A>(fs: Seq<Field<A>>) -> int {
    let bs = bar_start(fs);
    row_offset(fs, bs) + (if bs < fs.len() {
        2int
    } else {
        0int
    }) + 2
}

/// The panel's rect: centred on the screen, as wide as the layout and as
/// tall as the fields need, shrunk to fit.
pub open spec fn panel_rect<A>(fs: Seq<Field<A>>, screen: Size, layout: Layout) -> Rect {
    centred_rect(
        Size { w: (layout.spec_inner_w() + 2) as u16, h: panel_rows(fs) as u16 },
        screen,
    )
}

/// Cells a button's chrome takes.
pub open spec fn chrome_width(k: ButtonKind) -> int {
    chrome_of(k.spec_label()).len() as int
}

/// Cells the chromes of fields `from..to` take, buttons only.
pub open spec fn chrome_sum<A>(fs: Seq<Field<A>>, from: int, to: int) -> int
    decreases to - from,
{
    if to <= from {
        0
    } else {
        chrome_sum(fs, from, to - 1) + match fs[to - 1].kind {
            FieldKind::Button(k) => chrome_width(k),
            _ => 0,
        }
    }
}

proof fn lemma_chrome_sum_grows<A>(fs: Seq<Field<A>>, from: int, a: int, b: int)
    requires
        from <= a <= b,
    ensures
        0 <= chrome_sum(fs, from, a) <= chrome_sum(fs, from, b),
    decreases b - a,
{
    if a < b {
        lemma_chrome_sum_grows(fs, from, a, b - 1);
    }
    lemma_chrome_sum_nonneg(fs, from, a);
}

proof fn lemma_chrome_sum_nonneg<A>(fs: Seq<Field<A>>, from: int, to: int)
    ensures
        0 <= chrome_sum(fs, from, to),
    decreases to - from,
{
    if to > from {
        lemma_chrome_sum_nonneg(fs, from, to - 1);
    }
}

/// Cells the button bar takes: every chrome, and a gap between neighbours.
pub open spec fn bar_width<A>(fs: Seq<Field<A>>) -> int {
    let bs = bar_start(fs);
    chrome_sum(fs, bs, fs.len() as int) + if bs < fs.len() {
        BUTTON_GAP * (fs.len() - bs - 1)
    } else {
        0
    }
}

/// The caret the renderer reports: on the focused entry field above the
/// button bar when its value is not whole-selected, at the caret's column
/// inside the brackets (a text field's window scrolled to keep it in view),
/// shaped by insert/overtype mode.
pub open spec fn cursor_of<A>(state: FormState<A>, screen: Size, layout: Layout) -> Option<TextCursor> {
    let fs = state.fields_of();
    let f = state.focus_of() as int;
    let panel = panel_rect(fs, screen, layout);
    let col0 = panel.origin.x + layout.spec_value_x() + 1;
    let row = (panel.origin.y + row_offset(fs, f) + 1) as u16;
    if 0 <= f < bar_start(fs) {
        match fs[f].kind {
            FieldKind::Number { cursor, selected, overtype, .. } => if selected {
                None
            } else {
                Some(
                    TextCursor {
                        col: (col0 + (cursor as u16)) as u16,
                        row,
                        shape: if overtype {
                            CursorShape::Overtype
                        } else {
                            CursorShape::Insert
                        },
                    },
                )
            },
            FieldKind::Text { cursor, selected, overtype, .. } => if selected {
                None
            } else {
                Some(
                    TextCursor {
                        col: (col0 + cursor - spec_text_scroll(cursor as int, layout)) as u16,
                        row,
                        shape: if overtype {
                            CursorShape::Overtype
                        } else {
                            CursorShape::Insert
                        },
                    },
                )
            },
            _ => None,
        }
    } else {
        None
    }
}

/// The top row of a popup hung below the field on body row `offset + 1`,
/// pulled back onto the screen.
pub open spec fn popup_top(panel: Rect, offset: int, screen: Size) -> int {
    let want = panel.origin.y + offset + 2;
    let limit = if screen.h >= 3 {
        screen.h - 3
    } else {
        0
    };
    if want < limit {
        want
    } else {
        limit
    }
}

/// Whether an open popup gets drawn: it must sit on a choice field with
/// options, and the screen must leave room under it for a frame and one row.
pub open spec fn popup_drawn<A>(state: FormState<A>, screen: Size, layout: Layout) -> bool {
    let fs = state.fields_of();
    match state.popup_of() {
        None => false,
        Some(p) => p.field < fs.len() && match fs[p.field as int].kind {
            FieldKind::Choice { options, .. } => options@.len() > 0 && screen.h - popup_top(
                panel_rect(fs, screen, layout),
                row_offset(fs, p.field as int),
                screen,
            ) - 1 >= 3,
            _ => false,
        },
    }
}

/// The states the renderer draws without arithmetic overflow: the panel and
/// its button bar are measurable in `u16`, an open popup sits on a field
/// that exists, and a focused number's digits and caret land on columns a
/// `u16` can name.
pub open spec fn renders<A>(state: FormState<A>, screen: Size, layout: Layout) -> bool {
    let fs = state.fields_of();
    let f = state.focus_of() as int;
    let panel = panel_rect(fs, screen, layout);
    &&& layout.fits()
    &&& panel_rows(fs) <= u16::MAX
    &&& bar_width(fs) <= u16::MAX
    &&& state.popup_of() matches Some(p) ==> p.field < fs.len()
    &&& 0 <= f < bar_start(fs) ==> match fs[f].kind {
        FieldKind::Number { buffer, cursor, selected, .. } => if selected {
            layout.spec_value_x() + vstd::utf8::encode_utf8(buffer@).len() <= u16::MAX
        } else {
            panel.origin.x + layout.spec_value_x() + 1 + (cursor as u16) <= u16::MAX
        },
        _ => true,
    }
}

/// Every layer lies on the screen, bottom edge always and right edge on any
/// screen at least three cells wide.
pub open spec fn on_screen(layers: Seq<Layer>, screen: Size) -> bool {
    forall|i: int|
        0 <= i < layers.len() ==> {
            &&& (#[trigger] layers[i]).wf()
            &&& layers[i].origin_of().y + layers[i].size_of().h <= screen.h
            &&& screen.w >= 3 ==> layers[i].origin_of().x + layers[i].size_of().w <= screen.w
        }
}

/// The options of the choice field the open popup belongs to.
pub open spec fn popup_opts<A>(state: FormState<A>) -> Seq<ChoiceOption<A>> {
    match state.fields_of()[state.popup_of()->0.field as int].kind {
        FieldKind::Choice { options, .. } => options@,
        _ => Seq::empty(),
    }
}

/// The longest UTF-8 length among the first `k` option labels.
pub open spec fn widest_label<A>(opts: Seq<ChoiceOption<A>>, k: int) -> int
    decreases k,
{
    if k <= 0 {
        0
    } else {
        let len = vstd::utf8::encode_utf8(opts[k - 1].label@).len() as usize as int;
        let rest = widest_label(opts, k - 1);
        if len > rest {
            len
        } else {
            rest
        }
    }
}

/// Width of the popup's option column: the widest label (at least four),
/// but never wider than the screen allows.
pub open spec fn popup_label_w<A>(state: FormState<A>, screen: Size) -> int {
    let opts = popup_opts(state);
    let widest = (widest_label(opts, opts.len() as int) as usize) as u16;
    let floor = if widest > 4 {
        widest as int
    } else {
        4
    };
    let room = if screen.w >= 5 {
        screen.w - 5
    } else {
        0
    };
    if floor < room {
        floor
    } else {
        room
    }
}

/// How many options the popup shows at once: all of them, or as many as fit
/// between its frame lines above the screen's last row.
pub open spec fn popup_visible<A>(state: FormState<A>, screen: Size, layout: Layout) -> int {
    let fs = state.fields_of();
    let y = popup_top(
        panel_rect(fs, screen, layout),
        row_offset(fs, state.popup_of()->0.field as int),
        screen,
    );
    let max_rows = screen.h - y - 1;
    let len = popup_opts(state).len() as int;
    if len < max_rows - 2 {
        len
    } else {
        max_rows - 2
    }
}

/// Whether the popup needs a scrollbar: some options do not fit.
pub open spec fn popup_bar<A>(state: FormState<A>, screen: Size, layout: Layout) -> bool {
    popup_opts(state).len() > popup_visible(state, screen, layout)
}

/// The first option the popup shows, scrolled so the highlight is visible.
pub open spec fn popup_first<A>(state: FormState<A>, screen: Size, layout: Layout) -> int {
    let h = state.popup_of()->0.highlight as int;
    let v = popup_visible(state, screen, layout);
    if h >= v - 1 {
        h - (v - 1)
    } else {
        0
    }
}

/// How many option rows the popup actually fills: the visible rows, fewer
/// when the list runs out first.
pub open spec fn popup_shown<A>(state: FormState<A>, screen: Size, layout: Layout) -> int {
    let first = popup_first(state, screen, layout);
    let len = popup_opts(state).len() as int;
    let v = popup_visible(state, screen, layout);
    if first >= len {
        0
    } else if v <= len - first {
        v
    } else {
        len - first
    }
}

/// The popup list's rect: under its field, at the label column, pulled
/// back onto the screen; one column wider when it carries a scrollbar.
pub open spec fn popup_rect<A>(state: FormState<A>, screen: Size, layout: Layout) -> Rect {
    let panel = panel_rect(state.fields_of(), screen, layout);
    let w = popup_label_w(state, screen) + 2 + if popup_bar(state, screen, layout) {
        1int
    } else {
        0int
    };
    let h = popup_visible(state, screen, layout) + 2;
    let anchor = panel.origin.x + layout.label_w;
    let fit_x = if screen.w >= w {
        screen.w - w
    } else {
        0
    };
    Rect::mk(
        (if anchor < fit_x {
            anchor
        } else {
            fit_x
        }) as u16,
        popup_top(
            panel,
            row_offset(state.fields_of(), state.popup_of()->0.field as int),
            screen,
        ) as u16,
        w as u16,
        h as u16,
    )
}

/// What the popup list holds at `(x, y)` once its frame and the first
/// `done` option rows are drawn and, when `bar`, its scrollbar: a single
/// frame; each shown option on its own row, the highlighted one in the
/// selected attribute; the scrollbar one column in from the right border.
pub open spec fn list_cell_upto<A>(
    state: FormState<A>,
    screen: Size,
    theme: Theme,
    layout: Layout,
    done: int,
    bar: bool,
    x: int,
    y: int,
) -> LayerCell {
    let r = popup_rect(state, screen, layout);
    let w = r.size.w;
    let h = r.size.h;
    if !(0 <= x < w && 0 <= y < h) {
        LayerCell::Transparent
    } else {
        let opts = popup_opts(state);
        let first = popup_first(state, screen, layout);
        let idx = first + y - 1;
        let attr = if idx == state.popup_of()->0.highlight {
            theme.selected
        } else {
            theme.normal
        };
        let frame = match box_glyph(Rect::mk(0, 0, w, h), BoxChars::spec_single(), x, y) {
            Some(g) => Cell { ch: g, attr: theme.normal },
            None => Cell { ch: 32, attr: theme.normal },
        };
        let row = if 1 <= y <= done {
            match text_cell(opts[idx].label@, 1, w as int, x, attr) {
                Some(c) => Some(c),
                None => if 1 <= x < 1 + popup_label_w(state, screen) {
                    Some(Cell { ch: 32, attr })
                } else {
                    None
                },
            }
        } else {
            None
        };
        let glyph = if bar && x == w - 2 {
            scrollbar_glyph(
                popup_visible(state, screen, layout),
                opts.len() as int,
                first,
                y,
            )
        } else {
            None
        };
        LayerCell::Opaque(
            match glyph {
                Some(g) => Cell { ch: g, attr: theme.normal },
                None => match row {
                    Some(c) => c,
                    None => frame,
                },
            },
        )
    }
}

/// What the popup list holds at `(x, y)`; see [`list_cell_upto`].
pub open spec fn list_cell<A>(state: FormState<A>, screen: Size, theme: Theme, layout: Layout, x: int, y: int) -> LayerCell {
    list_cell_upto(
        state,
        screen,
        theme,
        layout,
        popup_shown(state, screen, layout),
        popup_bar(state, screen, layout),
        x,
        y,
    )
}

/// An opened choice list under its field: the list's shadow and the list.
fn push_popup<A>(
    layers: &mut Vec<Layer>,
    state: &FormState<A>,
    popup: &Popup,
    panel: Rect,
    screen: Size,
    theme: Theme,
    layout: Layout,
)
    requires
        renders(*state, screen, layout),
        state.popup_of() == Some(*popup),
        panel == panel_rect(state.fields_of(), screen, layout),
        on_screen(old(layers)@, screen),
    ensures
        final(layers)@.len() == old(layers)@.len() + if popup_drawn(*state, screen, layout) {
            2int
        } else {
            0int
        },
        final(layers)@.subrange(0, old(layers)@.len() as int) == old(layers)@,
        on_screen(final(layers)@, screen),
        popup_drawn(*state, screen, layout) ==> {
            let r = popup_rect(*state, screen, layout);
            let list = final(layers)@[old(layers)@.len() + 1int];
            &&& shadows(final(layers)@[old(layers)@.len() as int], r, screen)
            &&& list.origin_of() == r.origin
            &&& list.size_of() == r.size
            &&& forall|x: int, y: int|
                #![trigger list.cell_at(x, y)]
                list.cell_at(x, y) == list_cell(*state, screen, theme, layout, x, y)
        },
{
    let fields = state.fields();
    let options = match &fields[popup.field].kind {
        FieldKind::Choice { options, .. } => options,
        _ => {
            return;
        },
    };
    if options.len() == 0 {
        return;
    }
    let ghost fs = state.fields_of();
    proof {
        lemma_bar_start_bounds(fs, fs.len() as int);
        if popup.field >= bar_start(fs) {
            lemma_bar_is_buttons(fs, fs.len() as int, popup.field as int);
        }
    }
    let mut widest: usize = 0;
    let mut k: usize = 0;
    while k < options.len()
        invariant
            k <= options@.len(),
            widest == widest_label(options@, k as int),
        decreases options@.len() - k,
    {
        let len = options[k].label.as_str().len();
        if len > widest {
            widest = len;
        }
        k = k + 1;
    }
    let widest = widest as u16;
    let floor: u16 = if widest > 4 {
        widest
    } else {
        4
    };
    let room: u16 = if screen.w >= 5 {
        screen.w - 5
    } else {
        0
    };
    let inner_w = if floor < room {
        floor
    } else {
        room
    };
    // Sit under the field, then clamp so the popup stays on screen.
    proof {
        lemma_row_offset_grows(fs, popup.field as int, bar_start(fs));
    }
    let field_row = body_rows(fields, popup.field);
    let want = panel.top() + field_row + 2;
    let limit = if screen.h >= 3 {
        screen.h - 3
    } else {
        0
    };
    let y = if want < limit {
        want
    } else {
        limit
    };
    let max_rows = if screen.h - y >= 1 {
        screen.h - y - 1
    } else {
        0
    };
    // A framed list needs at least three rows: top border, one option,
    // bottom border. On a screen too short for that, draw no popup at all.
    if max_rows < 3 {
        return;
    }
    // Sizing has to know whether a scrollbar is coming, because the bar gets
    // a column of its own inside the frame rather than eating the border.
    let without_bar = if options.len() < (max_rows - 2) as usize {
        options.len()
    } else {
        (max_rows - 2) as usize
    };
    let needs_bar = options.len() > without_bar;
    let bar_w: u16 = if needs_bar {
        1
    } else {
        0
    };
    let visible = without_bar;
    let w = inner_w + 2 + bar_w;
    let h = visible as u16 + 2;
    let anchor = panel.left() + layout.label_w;
    let fit_x = if screen.w >= w {
        screen.w - w
    } else {
        0
    };
    let x = if anchor < fit_x {
        anchor
    } else {
        fit_x
    };
    // Scroll so the highlight is always visible.
    let first = if popup.highlight >= visible - 1 {
        popup.highlight - (visible - 1)
    } else {
        0
    };
    let rect = Rect::new(x, y, w, h);
    assert(rect == popup_rect(*state, screen, layout));
    let shadow = shadow_layer(rect, screen);
    let ghost before_len = layers@.len();
    layers.push(shadow);
    let list = popup_list_layer(state, popup, options, screen, theme, layout, rect, inner_w, visible, needs_bar, first);
    layers.push(list);
    assert(layers@[before_len as int] == shadow);
    assert(layers@[before_len + 1int] == list);
}

/// The popup's list layer: a single frame around the shown options, one per
/// row with the highlighted one in the selected attribute, and a scrollbar
/// one column in from the right border when the options overflow.
fn popup_list_layer<A>(
    state: &FormState<A>,
    popup: &Popup,
    options: &Vec<ChoiceOption<A>>,
    screen: Size,
    theme: Theme,
    layout: Layout,
    rect: Rect,
    inner_w: u16,
    visible: usize,
    needs_bar: bool,
    first: usize,
) -> (list: Layer)
    requires
        state.popup_of() == Some(*popup),
        options@ == popup_opts(*state),
        rect == popup_rect(*state, screen, layout),
        inner_w == popup_label_w(*state, screen),
        visible == popup_visible(*state, screen, layout),
        needs_bar == popup_bar(*state, screen, layout),
        first == popup_first(*state, screen, layout),
        1 <= visible,
        rect.size.h == visible + 2,
        rect.size.w == inner_w + 2 + if needs_bar {
            1int
        } else {
            0int
        },
    ensures
        list.wf(),
        list.origin_of() == rect.origin,
        list.size_of() == rect.size,
        forall|x: int, y: int|
            #![trigger list.cell_at(x, y)]
            list.cell_at(x, y) == list_cell(*state, screen, theme, layout, x, y),
{
    let w = rect.size.w;
    let mut list = Layer::new(rect.origin, rect.size);
    let local = list.local_bounds();
    let ghost blank = list;
    list.fill(local, LayerCell::Opaque(Cell { ch: 32, attr: theme.normal }));
    let ghost filled = list;
    list.draw_box(local, BoxChars::single(), theme.normal);
    let ghost boxed = list;
    // Only the rows the list can fill are drawn: as many as are visible,
    // fewer when the options run out first.
    let shown = if first >= options.len() {
        0
    } else if visible <= options.len() - first {
        visible
    } else {
        options.len() - first
    };
    assert(shown == popup_shown(*state, screen, layout));
    proof {
        assert forall|px: int, py: int| #![trigger list.cell_at(px, py)] list.cell_at(px, py)
            == list_cell_upto(*state, screen, theme, layout, 0, false, px, py) by {
            assert(boxed.content_at(px, py) == boxed.cell_at(px, py));
            assert(filled.content_at(px, py) == filled.cell_at(px, py));
            assert(blank.cell_at(px, py) == LayerCell::Transparent);
        }
    }
    let mut row: usize = 0;
    while row < shown
        invariant
            row <= shown,
            shown <= visible,
            rect.size.h == visible + 2,
            shown == popup_shown(*state, screen, layout),
            first == popup_first(*state, screen, layout),
            shown == 0 || first + shown <= options@.len(),
            options@ == popup_opts(*state),
            rect == popup_rect(*state, screen, layout),
            inner_w == popup_label_w(*state, screen),
            state.popup_of() == Some(*popup),
            list.wf(),
            list.origin_of() == rect.origin,
            list.size_of() == rect.size,
            forall|px: int, py: int|
                #![trigger list.cell_at(px, py)]
                list.cell_at(px, py) == list_cell_upto(
                    *state,
                    screen,
                    theme,
                    layout,
                    row as int,
                    false,
                    px,
                    py,
                ),
        decreases shown - row,
    {
        let idx = first + row;
        let attr = if idx == popup.highlight {
            theme.selected
        } else {
            theme.normal
        };
        let ly = row as u16 + 1;
        let ghost before = list;
        list.fill(Rect::new(1, ly, inner_w, 1), LayerCell::Opaque(Cell { ch: 32, attr }));
        let ghost painted = list;
        list.write_str(Point::new(1, ly), options[idx].label.as_str(), attr);
        proof {
            assert forall|px: int, py: int| #![trigger list.cell_at(px, py)] list.cell_at(px, py)
                == list_cell_upto(
                *state,
                screen,
                theme,
                layout,
                row as int + 1,
                false,
                px,
                py,
            ) by {
                assert(list.content_at(px, py) == list.cell_at(px, py));
                assert(painted.content_at(px, py) == painted.cell_at(px, py));
                assert(before.cell_at(px, py) == list_cell_upto(
                    *state,
                    screen,
                    theme,
                    layout,
                    row as int,
                    false,
                    px,
                    py,
                ));
            }
        }
        row = row + 1;
    }
    if needs_bar {
        // One column in from the right border, so the frame stays closed.
        let ghost before = list;
        draw_scrollbar(&mut list, w - 2, visible, options.len(), first, theme);
        proof {
            assert forall|px: int, py: int| #![trigger list.cell_at(px, py)] list.cell_at(px, py)
                == list_cell(*state, screen, theme, layout, px, py) by {
                assert(before.cell_at(px, py) == list_cell_upto(
                    *state,
                    screen,
                    theme,
                    layout,
                    shown as int,
                    false,
                    px,
                    py,
                ));
            }
        }
    }
    list
}

/// The cell `write_str` leaves at column `x` of the row it writes `s` on,
/// starting at `x0` on a surface `w` wide, if it writes one there.
pub open spec fn text_cell(s: Seq<char>, x0: int, w: int, x: int, attr: u8) -> Option<Cell> {
    if x0 <= x < x0 + s.len() && x < w {
        Some(Cell { ch: fold_char(s[x - x0]), attr })
    } else {
        None
    }
}

/// The attribute of field `i`'s row: the selection bar when focused, dim
/// when read-only, normal otherwise.
pub open spec fn row_attr<A>(state: FormState<A>, theme: Theme, i: int) -> u8 {
    if i == state.focus_of() {
        theme.selected
    } else if state.fields_of()[i].kind is ReadOnly {
        theme.dim
    } else {
        theme.normal
    }
}

/// The attribute of field `i`'s value: `theme.value` on a normal editable
/// row, so data stands out from its label; the row's own attribute on a
/// focused or read-only row.
pub open spec fn value_attr_of<A>(state: FormState<A>, theme: Theme, i: int) -> u8 {
    if i == state.focus_of() || state.fields_of()[i].kind is ReadOnly {
        row_attr(state, theme, i)
    } else {
        theme.value
    }
}

/// The bytes of a focused number's buffer while its whole value is
/// selected; empty otherwise.
pub open spec fn selected_bytes<A>(state: FormState<A>, i: int) -> Seq<u8> {
    if i == state.focus_of() {
        match state.fields_of()[i].kind {
            FieldKind::Number { buffer, selected, .. } => if selected {
                vstd::utf8::encode_utf8(buffer@)
            } else {
                Seq::empty()
            },
            _ => Seq::empty(),
        }
    } else {
        Seq::empty()
    }
}

/// What the row of field `i` holds at column `x` once the field is
/// drawn, on a panel `w` wide: a selected number's digits in the selection
/// attribute, then the value column, then the label, then the row's
/// background from the left border to the right; `None` for the border
/// columns, which keep the frame.
pub open spec fn field_row_cell<A>(state: FormState<A>, theme: Theme, layout: Layout, w: int, i: int, x: int) -> Option<Cell> {
    let f = state.fields_of()[i];
    let focused = i == state.focus_of();
    let vx = layout.spec_value_x();
    let bytes = selected_bytes(state, i);
    let value = text_cell(value_column_of(f, focused, layout), vx, w, x, value_attr_of(state, theme, i));
    let label = text_cell(label_text(f.label@, layout.label_w as int), 2, w, x, row_attr(state, theme, i));
    if vx + 1 <= x < vx + 1 + bytes.len() && x < w {
        Some(Cell { ch: bytes[x - vx - 1], attr: theme.selection })
    } else if value is Some {
        value
    } else if label is Some {
        label
    } else if 1 <= x < 1 + layout.spec_inner_w() && x < w {
        Some(Cell { ch: 32, attr: row_attr(state, theme, i) })
    } else {
        None
    }
}

/// The cell row `k` of a cluster writes at column `x` of a panel `w` wide,
/// if it writes one: the item's label after its box, the box's brackets and
/// mark, the rest of the value slot, and on every row but the first the
/// label column cleared. On a focused cluster the caret's row is in the
/// selection attribute; every other row is normal.
pub open spec fn cluster_item_cell<A>(
    style: ClusterStyle,
    items: Seq<ClusterItem<A>>,
    cursor: int,
    focused: bool,
    theme: Theme,
    layout: Layout,
    w: int,
    k: int,
    x: int,
) -> Option<Cell> {
    let attr = if focused && k == cursor {
        theme.selected
    } else {
        theme.normal
    };
    let vx = layout.spec_value_x();
    let budget = if layout.value_w >= 4 {
        layout.value_w - 4
    } else {
        0
    };
    let open: u8 = match style {
        ClusterStyle::Radio => 40,
        ClusterStyle::Check => 91,
    };
    let close: u8 = match style {
        ClusterStyle::Radio => 41,
        ClusterStyle::Check => 93,
    };
    let mark: u8 = if items[k].on {
        match style {
            ClusterStyle::Radio => 7,
            ClusterStyle::Check => 88,
        }
    } else {
        32
    };
    let label = text_cell(label_text(items[k].label@, budget as int), vx + 4, w, x, attr);
    if !(0 <= x < w) {
        None
    } else if label is Some {
        label
    } else if x == vx {
        Some(Cell { ch: open, attr })
    } else if x == vx + 1 {
        Some(Cell { ch: mark, attr })
    } else if x == vx + 2 {
        Some(Cell { ch: close, attr })
    } else if vx <= x < vx + layout.value_w {
        Some(Cell { ch: 32, attr })
    } else if k > 0 && 1 <= x < layout.label_w + 2 {
        Some(Cell { ch: 32, attr: theme.normal })
    } else {
        None
    }
}

/// What row `k` of field `i` holds at column `x` once the field is drawn,
/// on a panel `w` wide. A cluster's first row carries its label and row
/// background under its first item; every row carries its item (see
/// [`cluster_item_cell`]). Any other field has one row (see
/// [`field_row_cell`]).
pub open spec fn field_cell<A>(state: FormState<A>, theme: Theme, layout: Layout, w: int, i: int, k: int, x: int) -> Option<Cell> {
    let f = state.fields_of()[i];
    match f.kind {
        FieldKind::Cluster { style, items, cursor } => {
            let item = if k < items@.len() {
                cluster_item_cell(style, items@, cursor as int, i == state.focus_of(), theme, layout, w, k, x)
            } else {
                None
            };
            let label = text_cell(label_text(f.label@, layout.label_w as int), 2, w, x, row_attr(state, theme, i));
            if item is Some {
                item
            } else if k == 0 && label is Some {
                label
            } else if k == 0 && 1 <= x < 1 + layout.spec_inner_w() && x < w {
                Some(Cell { ch: 32, attr: row_attr(state, theme, i) })
            } else {
                None
            }
        },
        _ => field_row_cell(state, theme, layout, w, i, x),
    }
}

/// What body row `y` holds at column `x` once the first `done` fields are
/// drawn, for a row among theirs: the cell of the field the row belongs to.
pub open spec fn rows_cell<A>(state: FormState<A>, theme: Theme, layout: Layout, w: int, done: int, y: int, x: int) -> Option<Cell>
    decreases done,
{
    let fs = state.fields_of();
    if done <= 0 {
        None
    } else if row_offset(fs, done - 1) + 1 <= y {
        field_cell(state, theme, layout, w, done - 1, y - row_offset(fs, done - 1) - 1, x)
    } else {
        rows_cell(state, theme, layout, w, done - 1, y, x)
    }
}

/// Draw field `i` on its row of the panel body: the row's background, the
/// label, the value column and, for a selected number, the selection
/// highlight over its digits. The caret is not drawn: it is reported.
fn draw_plain_row<A>(body: &mut Layer, state: &FormState<A>, i: usize, row: u16, theme: Theme, layout: Layout)
    requires
        old(body).wf(),
        i < bar_start(state.fields_of()),
        layout.fits(),
        i == state.focus_of() ==> match state.fields_of()[i as int].kind {
            FieldKind::Number { buffer, selected, .. } => selected ==> layout.spec_value_x()
                + vstd::utf8::encode_utf8(buffer@).len() <= u16::MAX,
            _ => true,
        },
    ensures
        final(body).wf(),
        final(body).origin_of() == old(body).origin_of(),
        final(body).size_of() == old(body).size_of(),
        forall|x: int, y: int|
            #![trigger final(body).cell_at(x, y)]
            final(body).cell_at(x, y) == if y == row && 0 <= x && y < old(body).size_of().h
                && field_row_cell(*state, theme, layout, old(body).size_of().w as int, i as int, x)
                is Some {
                LayerCell::Opaque(
                    field_row_cell(*state, theme, layout, old(body).size_of().w as int, i as int, x)->0,
                )
            } else {
                old(body).cell_at(x, y)
            },
{
    let ghost fs = state.fields_of();
    proof {
        lemma_bar_start_bounds(fs, fs.len() as int);
    }
    let field = &state.fields()[i];
    let focused = i == state.focus();
    let read_only = match field.kind {
        FieldKind::ReadOnly(_) => true,
        _ => false,
    };
    let label_attr = if focused {
        theme.selected
    } else if read_only {
        theme.dim
    } else {
        theme.normal
    };
    // Normal editable rows show the value in `theme.value` so data stands
    // out from its label, but a focused or read-only row stays one solid
    // colour across the whole row.
    let value_attr = if focused || read_only {
        label_attr
    } else {
        theme.value
    };
    let inner_w = layout.inner_w();
    let value_x = layout.value_x();
    let ghost w = body.size_of().w as int;
    let ghost h = body.size_of().h as int;
    let ghost start = *body;
    // Paint the whole row so the selection bar spans the panel.
    body.fill(Rect::new(1, row, inner_w, 1), LayerCell::Opaque(Cell { ch: 32, attr: label_attr }));
    let ghost filled = *body;
    // Only a button's accelerator is live, so a field label marks none; its
    // markers are still stripped.
    write_label(body, Point::new(2, row), field.label, label_attr, None, layout.label_w);
    let ghost labelled = *body;
    let value = value_column(field, focused, layout);
    body.write_str(Point::new(value_x, row), value.as_str(), value_attr);
    let ghost written = *body;
    let mut count: usize = 0;
    if focused {
        if let FieldKind::Number { buffer, selected, .. } = &field.kind {
            if *selected {
                // Whole-value selection repaints every digit cell in
                // `theme.selection`.
                let digits_start = value_x + 1;
                let bytes = buffer.as_str().as_bytes();
                let mut k: usize = 0;
                while k < bytes.len()
                    invariant
                        k <= bytes@.len(),
                        w == start.size_of().w,
                        h == start.size_of().h,
                        digits_start == value_x + 1,
                        digits_start + bytes@.len() <= u16::MAX + 1,
                        body.wf(),
                        body.origin_of() == start.origin_of(),
                        body.size_of() == start.size_of(),
                        forall|x: int, y: int|
                            #![trigger body.cell_at(x, y)]
                            body.cell_at(x, y) == if y == row && digits_start <= x < digits_start + k
                                && x < w && y < h {
                                LayerCell::Opaque(Cell { ch: bytes@[x - digits_start], attr: theme.selection })
                            } else {
                                written.cell_at(x, y)
                            },
                    decreases bytes@.len() - k,
                {
                    body.set(
                        digits_start + k as u16,
                        row,
                        LayerCell::Opaque(Cell { ch: bytes[k], attr: theme.selection }),
                    );
                    k = k + 1;
                }
                count = bytes.len();
            }
        }
    }
    proof {
        let bytes = selected_bytes(*state, i as int);
        assert(label_attr == row_attr(*state, theme, i as int));
        assert(value_attr == value_attr_of(*state, theme, i as int));
        assert(count == bytes.len());
        let vs = value_column_of(*field, focused, layout);
        let ls = label_text(field.label@, layout.label_w as int);
        assert forall|x: int, y: int| #![trigger body.cell_at(x, y)] body.cell_at(x, y) == if y == row && 0 <= x && y < h
            && field_row_cell(*state, theme, layout, w, i as int, x) is Some {
            LayerCell::Opaque(field_row_cell(*state, theme, layout, w, i as int, x)->0)
        } else {
            start.cell_at(x, y)
        } by {
            assert(filled.cell_at(x, y) == if 1 <= x < 1 + inner_w && y == row && 0 <= x < w && 0 <= y < h {
                LayerCell::Opaque(Cell { ch: 32, attr: label_attr })
            } else {
                start.cell_at(x, y)
            });
            assert(labelled.content_at(x, y) == labelled.cell_at(x, y));
            assert(written.content_at(x, y) == written.cell_at(x, y));
            assert(filled.content_at(x, y) == filled.cell_at(x, y));
            if y == row && y < h && 0 <= x {
                if count > 0 && value_x + 1 <= x < value_x + 1 + count && x < w {
                } else if text_cell(vs, value_x as int, w, x, value_attr) is Some {
                } else if text_cell(ls, 2, w, x, label_attr) is Some {
                } else {
                }
            }
        }
    }
}

/// Rows field `f` takes on the panel.
fn rows_taken<A>(f: &Field<A>) -> (r: usize)
    ensures
        r == rows_of(*f),
{
    match &f.kind {
        FieldKind::Cluster { items, .. } => if items.len() > 1 {
            items.len()
        } else {
            1
        },
        _ => 1,
    }
}

/// The rows fields `0..upto` take on the panel.
fn body_rows<A>(fields: &[Field<A>], upto: usize) -> (r: u16)
    requires
        upto <= fields@.len(),
        row_offset(fields@, upto as int) <= u16::MAX,
    ensures
        r == row_offset(fields@, upto as int),
{
    let mut r: u16 = 0;
    let mut i: usize = 0;
    while i < upto
        invariant
            i <= upto,
            upto <= fields@.len(),
            row_offset(fields@, upto as int) <= u16::MAX,
            r == row_offset(fields@, i as int),
        decreases upto - i,
    {
        proof {
            lemma_row_offset_grows(fields@, i + 1, upto as int);
        }
        r = r + rows_taken(&fields[i]) as u16;
        i = i + 1;
    }
    r
}

/// Draw item `k` of a cluster on body row `row` (see [`cluster_item_cell`]).
fn draw_cluster_item<A>(
    body: &mut Layer,
    row: u16,
    k: usize,
    style: ClusterStyle,
    items: &Vec<ClusterItem<A>>,
    cursor: usize,
    focused: bool,
    theme: Theme,
    layout: Layout,
)
    requires
        old(body).wf(),
        k < items@.len(),
        layout.fits(),
    ensures
        final(body).wf(),
        final(body).origin_of() == old(body).origin_of(),
        final(body).size_of() == old(body).size_of(),
        forall|x: int, y: int|
            #![trigger final(body).cell_at(x, y)]
            final(body).cell_at(x, y) == if y == row && 0 <= x && y < old(body).size_of().h
                && cluster_item_cell(
                style,
                items@,
                cursor as int,
                focused,
                theme,
                layout,
                old(body).size_of().w as int,
                k as int,
                x,
            ) is Some {
                LayerCell::Opaque(
                    cluster_item_cell(
                        style,
                        items@,
                        cursor as int,
                        focused,
                        theme,
                        layout,
                        old(body).size_of().w as int,
                        k as int,
                        x,
                    )->0,
                )
            } else {
                old(body).cell_at(x, y)
            },
{
    let ghost w = body.size_of().w as int;
    let ghost h = body.size_of().h as int;
    let ghost start = *body;
    let attr = if focused && k == cursor {
        theme.selected
    } else {
        theme.normal
    };
    let vx = layout.value_x();
    // Rows after the first have no label of their own, and must not carry
    // the first row's selection bar across the label column.
    if k > 0 {
        body.fill(
            Rect::new(1, row, layout.label_w + 1, 1),
            LayerCell::Opaque(Cell { ch: 32, attr: theme.normal }),
        );
    }
    let ghost s1 = *body;
    body.fill(Rect::new(vx, row, layout.value_w, 1), LayerCell::Opaque(Cell { ch: 32, attr }));
    let ghost s2 = *body;
    let (open, close): (u8, u8) = match style {
        ClusterStyle::Radio => (40, 41),
        ClusterStyle::Check => (91, 93),
    };
    let mark: u8 = if items[k].on {
        match style {
            ClusterStyle::Radio => 7,
            ClusterStyle::Check => 88,
        }
    } else {
        32
    };
    body.put(vx, row, Cell { ch: open, attr });
    let ghost s3 = *body;
    body.put(vx + 1, row, Cell { ch: mark, attr });
    let ghost s4 = *body;
    body.put(vx + 2, row, Cell { ch: close, attr });
    let ghost s5 = *body;
    // The item text starts after `(x) `; what is left of the value column is
    // its budget.
    let budget: u16 = if layout.value_w >= 4 {
        layout.value_w - 4
    } else {
        0
    };
    write_label(body, Point::new(vx + 4, row), items[k].label.as_str(), attr, None, budget);
    proof {
        assert forall|x: int, y: int|
            #![trigger body.cell_at(x, y)]
            body.cell_at(x, y) == if y == row && 0 <= x && y < h && cluster_item_cell(
                style,
                items@,
                cursor as int,
                focused,
                theme,
                layout,
                w,
                k as int,
                x,
            ) is Some {
                LayerCell::Opaque(
                    cluster_item_cell(style, items@, cursor as int, focused, theme, layout, w, k as int, x)->0,
                )
            } else {
                start.cell_at(x, y)
            } by {
            assert(body.content_at(x, y) == body.cell_at(x, y));
            assert(s5.content_at(x, y) == s5.cell_at(x, y));
            assert(s4.content_at(x, y) == s4.cell_at(x, y));
            assert(s3.content_at(x, y) == s3.cell_at(x, y));
            assert(s2.content_at(x, y) == s2.cell_at(x, y));
        }
    }
}

/// Draw a cluster's items on consecutive body rows from `first_row`, one
/// row per item (see [`cluster_item_cell`]). Only the caret's row carries
/// the focused attribute: lighting the whole cluster would say the group is
/// selected rather than which item is.
fn draw_cluster<A>(
    body: &mut Layer,
    first_row: u16,
    style: ClusterStyle,
    items: &Vec<ClusterItem<A>>,
    cursor: usize,
    focused: bool,
    theme: Theme,
    layout: Layout,
)
    requires
        old(body).wf(),
        first_row + items@.len() <= u16::MAX,
        layout.fits(),
    ensures
        final(body).wf(),
        final(body).origin_of() == old(body).origin_of(),
        final(body).size_of() == old(body).size_of(),
        forall|x: int, y: int|
            #![trigger final(body).cell_at(x, y)]
            final(body).cell_at(x, y) == if first_row <= y < first_row + items@.len() && 0 <= x && y
                < old(body).size_of().h && cluster_item_cell(
                style,
                items@,
                cursor as int,
                focused,
                theme,
                layout,
                old(body).size_of().w as int,
                y - first_row,
                x,
            ) is Some {
                LayerCell::Opaque(
                    cluster_item_cell(
                        style,
                        items@,
                        cursor as int,
                        focused,
                        theme,
                        layout,
                        old(body).size_of().w as int,
                        y - first_row,
                        x,
                    )->0,
                )
            } else {
                old(body).cell_at(x, y)
            },
{
    let ghost w = body.size_of().w as int;
    let ghost h = body.size_of().h as int;
    let ghost start = *body;
    let n = items.len();
    let mut k: usize = 0;
    while k < n
        invariant
            k <= n,
            n == items@.len(),
            first_row + n <= u16::MAX,
            layout.fits(),
            body.wf(),
            body.origin_of() == start.origin_of(),
            body.size_of() == start.size_of(),
            w == start.size_of().w,
            h == start.size_of().h,
            forall|x: int, y: int|
                #![trigger body.cell_at(x, y)]
                body.cell_at(x, y) == if first_row <= y < first_row + k && 0 <= x && y < h
                    && cluster_item_cell(style, items@, cursor as int, focused, theme, layout, w, y - first_row, x)
                    is Some {
                    LayerCell::Opaque(
                        cluster_item_cell(style, items@, cursor as int, focused, theme, layout, w, y - first_row, x)->0,
                    )
                } else {
                    start.cell_at(x, y)
                },
        decreases n - k,
    {
        let ghost before = *body;
        draw_cluster_item(body, first_row + k as u16, k, style, items, cursor, focused, theme, layout);
        proof {
            assert forall|x: int, y: int|
                #![trigger body.cell_at(x, y)]
                body.cell_at(x, y) == if first_row <= y < first_row + k + 1 && 0 <= x && y < h
                    && cluster_item_cell(style, items@, cursor as int, focused, theme, layout, w, y - first_row, x)
                    is Some {
                    LayerCell::Opaque(
                        cluster_item_cell(style, items@, cursor as int, focused, theme, layout, w, y - first_row, x)->0,
                    )
                } else {
                    start.cell_at(x, y)
                } by {
                assert(before.cell_at(x, y) == if first_row <= y < first_row + k && 0 <= x && y < h
                    && cluster_item_cell(style, items@, cursor as int, focused, theme, layout, w, y - first_row, x)
                    is Some {
                    LayerCell::Opaque(
                        cluster_item_cell(style, items@, cursor as int, focused, theme, layout, w, y - first_row, x)->0,
                    )
                } else {
                    start.cell_at(x, y)
                });
            }
        }
        k = k + 1;
    }
}

/// Draw field `i` on its rows of the panel body, from `row` (see
/// [`field_cell`]).
fn draw_field_row<A>(body: &mut Layer, state: &FormState<A>, i: usize, row: u16, theme: Theme, layout: Layout)
    requires
        old(body).wf(),
        i < bar_start(state.fields_of()),
        layout.fits(),
        row + rows_of(state.fields_of()[i as int]) <= u16::MAX,
        i == state.focus_of() ==> match state.fields_of()[i as int].kind {
            FieldKind::Number { buffer, selected, .. } => selected ==> layout.spec_value_x()
                + vstd::utf8::encode_utf8(buffer@).len() <= u16::MAX,
            _ => true,
        },
    ensures
        final(body).wf(),
        final(body).origin_of() == old(body).origin_of(),
        final(body).size_of() == old(body).size_of(),
        forall|x: int, y: int|
            #![trigger final(body).cell_at(x, y)]
            final(body).cell_at(x, y) == if row <= y < row + rows_of(state.fields_of()[i as int]) && 0
                <= x && y < old(body).size_of().h && field_cell(
                *state,
                theme,
                layout,
                old(body).size_of().w as int,
                i as int,
                y - row,
                x,
            ) is Some {
                LayerCell::Opaque(
                    field_cell(*state, theme, layout, old(body).size_of().w as int, i as int, y - row, x)->0,
                )
            } else {
                old(body).cell_at(x, y)
            },
{
    let ghost fs = state.fields_of();
    proof {
        lemma_bar_start_bounds(fs, fs.len() as int);
    }
    let ghost w = body.size_of().w as int;
    let ghost h = body.size_of().h as int;
    let ghost start = *body;
    let field = &state.fields()[i];
    match &field.kind {
        FieldKind::Cluster { style, items, cursor } => {
            let focused = i == state.focus();
            let label_attr = if focused {
                theme.selected
            } else {
                theme.normal
            };
            // The first row is the field's own: its background and label,
            // with the first item in the value column.
            body.fill(
                Rect::new(1, row, layout.inner_w(), 1),
                LayerCell::Opaque(Cell { ch: 32, attr: label_attr }),
            );
            let ghost filled = *body;
            write_label(body, Point::new(2, row), field.label, label_attr, None, layout.label_w);
            let ghost labelled = *body;
            draw_cluster(body, row, *style, items, *cursor, focused, theme, layout);
            proof {
                assert(label_attr == row_attr(*state, theme, i as int));
                assert forall|x: int, y: int|
                    #![trigger body.cell_at(x, y)]
                    body.cell_at(x, y) == if row <= y < row + rows_of(fs[i as int]) && 0 <= x && y < h
                        && field_cell(*state, theme, layout, w, i as int, y - row, x) is Some {
                        LayerCell::Opaque(field_cell(*state, theme, layout, w, i as int, y - row, x)->0)
                    } else {
                        start.cell_at(x, y)
                    } by {
                    assert(labelled.content_at(x, y) == labelled.cell_at(x, y));
                    assert(filled.content_at(x, y) == filled.cell_at(x, y));
                }
            }
        },
        _ => {
            draw_plain_row(body, state, i, row, theme, layout);
        },
    }
}

/// The panel's title as drawn: padded by a space each side so the frame
/// does not touch it.
pub open spec fn title_text<A>(state: FormState<A>) -> Seq<char> {
    seq![' '] + state.title_of()@ + seq![' ']
}

/// The column the title starts at, centred by its UTF-8 length.
pub open spec fn title_x<A>(state: FormState<A>, w: u16) -> int {
    let len = (vstd::utf8::encode_utf8(title_text(state)).len() as usize) as u16;
    (if w >= len {
        w - len
    } else {
        0
    }) / 2
}

/// Write the title centred in the panel's top edge.
fn draw_title<A>(body: &mut Layer, state: &FormState<A>, theme: Theme)
    requires
        old(body).wf(),
    ensures
        final(body).wf(),
        final(body).origin_of() == old(body).origin_of(),
        final(body).size_of() == old(body).size_of(),
        forall|x: int, y: int|
            #![trigger final(body).cell_at(x, y)]
            final(body).cell_at(x, y) == if y == 0 && 0 <= x && y < old(body).size_of().h && text_cell(
                title_text(*state),
                title_x(*state, old(body).size_of().w),
                old(body).size_of().w as int,
                x,
                theme.title,
            ) is Some {
                LayerCell::Opaque(
                    text_cell(
                        title_text(*state),
                        title_x(*state, old(body).size_of().w),
                        old(body).size_of().w as int,
                        x,
                        theme.title,
                    )->0,
                )
            } else {
                old(body).cell_at(x, y)
            },
{
    let mut title = String::new();
    push_char(&mut title, ' ');
    title.append(state.title());
    push_char(&mut title, ' ');
    assert(title@ =~= title_text(*state));
    let bytes = title.as_str().len();
    let tlen = #[verifier::truncate] (bytes as u16);
    let w = body.size().w;
    let tx = (if w >= tlen {
        w - tlen
    } else {
        0
    }) / 2;
    assert(tx == title_x(*state, w));
    let ghost start = *body;
    body.write_str(Point::new(tx, 0), title.as_str(), theme.title);
    assert forall|x: int, y: int| #![trigger body.cell_at(x, y)] body.cell_at(x, y) == if y == 0 && 0 <= x
        && y < start.size_of().h && text_cell(title_text(*state), tx as int, w as int, x, theme.title) is Some {
        LayerCell::Opaque(text_cell(title_text(*state), tx as int, w as int, x, theme.title)->0)
    } else {
        start.cell_at(x, y)
    } by {
        assert(body.content_at(x, y) == body.cell_at(x, y));
    }
}

/// What the separator row above the button bar holds at column `x`: tee
/// glyphs where the rule meets the frame, the double-line rule between.
pub open spec fn separator_cell(layout: Layout, w: int, theme: Theme, x: int) -> Option<Cell> {
    let frame = BoxChars::spec_double();
    if x == 0 && x < w {
        Some(Cell { ch: frame.tee_l, attr: theme.normal })
    } else if x == layout.spec_inner_w() + 1 && x < w {
        Some(Cell { ch: frame.tee_r, attr: theme.normal })
    } else if 1 <= x < 1 + layout.spec_inner_w() && x < w {
        Some(Cell { ch: frame.h, attr: theme.normal })
    } else {
        None
    }
}

/// Draw the rule that separates the fields from the button bar.
fn draw_separator(body: &mut Layer, row: u16, theme: Theme, layout: Layout)
    requires
        old(body).wf(),
        layout.fits(),
    ensures
        final(body).wf(),
        final(body).origin_of() == old(body).origin_of(),
        final(body).size_of() == old(body).size_of(),
        forall|x: int, y: int|
            #![trigger final(body).cell_at(x, y)]
            final(body).cell_at(x, y) == if y == row && 0 <= x && y < old(body).size_of().h
                && separator_cell(layout, old(body).size_of().w as int, theme, x) is Some {
                LayerCell::Opaque(separator_cell(layout, old(body).size_of().w as int, theme, x)->0)
            } else {
                old(body).cell_at(x, y)
            },
{
    let inner_w = layout.inner_w();
    let frame = BoxChars::double();
    let ghost start = *body;
    body.set(0, row, LayerCell::Opaque(Cell { ch: frame.tee_l, attr: theme.normal }));
    let ghost teed = *body;
    body.draw_hline(Point::new(1, row), inner_w, frame.h, theme.normal);
    let ghost ruled = *body;
    body.set(inner_w + 1, row, LayerCell::Opaque(Cell { ch: frame.tee_r, attr: theme.normal }));
    proof {
        assert forall|x: int, y: int| #![trigger body.cell_at(x, y)] body.cell_at(x, y) == if y == row && 0 <= x
            && y < start.size_of().h && separator_cell(layout, start.size_of().w as int, theme, x) is Some {
            LayerCell::Opaque(separator_cell(layout, start.size_of().w as int, theme, x)->0)
        } else {
            start.cell_at(x, y)
        } by {
            assert(ruled.content_at(x, y) == ruled.cell_at(x, y));
            assert(teed.content_at(x, y) == teed.cell_at(x, y));
        }
    }
}

/// The kind of the `k`-th button of the bar.
pub open spec fn bar_kind<A>(fs: Seq<Field<A>>, k: int) -> ButtonKind {
    match fs[bar_start(fs) + k].kind {
        FieldKind::Button(b) => b,
        _ => ButtonKind::Okay,
    }
}

/// The chrome of the `k`-th button of the bar; OK is the default button.
pub open spec fn bar_chrome<A>(fs: Seq<Field<A>>, k: int) -> Seq<char> {
    chrome_with_of(bar_kind(fs, k).spec_label(), bar_kind(fs, k) == ButtonKind::Okay)
}

/// The column the `k`-th button of the bar starts at: the bar is centred in
/// the panel, and its buttons follow one another with a gap between.
pub open spec fn bar_x<A>(fs: Seq<Field<A>>, layout: Layout, k: int) -> int
    decreases k,
{
    if k <= 0 {
        1 + (if layout.spec_inner_w() >= bar_width(fs) {
            layout.spec_inner_w() - bar_width(fs)
        } else {
            0
        }) / 2
    } else {
        let next = bar_x(fs, layout, k - 1) + bar_chrome(fs, k - 1).len() + BUTTON_GAP;
        if next > u16::MAX {
            u16::MAX as int
        } else {
            next
        }
    }
}

/// What the button row holds at column `x` once the first `k` buttons of
/// the bar are drawn over its plain background: each button's chrome, in
/// the selected attribute when focused, with its accelerator marked when the
/// theme marks them.
pub open spec fn button_row_cell<A>(
    state: FormState<A>,
    theme: Theme,
    layout: Layout,
    w: int,
    k: int,
    x: int,
) -> Option<Cell>
    decreases k,
{
    if k <= 0 {
        if 1 <= x < 1 + layout.spec_inner_w() && x < w {
            Some(Cell { ch: 32, attr: theme.normal })
        } else {
            None
        }
    } else {
        let fs = state.fields_of();
        let j = k - 1;
        let kind = bar_kind(fs, j);
        let focused = bar_start(fs) + j == state.focus_of();
        let attr = if focused {
            theme.selected
        } else {
            theme.normal
        };
        let hot_at = bar_x(fs, layout, j) + 1 + chrome_pads(kind.spec_label().len() as int).0;
        let hot_x = if hot_at > u16::MAX {
            u16::MAX as int
        } else {
            hot_at
        };
        let chrome = text_cell(bar_chrome(fs, j), bar_x(fs, layout, j), w, x, attr);
        match theme.hotkey {
            Some(hot) if x == hot_x && x < w => Some(
                Cell {
                    ch: fold_char(kind.spec_mnemonic()),
                    attr: if focused {
                        hot.selected
                    } else {
                        hot.normal
                    },
                },
            ),
            _ => if chrome is Some {
                chrome
            } else {
                button_row_cell(state, theme, layout, w, j, x)
            },
        }
    }
}

/// Draw the button bar's row: a plain background, then each button's
/// chrome centred as a group, the focused one — brackets, padding and all —
/// in the selected attribute, and each accelerator marked.
fn draw_button_row<A>(body: &mut Layer, state: &FormState<A>, row: u16, theme: Theme, layout: Layout)
    requires
        old(body).wf(),
        layout.fits(),
        bar_width(state.fields_of()) <= u16::MAX,
        bar_start(state.fields_of()) < state.fields_of().len(),
    ensures
        final(body).wf(),
        final(body).origin_of() == old(body).origin_of(),
        final(body).size_of() == old(body).size_of(),
        forall|x: int, y: int|
            #![trigger final(body).cell_at(x, y)]
            final(body).cell_at(x, y) == if y == row && 0 <= x && y < old(body).size_of().h
                && button_row_cell(
                *state,
                theme,
                layout,
                old(body).size_of().w as int,
                state.fields_of().len() - bar_start(state.fields_of()),
                x,
            ) is Some {
                LayerCell::Opaque(
                    button_row_cell(
                        *state,
                        theme,
                        layout,
                        old(body).size_of().w as int,
                        state.fields_of().len() - bar_start(state.fields_of()),
                        x,
                    )->0,
                )
            } else {
                old(body).cell_at(x, y)
            },
{
    let fields = state.fields();
    let ghost fs = state.fields_of();
    let n = fields.len();
    let button_start = button_run_start(fields);
    let inner_w = layout.inner_w();
    let focus = state.focus();
    let ghost w = body.size_of().w as int;
    let ghost h = body.size_of().h as int;
    let ghost start = *body;
    body.fill(Rect::new(1, row, inner_w, 1), LayerCell::Opaque(Cell { ch: 32, attr: theme.normal }));
    let mut chromes: Vec<(usize, ButtonKind, String)> = Vec::new();
    let mut total_w: u16 = 0;
    let mut k = button_start;
    proof {
        lemma_bar_start_bounds(fs, fs.len() as int);
        lemma_chrome_sum_grows(fs, button_start as int, button_start as int, n as int);
    }
    while k < n
        invariant
            button_start <= k <= n,
            n == fs.len(),
            fields@ == fs,
            button_start == bar_start(fs),
            bar_width(fs) <= u16::MAX,
            total_w == chrome_sum(fs, button_start as int, k as int),
            chromes@.len() == k - button_start,
            forall|j: int|
                0 <= j < chromes@.len() ==> {
                    &&& (#[trigger] chromes@[j]).0 == button_start + j
                    &&& chromes@[j].1 == bar_kind(fs, j)
                    &&& chromes@[j].2@ == bar_chrome(fs, j)
                    &&& chromes@[j].2@.len() <= 10
                },
        decreases n - k,
    {
        proof {
            lemma_bar_is_buttons(fs, n as int, k as int);
            lemma_chrome_sum_grows(fs, button_start as int, k as int + 1, n as int);
        }
        if let FieldKind::Button(kind) = fields[k].kind {
            let chrome = button_chrome_with(kind.label(), kind == ButtonKind::Okay);
            let len = chrome.as_str().unicode_len() as u16;
            total_w = total_w + len;
            chromes.push((k, kind, chrome));
        }
        k = k + 1;
    }
    let gap = BUTTON_GAP;
    let gaps = gap * (chromes.len() - 1) as u16;
    let all_w = total_w + gaps;
    assert(all_w == bar_width(fs));
    let mut x = 1 + (if inner_w >= all_w {
        inner_w - all_w
    } else {
        0
    }) / 2;
    let ghost bar = chromes@.len() as int;
    let mut c: usize = 0;
    while c < chromes.len()
        invariant
            c <= chromes@.len(),
            bar == chromes@.len(),
            bar == n - button_start,
            n == fs.len(),
            fs == state.fields_of(),
            focus == state.focus_of(),
            button_start == bar_start(fs),
            gap == BUTTON_GAP,
            x == bar_x(fs, layout, c as int),
            row < h || row >= h,
            w == start.size_of().w,
            h == start.size_of().h,
            forall|j: int|
                0 <= j < chromes@.len() ==> {
                    &&& (#[trigger] chromes@[j]).0 == button_start + j
                    &&& chromes@[j].1 == bar_kind(fs, j)
                    &&& chromes@[j].2@ == bar_chrome(fs, j)
                    &&& chromes@[j].2@.len() <= 10
                },
            body.wf(),
            body.origin_of() == start.origin_of(),
            body.size_of() == start.size_of(),
            forall|px: int, py: int|
                #![trigger body.cell_at(px, py)]
                body.cell_at(px, py) == if py == row && 0 <= px && py < h && button_row_cell(
                    *state,
                    theme,
                    layout,
                    w,
                    c as int,
                    px,
                ) is Some {
                    LayerCell::Opaque(button_row_cell(*state, theme, layout, w, c as int, px)->0)
                } else {
                    start.cell_at(px, py)
                },
        decreases chromes@.len() - c,
    {
        let (idx, kind, chrome) = &chromes[c];
        // The focused button's whole chrome, brackets and padding too,
        // carries the selected attribute.
        let attr = if *idx == focus {
            theme.selected
        } else {
            theme.normal
        };
        let ghost before = *body;
        body.write_str(Point::new(x, row), chrome.as_str(), attr);
        let ghost chromed = *body;
        // A button's accelerator is its label's first letter; its column
        // inside the chrome is the bracket plus the left padding.
        if let Some(hot) = theme.hotkey {
            let label_len = kind.label().unicode_len() as u16;
            let inner = if label_len + 2 > BUTTON_MIN_INNER {
                label_len + 2
            } else {
                BUTTON_MIN_INNER
            };
            let offset = 1 + (inner - label_len) / 2;
            let hot_attr = if *idx == focus {
                hot.selected
            } else {
                hot.normal
            };
            body.set(
                x.saturating_add(offset),
                row,
                LayerCell::Opaque(Cell { ch: fold(kind.mnemonic()), attr: hot_attr }),
            );
        }
        proof {
            assert forall|px: int, py: int| #![trigger body.cell_at(px, py)] body.cell_at(px, py) == if py == row
                && 0 <= px && py < h && button_row_cell(*state, theme, layout, w, c as int + 1, px) is Some {
                LayerCell::Opaque(button_row_cell(*state, theme, layout, w, c as int + 1, px)->0)
            } else {
                start.cell_at(px, py)
            } by {
                assert(chromed.content_at(px, py) == chromed.cell_at(px, py));
                assert(before.content_at(px, py) == before.cell_at(px, py));
            }
        }
        let step = chrome.as_str().unicode_len() as u16 + gap;
        x = x.saturating_add(step);
        c = c + 1;
    }
}

/// What the panel's frame holds at `(x, y)` of a `w` by `h` panel: the
/// double-line box glyph there, or the blank background.
pub open spec fn frame_cell(w: u16, h: u16, theme: Theme, x: int, y: int) -> Cell {
    match box_glyph(Rect::mk(0, 0, w, h), BoxChars::spec_double(), x, y) {
        Some(g) => Cell { ch: g, attr: theme.normal },
        None => Cell { ch: 32, attr: theme.normal },
    }
}

/// What the panel body holds at `(x, y)` once the frame, the title and the
/// first `done` field rows are drawn, and — when `bar` — the separator and
/// the button bar.
pub open spec fn body_cell_upto<A>(
    state: FormState<A>,
    screen: Size,
    theme: Theme,
    layout: Layout,
    done: int,
    bar: bool,
    x: int,
    y: int,
) -> LayerCell {
    let fs = state.fields_of();
    let bs = bar_start(fs);
    let panel = panel_rect(fs, screen, layout);
    let w = panel.size.w;
    let h = panel.size.h;
    if !(0 <= x < w && 0 <= y < h) {
        LayerCell::Transparent
    } else {
        let drawn = if y == 0 {
            text_cell(title_text(state), title_x(state, w), w as int, x, theme.title)
        } else if 1 <= y < row_offset(fs, done) + 1 {
            rows_cell(state, theme, layout, w as int, done, y, x)
        } else if bar && y == row_offset(fs, bs) + 1 {
            separator_cell(layout, w as int, theme, x)
        } else if bar && y == row_offset(fs, bs) + 2 {
            button_row_cell(state, theme, layout, w as int, fs.len() - bs, x)
        } else {
            None
        };
        LayerCell::Opaque(
            match drawn {
                Some(c) => c,
                None => frame_cell(w, h, theme, x, y),
            },
        )
    }
}

/// What the panel body holds at `(x, y)`: the double frame with the title
/// centred in its top edge; a row per field above the button bar (see
/// [`field_row_cell`]); and, when the form has buttons, a separator rule
/// and the bar of buttons below them.
pub open spec fn body_cell<A>(state: FormState<A>, screen: Size, theme: Theme, layout: Layout, x: int, y: int) -> LayerCell {
    let fs = state.fields_of();
    body_cell_upto(state, screen, theme, layout, bar_start(fs), bar_start(fs) < fs.len(), x, y)
}

/// What the renderer guarantees of its output: the panel's shadow and then
/// the panel body, cell by cell, plus the popup's shadow and list when a
/// popup is drawn; every layer on the screen; and the caret of the focused
/// entry field.
pub open spec fn rendered<A>(
    state: FormState<A>,
    screen: Size,
    theme: Theme,
    layout: Layout,
    layers: Seq<Layer>,
    cursor: Option<TextCursor>,
) -> bool {
    let panel = panel_rect(state.fields_of(), screen, layout);
    &&& cursor == cursor_of(state, screen, layout)
    &&& layers.len() == if popup_drawn(state, screen, layout) {
        4int
    } else {
        2int
    }
    &&& on_screen(layers, screen)
    &&& shadows(layers[0], panel, screen)
    &&& layers[1].origin_of() == panel.origin
    &&& layers[1].size_of() == panel.size
    &&& forall|x: int, y: int|
        #![trigger layers[1].cell_at(x, y)]
        layers[1].cell_at(x, y) == body_cell(state, screen, theme, layout, x, y)
    &&& popup_drawn(state, screen, layout) ==> {
        let r = popup_rect(state, screen, layout);
        &&& shadows(layers[2], r, screen)
        &&& layers[3].origin_of() == r.origin
        &&& layers[3].size_of() == r.size
        &&& forall|x: int, y: int|
            #![trigger layers[3].cell_at(x, y)]
            layers[3].cell_at(x, y) == list_cell(state, screen, theme, layout, x, y)
    }
}

/// Drawing the separator and then the button bar over the field rows
/// completes the panel body.
proof fn lemma_bar_completes_body<A>(
    state: FormState<A>,
    screen: Size,
    theme: Theme,
    layout: Layout,
    before: Layer,
    separated: Layer,
    after: Layer,
)
    requires
        bar_start(state.fields_of()) < state.fields_of().len(),
        row_offset(state.fields_of(), bar_start(state.fields_of())) + 2 <= u16::MAX,
        before.size_of() == panel_rect(state.fields_of(), screen, layout).size,
        forall|x: int, y: int|
            #![trigger before.cell_at(x, y)]
            before.cell_at(x, y) == body_cell_upto(
                state,
                screen,
                theme,
                layout,
                bar_start(state.fields_of()),
                false,
                x,
                y,
            ),
        forall|x: int, y: int|
            #![trigger separated.cell_at(x, y)]
            separated.cell_at(x, y) == if y == row_offset(state.fields_of(), bar_start(state.fields_of())) + 1 && 0 <= x && y
                < before.size_of().h && separator_cell(layout, before.size_of().w as int, theme, x) is Some {
                LayerCell::Opaque(separator_cell(layout, before.size_of().w as int, theme, x)->0)
            } else {
                before.cell_at(x, y)
            },
        forall|x: int, y: int|
            #![trigger after.cell_at(x, y)]
            after.cell_at(x, y) == if y == row_offset(state.fields_of(), bar_start(state.fields_of())) + 2 && 0 <= x && y
                < before.size_of().h && button_row_cell(
                state,
                theme,
                layout,
                before.size_of().w as int,
                state.fields_of().len() - bar_start(state.fields_of()),
                x,
            ) is Some {
                LayerCell::Opaque(
                    button_row_cell(
                        state,
                        theme,
                        layout,
                        before.size_of().w as int,
                        state.fields_of().len() - bar_start(state.fields_of()),
                        x,
                    )->0,
                )
            } else {
                separated.cell_at(x, y)
            },
    ensures
        forall|x: int, y: int|
            #![trigger after.cell_at(x, y)]
            after.cell_at(x, y) == body_cell(state, screen, theme, layout, x, y),
{
    assert forall|x: int, y: int| #![trigger after.cell_at(x, y)] after.cell_at(x, y) == body_cell(
        state,
        screen,
        theme,
        layout,
        x,
        y,
    ) by {
        assert(before.cell_at(x, y) == body_cell_upto(state, screen, theme, layout, bar_start(state.fields_of()), false, x, y));
        assert(separated.cell_at(x, y) == if y == row_offset(state.fields_of(), bar_start(state.fields_of())) + 1 && 0 <= x && y
            < before.size_of().h && separator_cell(layout, before.size_of().w as int, theme, x) is Some {
            LayerCell::Opaque(separator_cell(layout, before.size_of().w as int, theme, x)->0)
        } else {
            before.cell_at(x, y)
        });
        let fs = state.fields_of();
        let bs = bar_start(fs);
        lemma_bar_start_bounds(fs, fs.len() as int);
        lemma_row_offset_grows(fs, 0, bs);
        let panel = panel_rect(fs, screen, layout);
        let w = panel.size.w;
        let h = panel.size.h;
        let frame = frame_cell(w, h, theme, x, y);
        if 0 <= x < w && 0 <= y < h {
            assert(body_cell(state, screen, theme, layout, x, y) == body_cell_upto(state, screen, theme, layout, bs, true, x, y));
            if y == row_offset(fs, bs) + 1 {
                assert(body_cell_upto(state, screen, theme, layout, bs, true, x, y) == LayerCell::Opaque(
                    match separator_cell(layout, w as int, theme, x) {
                        Some(c) => c,
                        None => frame,
                    },
                ));
            } else if y == row_offset(fs, bs) + 2 {
                assert(body_cell_upto(state, screen, theme, layout, bs, true, x, y) == LayerCell::Opaque(
                    match button_row_cell(state, theme, layout, w as int, fs.len() - bs, x) {
                        Some(c) => c,
                        None => frame,
                    },
                ));
                assert(before.cell_at(x, y) == LayerCell::Opaque(frame));
            } else {
                assert(after.cell_at(x, y) == before.cell_at(x, y));
            }
        } else {
            assert(body_cell(state, screen, theme, layout, x, y) == LayerCell::Transparent);
            lemma_button_row_in_width(state, theme, layout, w as int, fs.len() - bs, x);
        }
    }
}

/// The button row draws nothing right of the panel.
proof fn lemma_button_row_in_width<A>(state: FormState<A>, theme: Theme, layout: Layout, w: int, k: int, x: int)
    ensures
        x >= w ==> button_row_cell(state, theme, layout, w, k, x) is None,
    decreases k,
{
    if k > 0 {
        lemma_button_row_in_width(state, theme, layout, w, k - 1, x);
    }
}

/// Draw `state` into layers, bottom-to-top, plus the text-cursor descriptor
/// (if any) for the focused field. Shared by every entry point so the layout
/// math is computed exactly once.
#[verifier::rlimit(40)]
fn render_impl<A>(state: &FormState<A>, screen: Size, theme: Theme, layout: Layout) -> (r: (
    Vec<Layer>,
    Option<TextCursor>,
))
    requires
        renders(*state, screen, layout),
    ensures
        rendered(*state, screen, theme, layout, r.0@, r.1),
{
    let mut layers: Vec<Layer> = Vec::new();
    let mut text_cursor: Option<TextCursor> = None;
    let fields = state.fields();
    let ghost fs = state.fields_of();
    let n = fields.len();
    let button_start = button_run_start(fields);
    let has_buttons = button_start < n;
    proof {
        lemma_bar_start_bounds(fs, fs.len() as int);
    }
    proof {
        lemma_row_offset_grows(fs, 0, button_start as int);
    }
    let field_rows = body_rows(fields, button_start);
    // A collapsed button row also gets a separator rule above it.
    let trailer_rows: u16 = if has_buttons {
        2
    } else {
        0
    };
    let panel_h = field_rows + trailer_rows + 2;
    let inner_w = layout.inner_w();
    let value_x = layout.value_x();
    let panel = centred(Size::new(inner_w + 2, panel_h), screen);
    let shadow = shadow_layer(panel, screen);
    let ghost shadow_ghost = shadow;
    layers.push(shadow);
    let ghost shadowed = layers@;
    assert(shadowed[0] == shadow_ghost);
    let mut body = Layer::new(panel.origin, panel.size);
    let local = body.local_bounds();
    let ghost blank = body;
    body.fill(local, LayerCell::Opaque(Cell { ch: 32, attr: theme.normal }));
    let ghost filled = body;
    body.draw_box(local, BoxChars::double(), theme.normal);
    let ghost boxed = body;
    draw_title(&mut body, state, theme);
    let focus = state.focus();
    let mut i: usize = 0;
    let mut row_off: u16 = 0;
    proof {
        let w = panel.size.w;
        let h = panel.size.h;
        assert forall|x: int, y: int| #![trigger body.cell_at(x, y)] body.cell_at(x, y) == body_cell_upto(
            *state,
            screen,
            theme,
            layout,
            0,
            false,
            x,
            y,
        ) by {
            assert(blank.cell_at(x, y) == LayerCell::Transparent);
            assert(filled.cell_at(x, y) == if 0 <= x < w && 0 <= y < h {
                LayerCell::Opaque(Cell { ch: 32, attr: theme.normal })
            } else {
                LayerCell::Transparent
            });
            assert(boxed.content_at(x, y) == boxed.cell_at(x, y));
            assert(filled.content_at(x, y) == filled.cell_at(x, y));
            assert(boxed.cell_at(x, y) == if 0 <= x < w && 0 <= y < h {
                LayerCell::Opaque(frame_cell(w, h, theme, x, y))
            } else {
                LayerCell::Transparent
            });
        }
    }
    while i < button_start
        invariant
            i <= button_start,
            button_start == bar_start(fs),
            button_start <= n,
            n == fs.len(),
            fs == state.fields_of(),
            fields@ == fs,
            focus == state.focus_of(),
            renders(*state, screen, layout),
            panel == panel_rect(fs, screen, layout),
            layers@ == shadowed,
            inner_w == layout.spec_inner_w(),
            value_x == layout.spec_value_x(),
            field_rows == row_offset(fs, button_start as int),
            row_off == row_offset(fs, i as int),
            body.wf(),
            body.origin_of() == panel.origin,
            body.size_of() == panel.size,
            forall|x: int, y: int|
                #![trigger body.cell_at(x, y)]
                body.cell_at(x, y) == body_cell_upto(*state, screen, theme, layout, i as int, false, x, y),
            text_cursor == if focus < i {
                cursor_of(*state, screen, layout)
            } else {
                None
            },
        decreases button_start - i,
    {
        let ghost before = body;
        proof {
            lemma_row_offset_grows(fs, i + 1, button_start as int);
        }
        draw_field_row(&mut body, state, i, row_off + 1, theme, layout);
        proof {
            assert forall|x: int, y: int| #![trigger body.cell_at(x, y)] body.cell_at(x, y) == body_cell_upto(
                *state,
                screen,
                theme,
                layout,
                i as int + 1,
                false,
                x,
                y,
            ) by {
                assert(before.cell_at(x, y) == body_cell_upto(*state, screen, theme, layout, i as int, false, x, y));
            }
        }
        if i == focus {
            let field = &fields[i];
            let row = row_off + 1;
            match &field.kind {
                FieldKind::Number { cursor, selected, overtype, .. } => {
                    if !*selected {
                        let local_x = value_x + 1 + #[verifier::truncate] (*cursor as u16);
                        text_cursor = Some(
                            TextCursor {
                                col: panel.origin.x + local_x,
                                row: panel.origin.y + row,
                                shape: if *overtype {
                                    CursorShape::Overtype
                                } else {
                                    CursorShape::Insert
                                },
                            },
                        );
                    }
                },
                // A text field scrolls, so the caret's column is its offset
                // within the visible window rather than within the buffer.
                FieldKind::Text { cursor, selected, overtype, .. } => {
                    if !*selected {
                        let local_x = value_x + 1 + (*cursor - text_scroll(*cursor, layout)) as u16;
                        text_cursor = Some(
                            TextCursor {
                                col: panel.origin.x + local_x,
                                row: panel.origin.y + row,
                                shape: if *overtype {
                                    CursorShape::Overtype
                                } else {
                                    CursorShape::Insert
                                },
                            },
                        );
                    }
                },
                _ => {},
            }
        }
        row_off = row_off + rows_taken(&fields[i]) as u16;
        i = i + 1;
    }
    if has_buttons {
        let sep_row = field_rows + 1;
        let ghost before = body;
        draw_separator(&mut body, sep_row, theme, layout);
        let ghost separated = body;
        draw_button_row(&mut body, state, sep_row + 1, theme, layout);
        proof {
            lemma_bar_completes_body(*state, screen, theme, layout, before, separated, body);
        }
    }
    let ghost drawn = body;
    layers.push(body);
    if let Some(popup) = state.popup() {
        push_popup(&mut layers, state, popup, panel, screen, theme, layout);
        assert(layers@[0] == layers@.subrange(0, 2)[0]);
        assert(layers@[1] == layers@.subrange(0, 2)[1]);
    }
    assert(layers@[0] == shadow_ghost);
    assert(layers@[1] == drawn);
    (layers, text_cursor)
}

/// Draw `state` into layers, bottom-to-top, in the default theme and layout.
pub fn render<A>(state: &FormState<A>, screen: Size) -> (layers: Vec<Layer>)
    requires
        renders(*state, screen, Layout::spec_default()),
    ensures
        exists|c: Option<TextCursor>| rendered(*state, screen, Theme::spec_default(), Layout::spec_default(), layers@, c),
{
    let theme = Theme::default();
    let layout = Layout::default();
    let (layers, cursor) = render_impl(state, screen, theme, layout);
    layers
}

/// As [`render`], but also returns the text-cursor descriptor for the
/// focused, actively-edited field (`None` if no field is being edited, e.g.
/// a Choice/Toggle/Button is focused, or the focused entry's value is
/// whole-selected rather than mid-edit). The cursor is never written into
/// the cells, so a host renders it separately without risking overwriting
/// the glyph under it.
pub fn render_with_cursor<A>(state: &FormState<A>, screen: Size) -> (r: (
    Vec<Layer>,
    Option<TextCursor>,
))
    requires
        renders(*state, screen, Layout::spec_default()),
    ensures
        rendered(*state, screen, Theme::spec_default(), Layout::spec_default(), r.0@, r.1),
{
    render_impl(state, screen, Theme::default(), Layout::default())
}

/// As [`render_with_cursor`], but drawn with the caller's own [`Theme`] and
/// [`Layout`]. This is the only way to clear [`Theme::hotkey`], which a host
/// that cannot deliver hotkeys should do.
pub fn render_themed<A>(state: &FormState<A>, screen: Size, theme: Theme, layout: Layout) -> (r: (
    Vec<Layer>,
    Option<TextCursor>,
))
    requires
        renders(*state, screen, layout),
    ensures
        rendered(*state, screen, theme, layout, r.0@, r.1),
{
    render_impl(state, screen, theme, layout)
}

/// What the renderer draws is fully determined by its inputs: any two
/// results that both meet [`rendered`] for the same state, screen, theme and
/// layout have the same caret and, layer by layer, the same origin, size and
/// cells. So [`render_with_cursor`] gives exactly what [`render_themed`]
/// gives with [`Theme::default`] and [`Layout::default`], and [`render`]
/// gives its layers.
pub proof fn lemma_rendering_is_determined<A>(
    state: FormState<A>,
    screen: Size,
    theme: Theme,
    layout: Layout,
    layers1: Seq<Layer>,
    cursor1: Option<TextCursor>,
    layers2: Seq<Layer>,
    cursor2: Option<TextCursor>,
)
    requires
        rendered(state, screen, theme, layout, layers1, cursor1),
        rendered(state, screen, theme, layout, layers2, cursor2),
    ensures
        cursor1 == cursor2,
        layers1.len() == layers2.len(),
        forall|i: int|
            0 <= i < layers1.len() ==> #[trigger] layers1[i].origin_of() == layers2[i].origin_of()
                && layers1[i].size_of() == layers2[i].size_of(),
        forall|i: int, x: int, y: int|
            0 <= i < layers1.len() ==> #[trigger] layers1[i].cell_at(x, y) == layers2[i].cell_at(x, y),
{
    assert forall|i: int, x: int, y: int|
        0 <= i < layers1.len() implies #[trigger] layers1[i].cell_at(x, y) == layers2[i].cell_at(x, y) by {
        if i == 0 {
            assert(layers1[0].cell_at(x, y) == layers1[0].cell_at(x, y));
            assert(layers2[0].cell_at(x, y) == layers2[0].cell_at(x, y));
        } else if i == 1 {
            assert(layers1[1].cell_at(x, y) == layers1[1].cell_at(x, y));
            assert(layers2[1].cell_at(x, y) == layers2[1].cell_at(x, y));
        } else if i == 2 {
            assert(layers1[2].cell_at(x, y) == layers1[2].cell_at(x, y));
            assert(layers2[2].cell_at(x, y) == layers2[2].cell_at(x, y));
        } else {
            assert(layers1[3].cell_at(x, y) == layers1[3].cell_at(x, y));
            assert(layers2[3].cell_at(x, y) == layers2[3].cell_at(x, y));
        }
    }
}

/// A text field's caret always sits inside its visible window: the scroll
/// keeps it between the first visible column and the last.
pub proof fn lemma_text_caret_stays_in_view(cursor: int, layout: Layout)
    requires
        cursor >= 0,
    ensures
        spec_text_scroll(cursor, layout) >= 0,
        0 <= cursor - spec_text_scroll(cursor, layout) <= layout.spec_text_visible_w() - 1,
        cursor < layout.spec_text_visible_w() ==> spec_text_scroll(cursor, layout) == 0,
{
}

/// Truncate-or-pad always yields exactly the width asked for.
pub proof fn lemma_fitted_len(s: Seq<char>, width: int)
    requires
        width >= 0,
    ensures
        fitted(s, width).len() == width,
        forall|i: int| 0 <= i < width && i < s.len() ==> #[trigger] fitted(s, width)[i] == s[i],
{
}

/// A field's value never runs past the value column, so it can never
/// overwrite the panel's right border; every kind but `ReadOnly` and
/// `Number` fills the column exactly, brackets included.
pub proof fn lemma_value_column_fits<A>(f: Field<A>, focused: bool, layout: Layout)
    ensures
        value_column_of(f, focused, layout).len() <= layout.value_cols(),
        !(f.kind is ReadOnly || f.kind is Number) ==> value_column_of(f, focused, layout).len()
            == layout.value_cols(),
{
    let visible = layout.spec_text_visible_w();
    match f.kind {
        FieldKind::ReadOnly(_) => {
            lemma_fitted_len(value_text_of(f), layout.value_w as int);
        },
        FieldKind::Number { value, buffer, unit, min, max, .. } => {
            let digits = if buffer@.len() == 0 && !focused {
                decimal(value as nat)
            } else {
                buffer@
            };
            lemma_fitted_len(number_column_of(digits, unit@, min, max), layout.value_w as int);
        },
        FieldKind::Text { buffer, cursor, .. } => {
            lemma_fitted_len(window(buffer@, spec_text_scroll(cursor as int, layout), visible), visible);
        },
        _ => {
            lemma_fitted_len(value_text_of(f), visible);
        },
    }
}

/// A number's digits sit in a fixed four-wide slot, so its closing bracket
/// stays in one column however many digits (up to four) it holds.
pub proof fn lemma_number_bracket_is_fixed(digits: Seq<char>, unit: Seq<char>, min: u32, max: u32)
    requires
        digits.len() <= 4,
    ensures
        number_column_of(digits, unit, min, max)[0] == '[',
        number_column_of(digits, unit, min, max)[6] == ']',
{
    let s = number_column_of(digits, unit, min, max);
    let head = seq!['['] + padded(digits, 4) + seq![' ', ']'];
    assert(head.len() == 7);
    assert(s =~= head + (unit + seq![' ', '('] + crate::text::decimal(min as nat) + seq!['-']
        + crate::text::decimal(max as nat) + seq![')']));
    assert(head[6] == ']');
}

/// A popup list carries a scrollbar only when its options do not all fit.
/// When it does, the bar keeps to the column next to the right border and
/// to the rows between the top and bottom borders; every other cell is as
/// it would be without a bar, so the frame stays closed.
pub proof fn lemma_popup_scrollbar_stays_inside<A>(
    state: FormState<A>,
    screen: Size,
    theme: Theme,
    layout: Layout,
    x: int,
    y: int,
)
    requires
        popup_drawn(state, screen, layout),
    ensures
        ({
            let w = popup_rect(state, screen, layout).size.w as int;
            let v = popup_visible(state, screen, layout);
            let without = list_cell_upto(
                state,
                screen,
                theme,
                layout,
                popup_shown(state, screen, layout),
                false,
                x,
                y,
            );
            &&& !popup_bar(state, screen, layout) ==> list_cell(state, screen, theme, layout, x, y)
                == without
            &&& popup_bar(state, screen, layout) ==> 1 <= w - 2 < w - 1
            &&& !(x == w - 2 && 1 <= y <= v) ==> list_cell(state, screen, theme, layout, x, y)
                == without
        }),
{
    lemma_row_offset_grows(state.fields_of(), 0, state.popup_of()->0.field as int);
}

/// The open popup always shows its highlighted option: whenever the popup
/// is drawn and the highlight is one of its options, the highlight lies
/// among the rows the list fills, so the list scrolls to keep it in view.
/// Within that, it sits as high as it can: the list only scrolls once the
/// highlight would fall below the last visible row.
pub proof fn lemma_popup_shows_the_highlight<A>(state: FormState<A>, screen: Size, layout: Layout)
    requires
        popup_drawn(state, screen, layout),
        state.popup_of()->0.highlight < popup_opts(state).len(),
    ensures
        ({
            let h = state.popup_of()->0.highlight as int;
            let first = popup_first(state, screen, layout);
            let shown = popup_shown(state, screen, layout);
            let v = popup_visible(state, screen, layout);
            &&& 0 <= first <= h < first + shown
            &&& shown <= v
            &&& h < v ==> first == 0
            &&& h >= v ==> h == first + v - 1
        }),
{
    lemma_row_offset_grows(state.fields_of(), 0, state.popup_of()->0.field as int);
}

/// An unfocused number whose buffer is empty shows its committed value:
/// the value column opens with `[` and then the value's decimal digits, as
/// far as the column is wide.
pub proof fn lemma_unfocused_number_shows_its_value<A>(f: Field<A>, layout: Layout)
    requires
        f.kind matches FieldKind::Number { buffer, .. } && buffer@.len() == 0,
    ensures
        ({
            let col = value_column_of(f, false, layout);
            let digits = decimal(crate::form::model::value_of(f.kind) as nat);
            &&& layout.value_w >= 1 ==> col[0] == '['
            &&& forall|j: int| 0 <= j < digits.len() && 1 + j < layout.value_w ==> #[trigger] col[1 + j] == digits[j]
        }),
{
    match f.kind {
        FieldKind::Number { value, unit, min, max, .. } => {
            let digits = decimal(value as nat);
            let full = number_column_of(digits, unit@, min, max);
            let head = seq!['['] + padded(digits, 4);
            assert(full =~= head + (seq![' ', ']'] + unit@ + seq![' ', '('] + decimal(min as nat) + seq!['-']
                + decimal(max as nat) + seq![')']));
            assert forall|j: int| 0 <= j < digits.len() implies #[trigger] full[1 + j] == digits[j] by {
                assert(head[1 + j] == padded(digits, 4)[j]);
            }
            lemma_fitted_len(full, layout.value_w as int);
        },
        _ => {},
    }
}

/// A button's label is centred in its chrome: the padding on the left is
/// never more than on the right, and at most one cell less.
pub proof fn lemma_chrome_centres_label(label: Seq<char>)
    ensures
        ({
            let (left, right) = chrome_pads(label.len() as int);
            &&& left >= 1
            &&& left <= right <= left + 1
            &&& chrome_of(label).len() == left + label.len() + right + 2
            &&& chrome_of(label).len() >= BUTTON_MIN_INNER + 2
        }),
{
}

} // verus!
