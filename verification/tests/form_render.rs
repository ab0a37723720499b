use std::rc::Rc;

use neovision::cell::CellBuffer;
use neovision::cursor::CursorShape;
use neovision::draw::BoxChars;
use neovision::form::model::{
    ButtonKind, ChoiceOption, ClusterItem, ClusterStyle, Field, FieldKind, FormEvent, FormState,
    NumberCommit, NumberCommitter, TextCommit, TextCommitter,
};
use neovision::form::render::{render, render_themed, render_with_cursor, text_scroll, Layout, Theme};
use neovision::geom::Size;
use neovision::layer::{Layer, LayerStack, SHADE_ATTR};

#[derive(Debug, Clone, Copy, PartialEq, Eq)]
enum TestOp {
    A,
    B,
}

struct AlwaysA;

impl NumberCommit<TestOp> for AlwaysA {
    fn action_for(&self, _value: u32) -> TestOp {
        TestOp::A
    }

    fn commit(&self, _value: u32) -> TestOp {
        TestOp::A
    }
}

impl TextCommit<TestOp> for AlwaysA {
    fn action_for(&self, _text: vstd::seq::Seq<char>) -> TestOp {
        TestOp::A
    }

    fn commit(&self, _text: &str) -> TestOp {
        TestOp::A
    }
}

fn number_commit() -> NumberCommitter<TestOp> {
    NumberCommitter { f: Rc::new(AlwaysA) }
}

fn text_commit() -> TextCommitter<TestOp> {
    TextCommitter { f: Rc::new(AlwaysA) }
}

fn ok_button() -> Field<TestOp> {
    Field { label: "", kind: FieldKind::Button(ButtonKind::Okay), restore: vec![] }
}

/// OK and Cancel both present (not just OK) so the layout tests exercise
/// the actual side-by-side button row.
fn marked_form() -> FormState<TestOp> {
    FormState::new(
        "T",
        vec![
            Field {
                label: "~S~ound",
                kind: FieldKind::Toggle { on: true, on_action: TestOp::A, off_action: TestOp::B },
                restore: vec![],
            },
            ok_button(),
        ],
    )
}

/// Flatten the returned layers onto a blank screen so tests can assert on
/// what the user would actually see.
fn flatten(layers: Vec<Layer>, screen: Size) -> CellBuffer {
    let base = CellBuffer::new(screen.w, screen.h);
    let mut stack = LayerStack::new();
    for l in layers {
        stack.push(l);
    }
    let mut out = CellBuffer::new(screen.w, screen.h);
    stack.composite(&base, &mut out);
    out
}

/// Column of the first cell in `row` holding `ch`.
fn col_of(buf: &CellBuffer, row: u16, ch: u8) -> u16 {
    (0..buf.cols)
        .find(|&c| buf.get(c, row).ch == ch)
        .unwrap_or_else(|| panic!("no {:?} in row {row}", ch as char))
}

fn row_text(buf: &CellBuffer, row: u16) -> String {
    (0..buf.cols).map(|c| buf.get(c, row).ch as char).collect::<String>()
}

fn find_row(buf: &CellBuffer, needle: &str) -> Option<u16> {
    (0..buf.rows).find(|r| row_text(buf, *r).contains(needle))
}

/// Column of `needle` on `row`, as a cell index rather than a byte offset.
fn column_of(buf: &CellBuffer, row: u16, needle: char) -> u16 {
    row_text(buf, row).chars().position(|c| c == needle).expect("needle present on row") as u16
}

fn form() -> FormState<TestOp> {
    FormState::new(
        "SETTINGS",
        vec![
            Field {
                label: "Colour",
                kind: FieldKind::Choice {
                    options: vec![
                        ChoiceOption { label: "Red".to_string(), action: TestOp::A },
                        ChoiceOption { label: "Green".to_string(), action: TestOp::B },
                    ],
                    selected: Some(0),
                },
                restore: vec![TestOp::A],
            },
            Field {
                label: "Strategy",
                kind: FieldKind::ReadOnly("Fixed".to_string()),
                restore: Vec::new(),
            },
            ok_button(),
            Field { label: "", kind: FieldKind::Button(ButtonKind::Cancel), restore: Vec::new() },
        ],
    )
}

#[test]
fn a_marked_label_renders_without_its_tildes() {
    let screen = Size::new(80, 25);
    let buf = flatten(render(&marked_form(), screen), screen);
    let row = find_row(&buf, "Sound").expect("the label reads as Sound");
    assert!(!row_text(&buf, row).contains('~'), "markers must never occupy a cell");
}

#[test]
fn a_narrow_layout_makes_a_narrower_panel() {
    let screen = Size::new(80, 25);
    let narrow = Layout { label_w: 8, value_w: 10 };
    let width_of = |layout: Layout| {
        let (layers, _) = render_themed(&form(), screen, Theme::default(), layout);
        let buf = flatten(layers, screen);
        let row = find_row(&buf, "Colour").expect("a field row");
        let left = (0..buf.cols).find(|&c| buf.get(c, row).ch == 0xBA).expect("left border");
        let right = (left + 1..buf.cols).find(|&c| buf.get(c, row).ch == 0xBA).expect("right border");
        right - left
    };
    assert_eq!(width_of(Layout::default()), Layout::default().inner_w() + 1);
    assert_eq!(width_of(narrow), narrow.inner_w() + 1);
    assert!(width_of(narrow) < width_of(Layout::default()));
}

#[test]
fn two_default_panels_fit_side_by_side_on_eighty_columns() {
    assert!((Layout::default().inner_w() + 2) * 2 <= 80);
}

#[test]
fn a_layout_too_narrow_to_draw_a_value_is_widened_rather_than_breaking() {
    let silly = Layout { label_w: 4, value_w: 0 };
    // Brackets plus one character is the floor.
    assert!(silly.text_visible_w() >= 1);
    assert!(silly.inner_w() > silly.label_w);
    let screen = Size::new(80, 25);
    // Must not panic or overhang.
    let _ = render_themed(&form(), screen, Theme::default(), silly);
}

#[test]
fn a_label_longer_than_its_column_is_truncated_not_overwritten() {
    let screen = Size::new(80, 25);
    let f: FormState<TestOp> = FormState::new(
        "T",
        vec![Field {
            label: "A very long label indeed",
            kind: FieldKind::Toggle { on: true, on_action: TestOp::A, off_action: TestOp::B },
            restore: Vec::new(),
        }],
    );
    let buf = flatten(render(&f, screen), screen);
    let row = find_row(&buf, "A very").expect("the label row");
    let text = row_text(&buf, row);
    // The value still starts where it always does, undisturbed.
    assert!(text.contains("[Yes"), "got: {text}");
    // And the label stopped at its own column rather than running into it.
    let open = col_of(&buf, row, b'[');
    let label_end = col_of(&buf, row, b'A') + Layout::default().label_w;
    assert!(open >= label_end, "label ran into the value column: {text}");
}

#[test]
fn a_field_label_advertises_no_accelerator_because_it_has_none() {
    let screen = Size::new(80, 25);
    let buf = flatten(render(&marked_form(), screen), screen);
    let row = find_row(&buf, "Sound").expect("sound row");
    let s_at = col_of(&buf, row, b'S');
    let hot = Theme::default().hotkey.expect("default marks hotkeys");
    assert_ne!(buf.get(s_at, row).attr, hot.selected);
    assert_ne!(buf.get(s_at, row).attr, hot.normal);
    // Every cell of the label shares one attribute.
    assert_eq!(buf.get(s_at, row).attr, buf.get(s_at + 1, row).attr);
}

#[test]
fn a_button_marks_its_implicit_accelerator() {
    let screen = Size::new(80, 25);
    let buf = flatten(render(&marked_form(), screen), screen);
    let row = find_row(&buf, "OK").expect("button row");
    let o_at = col_of(&buf, row, b'O');
    let hot = Theme::default().hotkey.expect("default marks hotkeys");
    // The OK button is not focused here, so it takes the normal variant.
    assert_eq!(buf.get(o_at, row).attr, hot.normal);
}

#[test]
fn clearing_the_hotkey_theme_leaves_labels_unmarked_but_still_readable() {
    let screen = Size::new(80, 25);
    let theme = Theme { hotkey: None, ..Theme::default() };
    let f = marked_form();
    let buf = flatten(render_themed(&f, screen, theme, Layout::default()).0, screen);
    let row = find_row(&buf, "Sound").expect("still reads as Sound");
    let text = row_text(&buf, row);
    assert!(!text.contains('~'), "markers are stripped either way");
    let s_at = col_of(&buf, row, b'S');
    assert_eq!(buf.get(s_at, row).attr, buf.get(s_at + 1, row).attr);
}

fn text_form(initial: &str, cursor: usize) -> FormState<TestOp> {
    FormState::new(
        "T",
        vec![Field {
            label: "Name",
            kind: FieldKind::Text {
                buffer: initial.to_string(),
                cursor,
                selected: false,
                overtype: false,
                max_len: 64,
                commit: text_commit(),
            },
            restore: vec![],
        }],
    )
}

#[test]
fn a_text_field_renders_bracketed_like_other_editable_values() {
    let screen = Size::new(80, 25);
    let f = text_form("Loki", 4);
    let buf = flatten(render(&f, screen), screen);
    let row = find_row(&buf, "Name").expect("name row");
    assert!(row_text(&buf, row).contains("[Loki"), "got: {}", row_text(&buf, row));
}

#[test]
fn a_text_field_shorter_than_its_slot_does_not_scroll() {
    assert_eq!(text_scroll(0, Layout::default()), 0);
    let vis = Layout::default().text_visible_w() as usize;
    assert_eq!(text_scroll(vis - 1, Layout::default()), 0);
}

#[test]
fn a_long_text_field_scrolls_to_keep_the_caret_in_view() {
    // One past the last visible column must scroll by exactly one.
    let vis = Layout::default().text_visible_w() as usize;
    assert_eq!(text_scroll(vis, Layout::default()), 1);
    assert_eq!(text_scroll(vis + 5, Layout::default()), 6);
}

#[test]
fn the_caret_of_a_scrolled_text_field_stays_inside_the_brackets() {
    let screen = Size::new(80, 25);
    let long = "x".repeat(Layout::default().text_visible_w() as usize + 10);
    let caret_at = long.chars().count();
    let f = text_form(&long, caret_at);
    let (_, cursor) = render_with_cursor(&f, screen);
    let c = cursor.expect("an actively-edited text field has a caret");
    let buf = flatten(render(&f, screen), screen);
    let row = find_row(&buf, "Name").expect("name row");
    let open = col_of(&buf, row, b'[');
    let close = col_of(&buf, row, b']');
    assert!(c.col > open && c.col <= close, "caret at {} escaped the brackets at {}..{}", c.col, open, close);
}

#[test]
fn a_scrolled_text_field_shows_the_end_of_the_buffer_not_the_start() {
    let screen = Size::new(80, 25);
    let long: String = ('a'..='z').collect();
    let caret_at = long.chars().count();
    let f = text_form(&long, caret_at);
    let buf = flatten(render(&f, screen), screen);
    let row = find_row(&buf, "Name").expect("name row");
    let text = row_text(&buf, row);
    assert!(text.contains('z'), "the caret end must be visible: {text}");
    assert!(!text.contains("[abc"), "should have scrolled past the start: {text}");
}

#[test]
fn panel_is_framed_with_double_line_corners() {
    let screen = Size::new(80, 25);
    let buf = flatten(render(&form(), screen), screen);
    let top = find_row(&buf, "SETTINGS").expect("title row");
    let left = (0..80).find(|c| buf.get(*c, top).ch == BoxChars::double().tl);
    assert!(left.is_some(), "top-left corner 0xC9 present on the title row");
    let l = left.unwrap();
    let right = (l + 1..80).find(|c| buf.get(*c, top).ch == BoxChars::double().tr);
    assert!(right.is_some(), "top-right corner 0xBB present");
}

#[test]
fn title_appears_in_the_top_edge() {
    let screen = Size::new(80, 25);
    let buf = flatten(render(&form(), screen), screen);
    assert!(find_row(&buf, "SETTINGS").is_some());
}

#[test]
fn every_field_label_and_value_is_rendered() {
    let screen = Size::new(80, 25);
    let buf = flatten(render(&form(), screen), screen);
    assert!(find_row(&buf, "Colour").is_some());
    assert!(find_row(&buf, "Red").is_some(), "the selected option is shown");
    assert!(find_row(&buf, "Strategy").is_some());
    assert!(find_row(&buf, "Fixed").is_some());
    assert!(find_row(&buf, "OK").is_some());
}

#[test]
fn the_focused_row_carries_the_selection_attribute_and_others_do_not() {
    let screen = Size::new(80, 25);
    let buf = flatten(render(&form(), screen), screen);
    let focused = find_row(&buf, "Colour").expect("focused row");
    let other = find_row(&buf, "Strategy").expect("unfocused row");
    let attr_at = |row: u16| {
        let c = (0..80).find(|c| buf.get(*c, row).ch != b' ').unwrap();
        buf.get(c + 2, row).attr
    };
    assert_eq!(attr_at(focused), Theme::default().selected);
    assert_ne!(attr_at(other), Theme::default().selected);
}

#[test]
fn the_panel_casts_a_shadow_that_does_not_cover_itself() {
    let screen = Size::new(80, 25);
    let buf = flatten(render(&form(), screen), screen);
    let title = find_row(&buf, "SETTINGS").expect("title row");
    let left = (0..80).find(|c| buf.get(*c, title).ch == BoxChars::double().tl).unwrap();
    let right = (left + 1..80).find(|c| buf.get(*c, title).ch == BoxChars::double().tr).unwrap();
    // One column right of the frame, one row down, is shaded.
    assert_eq!(buf.get(right + 1, title + 1).attr, SHADE_ATTR);
    // The frame itself is not shaded.
    assert_ne!(buf.get(right, title).attr, SHADE_ATTR);
}

#[test]
fn an_open_popup_lists_every_option_below_its_field() {
    let screen = Size::new(80, 25);
    let mut f = form();
    f.handle(FormEvent::Enter);
    let buf = flatten(render(&f, screen), screen);
    let field_row = find_row(&buf, "Colour").expect("field row");
    let green = find_row(&buf, "Green").expect("popup lists the unselected option");
    assert!(green > field_row, "the popup sits below its field");
}

fn long_choice(n: usize) -> FormState<TestOp> {
    let options: Vec<ChoiceOption<TestOp>> =
        (0..n).map(|i| ChoiceOption { label: format!("Option {i}"), action: TestOp::A }).collect();
    FormState::new(
        "LONG",
        vec![Field {
            label: "Many",
            kind: FieldKind::Choice { options, selected: Some(0) },
            restore: Vec::new(),
        }],
    )
}

/// Every cell of the popup's scrollbar column, top to bottom.
fn scrollbar_column(buf: &CellBuffer) -> Vec<u8> {
    const BAR: [u8; 4] = [0x1E, 0x1F, 0xB1, 0xDB];
    for col in 0..buf.cols {
        for row in 0..buf.rows {
            if buf.get(col, row).ch == 0x1E {
                let mut out = Vec::new();
                let mut r = row;
                while r < buf.rows && BAR.contains(&buf.get(col, r).ch) {
                    out.push(buf.get(col, r).ch);
                    r += 1;
                }
                return out;
            }
        }
    }
    Vec::new()
}

#[test]
fn a_list_that_fits_gets_no_scrollbar() {
    let screen = Size::new(80, 25);
    let mut f = long_choice(3);
    f.handle(FormEvent::Enter);
    let buf = flatten(render(&f, screen), screen);
    assert!(scrollbar_column(&buf).is_empty(), "a bar that is always full says less than no bar at all");
}

#[test]
fn a_list_that_does_not_fit_gets_arrows_a_track_and_a_thumb() {
    let screen = Size::new(80, 25);
    let mut f = long_choice(40);
    f.handle(FormEvent::Enter);
    let buf = flatten(render(&f, screen), screen);
    let bar = scrollbar_column(&buf);
    assert!(!bar.is_empty(), "a scrolling list shows where it is");
    assert_eq!(bar.first(), Some(&0x1E), "up arrow caps the track");
    assert_eq!(bar.last(), Some(&0x1F), "down arrow caps it");
    assert!(bar.contains(&0xDB), "the thumb is drawn");
    assert!(bar.contains(&0xB1), "so is the empty track, in a shade the desktop does not use");
}

#[test]
fn the_track_is_not_drawn_in_the_desktop_shade() {
    let screen = Size::new(80, 25);
    let mut f = long_choice(40);
    f.handle(FormEvent::Enter);
    let buf = flatten(render(&f, screen), screen);
    assert!(!scrollbar_column(&buf).contains(&0xB0));
}

#[test]
fn the_popup_keeps_its_right_border_when_a_scrollbar_is_shown() {
    let screen = Size::new(80, 25);
    let mut f = long_choice(40);
    f.handle(FormEvent::Enter);
    let buf = flatten(render(&f, screen), screen);
    let mut bar_col = None;
    'outer: for col in 0..buf.cols {
        for row in 0..buf.rows {
            if buf.get(col, row).ch == 0x1E {
                bar_col = Some((col, row));
                break 'outer;
            }
        }
    }
    let (col, row) = bar_col.expect("a scrollbar");
    assert_eq!(buf.get(col + 1, row).ch, 0xB3, "the bar takes its own column rather than the border");
}

#[test]
fn the_thumb_moves_down_as_the_list_scrolls() {
    let screen = Size::new(80, 25);
    let mut f = long_choice(40);
    f.handle(FormEvent::Enter);
    let top = flatten(render(&f, screen), screen);
    let thumb_at = |b: &CellBuffer| scrollbar_column(b).iter().position(|&c| c == 0xDB).expect("a thumb");
    let high = thumb_at(&top);
    // Walk to the end of the list.
    for _ in 0..39 {
        f.handle(FormEvent::Down);
    }
    let bottom = flatten(render(&f, screen), screen);
    assert!(thumb_at(&bottom) > high, "the thumb tracks the scroll position");
}

#[test]
fn a_popup_longer_than_the_screen_scrolls_rather_than_overflowing() {
    let screen = Size::new(80, 25);
    let mut f = long_choice(40);
    f.handle(FormEvent::Enter);
    // Must not panic, and must stay inside the screen.
    let layers = render(&f, screen);
    for l in &layers {
        assert!(l.bounds().bottom() <= screen.h, "layer stays on screen");
        assert!(l.bounds().right() <= screen.w, "layer stays on screen");
    }
}

#[test]
fn rendering_a_form_wider_than_the_screen_does_not_panic() {
    let screen = Size::new(20, 8);
    let layers = render(&form(), screen);
    for l in &layers {
        assert!(l.bounds().right() <= screen.w);
        assert!(l.bounds().bottom() <= screen.h);
    }
}

/// A single Number field ("Cycle period", seeded "120") plus a trailing OK
/// button, with the edit state fully controllable.
fn number_form_state(focused: bool, selected: bool, overtype: bool, cursor: usize) -> FormState<TestOp> {
    let mut f = FormState::new(
        "T",
        vec![
            Field {
                label: "Cycle period",
                kind: FieldKind::Number {
                    value: 120,
                    buffer: String::from("120"),
                    cursor,
                    selected,
                    overtype,
                    min: 10,
                    max: 3600,
                    unit: "s",
                    commit: number_commit(),
                },
                restore: Vec::new(),
            },
            ok_button(),
        ],
    );
    f.set_focus(if focused { 0 } else { 1 });
    f
}

fn number_form(focused: bool) -> FormState<TestOp> {
    number_form_state(focused, false, false, 3)
}

fn number_form_state_buf(focused: bool, selected: bool, overtype: bool, digits: &str) -> FormState<TestOp> {
    number_form_state_buf_cur(focused, selected, overtype, digits, digits.len())
}

fn number_form_state_buf_cur(
    focused: bool,
    selected: bool,
    overtype: bool,
    digits: &str,
    cursor: usize,
) -> FormState<TestOp> {
    let mut f = FormState::new(
        "T",
        vec![
            Field {
                label: "N",
                kind: FieldKind::Number {
                    value: 120,
                    buffer: String::from(digits),
                    cursor,
                    selected,
                    overtype,
                    min: 10,
                    max: 3600,
                    unit: "s",
                    commit: number_commit(),
                },
                restore: Vec::new(),
            },
            ok_button(),
        ],
    );
    f.set_focus(if focused { 0 } else { 1 });
    f
}

/// Attributes of the digit cells right after `[` on the number row.
fn digit_cell_attrs(buf: &CellBuffer, row: u16) -> Vec<u8> {
    let mut x = column_of(buf, row, '[') + 1;
    let mut attrs = Vec::new();
    while buf.get(x, row).ch.is_ascii_digit() {
        attrs.push(buf.get(x, row).attr);
        x += 1;
    }
    attrs
}

#[test]
fn a_number_field_brackets_only_the_digits_and_shows_the_range_outside() {
    let screen = Size::new(80, 25);
    let buf = flatten(render(&number_form(false), screen), screen);
    let row = find_row(&buf, "Cycle period").expect("number row");
    let text = row_text(&buf, row);
    let open = text.find('[').unwrap();
    let close = text.find(']').unwrap();
    let val = text.find("120").unwrap();
    let range = text.find("(10-3600)").expect("range shown");
    assert!(open < val && val < close, "digits are inside the brackets: {text}");
    assert!(range > close, "the range sits OUTSIDE the brackets: {text}");
}

#[test]
fn a_focused_number_field_yields_a_cursor_and_an_unfocused_one_does_not() {
    let (_layers, cursor) = render_with_cursor(&number_form(false), Size::new(80, 25));
    assert!(cursor.is_none(), "an unfocused Number field yields no cursor");
    let (_layers, cursor) = render_with_cursor(&number_form(true), Size::new(80, 25));
    assert_eq!(
        cursor.expect("a focused, editing Number field yields a cursor").shape,
        CursorShape::Insert,
        "a focused, editing Number field yields an Insert-shape cursor"
    );
}

#[test]
fn a_selected_number_field_highlights_the_whole_value() {
    let f = number_form_state(true, true, false, 3);
    let screen = Size::new(80, 25);
    let buf = flatten(render(&f, screen), screen);
    let row = find_row(&buf, "Cycle period").expect("number row");
    let sel = Theme::default().selection;
    let digits = digit_cell_attrs(&buf, row);
    assert_eq!(digits.len(), 3, "all three seeded digits are present");
    assert!(digits.iter().all(|&a| a == sel), "selected digits use theme.selection");
}

#[test]
fn an_insert_cursor_is_insert_shape_and_overtype_is_overtype_shape() {
    let ins = number_form_state(true, false, false, 1);
    let ovr = number_form_state(true, false, true, 1);
    let (_l, cursor) = render_with_cursor(&ins, Size::new(80, 25));
    assert_eq!(cursor.unwrap().shape, CursorShape::Insert, "insert mode yields an Insert-shape cursor");
    let (_l, cursor) = render_with_cursor(&ovr, Size::new(80, 25));
    assert_eq!(cursor.unwrap().shape, CursorShape::Overtype, "overtype mode yields an Overtype-shape cursor");
}

#[test]
fn a_focused_emptied_number_field_shows_no_stale_digits() {
    let mut f = FormState::new(
        "T",
        vec![
            Field {
                label: "Cycle period",
                kind: FieldKind::Number {
                    value: 120,
                    buffer: String::new(),
                    cursor: 0,
                    selected: false,
                    overtype: false,
                    min: 10,
                    max: 3600,
                    unit: "s",
                    commit: number_commit(),
                },
                restore: Vec::new(),
            },
            ok_button(),
        ],
    );
    f.set_focus(0);
    let screen = Size::new(80, 25);
    let buf = flatten(render(&f, screen), screen);
    let row = find_row(&buf, "Cycle period").expect("number row");
    let text = row_text(&buf, row);
    assert!(!text.contains("120"), "the stale committed value must not appear: {text}");
    let open = column_of(&buf, row, '[');
    let (_layers, cursor) = render_with_cursor(&f, screen);
    assert_eq!(
        cursor.expect("a focused, editing (empty-buffer) field still yields a cursor").col,
        open + 1,
        "the insert cursor sits at column 0, right after '[': {text}"
    );
}

#[test]
fn an_unfocused_number_shows_no_cursor_or_selection() {
    let f = number_form_state(false, false, false, 3);
    let (_layers, cursor) = render_with_cursor(&f, Size::new(80, 25));
    assert!(cursor.is_none(), "unfocused field yields no cursor");
}

#[test]
fn a_screen_too_short_for_a_popup_draws_none_rather_than_overhanging() {
    let mut f = form();
    f.handle(FormEvent::Enter);
    for h in 0..=3u16 {
        let screen = Size::new(20, h);
        for l in render(&f, screen) {
            assert!(l.bounds().bottom() <= screen.h, "layer overhangs a {h}-row screen");
            assert!(l.bounds().right() <= screen.w);
        }
    }
}

#[test]
fn an_editable_fields_value_is_bracketed() {
    let screen = Size::new(80, 25);
    let buf = flatten(render(&form(), screen), screen);
    let row = find_row(&buf, "Colour").expect("colour row");
    let text = row_text(&buf, row);
    let value_at = text.find("Red").expect("the selected value is shown");
    let open = text.find('[').expect("opening bracket present");
    let close = text.find(']').expect("closing bracket present");
    assert!(open < value_at && value_at < close, "the value sits inside the brackets: {text}");
}

#[test]
fn a_read_only_fields_value_is_not_bracketed() {
    let screen = Size::new(80, 25);
    let buf = flatten(render(&form(), screen), screen);
    let row = find_row(&buf, "Fixed").expect("strategy row");
    let text = row_text(&buf, row);
    assert!(!text.contains('[') && !text.contains(']'), "a ReadOnly value must not get field chrome: {text}");
}

#[test]
fn ok_and_cancel_share_a_row_in_that_order() {
    let screen = Size::new(80, 25);
    let buf = flatten(render(&form(), screen), screen);
    let ok_row = find_row(&buf, "OK").expect("OK is drawn");
    let cancel_row = find_row(&buf, "Cancel").expect("Cancel is drawn");
    assert_eq!(ok_row, cancel_row, "OK and Cancel share a single row");
    let text = row_text(&buf, ok_row);
    let ok_at = text.find("OK").unwrap();
    let cancel_at = text.find("Cancel").unwrap();
    assert!(ok_at < cancel_at, "OK appears before Cancel: {text}");
}

#[test]
fn the_focused_button_carries_the_selected_attribute_and_the_unfocused_one_does_not() {
    let screen = Size::new(80, 25);
    let mut f = form();
    f.set_focus(2); // OK
    let buf = flatten(render(&f, screen), screen);
    let row = find_row(&buf, "OK").expect("button row");
    let text = row_text(&buf, row);
    let ok_at = text.find("OK").unwrap() as u16;
    let cancel_at = text.find("Cancel").unwrap() as u16;
    assert_eq!(buf.get(ok_at, row).attr, Theme::default().selected, "the focused button's label is highlighted");
    // The requirement is the WHOLE chrome, not just the label: check the
    // opening bracket before "OK".
    assert_eq!(
        buf.get(ok_at - 3, row).attr,
        Theme::default().selected,
        "the focused button's bracket is highlighted too, not just its label"
    );
    assert_ne!(buf.get(cancel_at, row).attr, Theme::default().selected, "the unfocused button must not be highlighted");
}

#[test]
fn an_oversized_value_is_truncated_and_does_not_overwrite_the_frame() {
    let screen = Size::new(80, 25);
    let long = "X".repeat(30);
    let f = FormState::new(
        "SETTINGS",
        vec![Field {
            label: "Long",
            kind: FieldKind::Choice {
                options: vec![ChoiceOption { label: long.clone(), action: TestOp::A }],
                selected: Some(0),
            },
            restore: Vec::new(),
        }],
    );
    let buf = flatten(render(&f, screen), screen);
    let top = find_row(&buf, "SETTINGS").expect("title row");
    let left = (0..80).find(|c| buf.get(*c, top).ch == BoxChars::double().tl).unwrap();
    let right = (left + 1..80).find(|c| buf.get(*c, top).ch == BoxChars::double().tr).unwrap();
    let row = top + 1; // the form's only field
    assert_eq!(buf.get(right, row).ch, BoxChars::double().v, "an oversized value must not overwrite the right border");
    let text = row_text(&buf, row);
    assert!(text.contains(']'), "the bracket still closes: {text}");
    assert!(!text.contains(long.as_str()), "the full 30-char value must not appear verbatim: {text}");
}

#[test]
fn the_separator_row_has_tee_glyphs_at_the_frame_columns() {
    let screen = Size::new(80, 25);
    let buf = flatten(render(&form(), screen), screen);
    let top = find_row(&buf, "SETTINGS").expect("title row");
    let left = (0..80).find(|c| buf.get(*c, top).ch == BoxChars::double().tl).unwrap();
    let right = (left + 1..80).find(|c| buf.get(*c, top).ch == BoxChars::double().tr).unwrap();
    // `form()` has 2 non-button fields (Colour, Strategy) before the
    // separator, which sits on the row right after them.
    let sep_row = top + 2 + 1;
    assert_eq!(buf.get(left, sep_row).ch, BoxChars::double().tee_l, "left tee meets the frame");
    assert_eq!(buf.get(right, sep_row).ch, BoxChars::double().tee_r, "right tee meets the frame");
    assert_eq!(buf.get(left + 1, sep_row).ch, BoxChars::double().h, "the rule between the tees uses the double-line horizontal glyph");
}

#[test]
fn number_field_is_fixed_width_across_digit_counts() {
    let screen = Size::new(80, 25);
    let close_col = |digits: &str| -> usize {
        let f = number_form_state_buf(false, false, false, digits);
        let buf = flatten(render(&f, screen), screen);
        let row = find_row(&buf, "N").expect("number row");
        let text = row_text(&buf, row);
        text.chars().position(|c| c == ']').expect("closing bracket")
    };
    assert_eq!(close_col("1"), close_col("1204"), "field width must be stable");
    assert_eq!(close_col("120"), close_col("1"), "field width must be stable");
}

#[test]
fn cursor_descriptor_tracks_focused_editing_field() {
    let screen = Size::new(80, 25);
    let f = number_form_state_buf_cur(true, false, false, "120", 1);
    let (_layers, cursor) = render_with_cursor(&f, screen);
    let c = cursor.expect("focused editing field yields a cursor");
    assert_eq!(c.shape, CursorShape::Insert);
    let buf = flatten(render(&f, screen), screen);
    let row = find_row(&buf, "N").expect("number row");
    let open = {
        let text = row_text(&buf, row);
        text.chars().position(|ch| ch == '[').unwrap()
    };
    assert_eq!(c.row as usize, row as usize, "cursor on the field's row");
    assert_eq!(c.col as usize, open + 1 + 1, "cursor after '[' + index 1");
}

#[test]
fn overtype_field_yields_block_shape() {
    let f = number_form_state_buf_cur(true, false, true, "120", 0);
    let (_l, cursor) = render_with_cursor(&f, Size::new(80, 25));
    assert_eq!(cursor.unwrap().shape, CursorShape::Overtype);
}

#[test]
fn no_cursor_when_selected_or_unfocused() {
    let sel = number_form_state_buf_cur(true, true, false, "120", 3);
    let unf = number_form_state_buf_cur(false, false, false, "120", 3);
    assert!(render_with_cursor(&sel, Size::new(80, 25)).1.is_none(), "selected -> no cursor");
    assert!(render_with_cursor(&unf, Size::new(80, 25)).1.is_none(), "unfocused -> no cursor");
}

// --- beyond the original suite ---

#[test]
fn render_returns_shadow_then_body_and_adds_two_layers_for_a_popup() {
    let screen = Size::new(80, 25);
    let mut f = form();
    assert_eq!(render(&f, screen).len(), 2);
    f.handle(FormEvent::Enter);
    let layers = render(&f, screen);
    assert_eq!(layers.len(), 4);
    // The panel for `form()` is 39 wide and 6 tall, centred on 80x25.
    assert_eq!(layers[1].bounds(), neovision::geom::Rect::new(20, 9, 39, 6));
    assert_eq!(layers[0].bounds(), neovision::geom::Rect::new(21, 10, 39, 6));
}

#[test]
fn the_default_button_wears_guillemets() {
    let screen = Size::new(80, 25);
    let buf = flatten(render(&form(), screen), screen);
    let row = find_row(&buf, "OK").expect("button row");
    let o = column_of(&buf, row, 'O');
    // CP437 0xAE is «, 0xAF is »; Cancel keeps square brackets.
    assert_eq!(buf.get(o - 3, row).ch, 0xAE);
    assert_eq!(buf.get(o + 4, row).ch, 0xAF);
    let c = column_of(&buf, row, 'C');
    assert_eq!(buf.get(c - 2, row).ch, b'[');
}

#[test]
fn an_unset_choice_shows_an_em_dash_as_a_question_mark_cell() {
    let screen = Size::new(80, 25);
    let f = FormState::new(
        "T",
        vec![Field {
            label: "Pick",
            kind: FieldKind::Choice {
                options: vec![ChoiceOption { label: "One".to_string(), action: TestOp::A }],
                selected: None,
            },
            restore: Vec::new(),
        }],
    );
    let buf = flatten(render(&f, screen), screen);
    let row = find_row(&buf, "Pick").expect("pick row");
    let open = col_of(&buf, row, b'[');
    assert_eq!(buf.get(open + 1, row).ch, b'?');
}

#[test]
fn the_text_cursor_column_is_the_value_column_plus_the_caret() {
    let screen = Size::new(80, 25);
    let f = text_form("abc", 2);
    let (layers, cursor) = render_with_cursor(&f, screen);
    let panel = layers[1].bounds();
    let c = cursor.expect("caret");
    assert_eq!(c.col, panel.left() + 2 + Layout::default().label_w + 1 + 2);
    assert_eq!(c.row, panel.top() + 1);
}

#[test]
fn render_with_cursor_is_render_themed_in_the_defaults() {
    let screen = Size::new(80, 25);
    let f = form();
    let (a, ca) = render_with_cursor(&f, screen);
    let (b, cb) = render_themed(&f, screen, Theme::default(), Layout::default());
    assert_eq!(ca, cb);
    assert_eq!(a.len(), b.len());
    for (la, lb) in a.iter().zip(b.iter()) {
        assert_eq!(la.bounds(), lb.bounds());
        for y in 0..la.size().h {
            for x in 0..la.size().w {
                assert_eq!(la.get(x, y), lb.get(x, y));
            }
        }
    }
}

/// A form whose first field is a two-item cluster, followed by a Choice.
fn with_cluster(style: ClusterStyle) -> FormState<TestOp> {
    FormState::new(
        "T",
        vec![
            Field {
                label: "Mode",
                kind: FieldKind::Cluster {
                    style,
                    items: vec![
                        ClusterItem {
                            label: "Fast".to_string(),
                            on: true,
                            on_action: TestOp::A,
                            off_action: None,
                        },
                        ClusterItem {
                            label: "Slow".to_string(),
                            on: false,
                            on_action: TestOp::B,
                            off_action: None,
                        },
                    ],
                    cursor: 0,
                },
                restore: Vec::new(),
            },
            Field {
                label: "After",
                kind: FieldKind::Choice {
                    options: vec![ChoiceOption { label: "One".to_string(), action: TestOp::A }],
                    selected: Some(0),
                },
                restore: Vec::new(),
            },
        ],
    )
}

#[test]
fn a_cluster_takes_one_row_per_item() {
    let screen = Size::new(80, 25);
    let f = with_cluster(ClusterStyle::Radio);
    let buf = flatten(render(&f, screen), screen);
    let first = find_row(&buf, "Fast").expect("first item");
    let second = find_row(&buf, "Slow").expect("second item");
    assert_eq!(second, first + 1, "items stack on consecutive rows");
}

#[test]
fn a_radio_cluster_marks_only_the_chosen_item() {
    let screen = Size::new(80, 25);
    let buf = flatten(render(&with_cluster(ClusterStyle::Radio), screen), screen);
    let row = find_row(&buf, "Fast").expect("first item");
    assert_eq!(buf.get(col_of(&buf, row, b'(') + 1, row).ch, 0x07);
    let row = find_row(&buf, "Slow").expect("second item");
    assert_eq!(buf.get(col_of(&buf, row, b'(') + 1, row).ch, b' ');
}

#[test]
fn a_check_cluster_uses_brackets_rather_than_parentheses() {
    let screen = Size::new(80, 25);
    let buf = flatten(render(&with_cluster(ClusterStyle::Check), screen), screen);
    let row = find_row(&buf, "Fast").expect("first item");
    let text = row_text(&buf, row);
    assert!(text.contains("[X] Fast"), "got: {text}");
}

#[test]
fn only_the_caret_row_of_a_focused_cluster_is_highlighted() {
    let screen = Size::new(80, 25);
    let f = with_cluster(ClusterStyle::Check);
    let buf = flatten(render(&f, screen), screen);
    let caret = find_row(&buf, "Fast").expect("caret row");
    let other = find_row(&buf, "Slow").expect("other row");
    let at = |r: u16| buf.get(col_of(&buf, r, b'['), r).attr;
    assert_eq!(at(caret), Theme::default().selected);
    assert_ne!(at(other), Theme::default().selected, "the whole group lighting up would say the wrong thing");
}

#[test]
fn a_radio_caret_and_its_choice_are_marked_separately() {
    let screen = Size::new(80, 25);
    let mut f = with_cluster(ClusterStyle::Radio);
    f.handle(FormEvent::Down); // caret to item 2, choice stays on item 1
    let buf = flatten(render(&f, screen), screen);

    let chosen = find_row(&buf, "Fast").expect("first item");
    let caret = find_row(&buf, "Slow").expect("second item");

    // The bullet marks the choice, which did not move.
    assert_eq!(buf.get(col_of(&buf, chosen, b'(') + 1, chosen).ch, 0x07);
    assert_eq!(buf.get(col_of(&buf, caret, b'(') + 1, caret).ch, b' ');

    // The bar marks the caret, which did.
    assert_eq!(buf.get(col_of(&buf, caret, b'('), caret).attr, Theme::default().selected);
    assert_ne!(buf.get(col_of(&buf, chosen, b'('), chosen).attr, Theme::default().selected);
}

#[test]
fn the_panel_grows_to_fit_a_multi_row_field() {
    let screen = Size::new(80, 25);
    let tall = flatten(render(&with_cluster(ClusterStyle::Radio), screen), screen);
    let short = flatten(render(&form(), screen), screen);
    let height = |b: &CellBuffer| {
        let rows: Vec<u16> =
            (0..b.rows).filter(|&r| (0..b.cols).any(|c| b.get(c, r).ch == 0xBA)).collect();
        rows.len()
    };
    assert!(height(&tall) > 0 && height(&short) > 0);
}

#[test]
fn a_popup_below_a_cluster_still_lands_on_its_own_field() {
    let screen = Size::new(80, 25);
    let mut f = with_cluster(ClusterStyle::Radio);
    f.handle(FormEvent::Tab); // leave the cluster, onto the Choice
    f.handle(FormEvent::Enter); // open it
    let buf = flatten(render(&f, screen), screen);
    let field_row = find_row(&buf, "After").expect("the choice row");
    let popup_top = (0..buf.rows)
        .find(|&r| (0..buf.cols).any(|c| buf.get(c, r).ch == 0xDA))
        .expect("the popup frame");
    assert_eq!(popup_top, field_row + 1, "the popup hangs off its own field, not off a miscounted row");
}

#[test]
fn the_cluster_caret_wraps_and_enter_chooses_what_it_is_on() {
    let screen = Size::new(80, 25);
    let mut f = with_cluster(ClusterStyle::Radio);
    f.handle(FormEvent::Up); // wraps from the first item to the last
    let out = f.handle(FormEvent::Enter);
    assert_eq!(out.actions, vec![TestOp::B]);
    let buf = flatten(render(&f, screen), screen);
    let fast = find_row(&buf, "Fast").expect("first item");
    let slow = find_row(&buf, "Slow").expect("second item");
    assert_eq!(buf.get(col_of(&buf, fast, b'(') + 1, fast).ch, b' ', "a radio choice is exclusive");
    assert_eq!(buf.get(col_of(&buf, slow, b'(') + 1, slow).ch, 0x07);
    assert_eq!(f.focus(), 0, "arrows stay inside the cluster");
}

#[test]
fn enter_on_a_check_item_toggles_only_that_item() {
    let mut f = with_cluster(ClusterStyle::Check);
    let out = f.handle(FormEvent::Enter); // clears "Fast", which has no off action
    assert!(out.actions.is_empty());
    f.handle(FormEvent::Down);
    let out = f.handle(FormEvent::Enter);
    assert_eq!(out.actions, vec![TestOp::B]);
    match &f.fields()[0].kind {
        FieldKind::Cluster { items, cursor, .. } => {
            assert_eq!((items[0].on, items[1].on, *cursor), (false, true, 1));
        }
        _ => panic!("field 0 is a cluster"),
    }
}
