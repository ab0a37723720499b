use neovision::cell::{Cell, CellBuffer};
use neovision::cp437::{from_char, to_char, TABLE};
use neovision::cursor::{CursorShape, TextCursor};
use neovision::draw::{BoxChars, CellCanvas, CellDraw};
use neovision::geom::{Point, Rect, Size};
use neovision::layer::{Layer, LayerCell, LayerStack, SHADE_ATTR};

// --- cells and buffers ---

#[test]
fn cell_is_two_bytes() {
    assert_eq!(core::mem::size_of::<Cell>(), 2);
}

#[test]
fn cell_new_packs_attr_correctly() {
    let c = Cell::new(b'A', 0xF, 0x1, true);
    assert_eq!(c.ch, b'A');
    assert_eq!(c.attr, 0x9F); // blink=1, bg=1, fg=F
    assert_eq!(c.fg(), 0xF);
    assert_eq!(c.bg(), 0x1);
    assert!(c.blink());
}

#[test]
fn cell_blank_is_space_light_gray() {
    assert_eq!(Cell::blank().ch, b' ');
    assert_eq!(Cell::blank().fg(), 0x7);
    assert_eq!(Cell::blank().bg(), 0x0);
    assert!(!Cell::blank().blink());
}

#[test]
fn buffer_new_correct_size() {
    let buf = CellBuffer::new(80, 25);
    assert_eq!(buf.cols, 80);
    assert_eq!(buf.rows, 25);
    assert_eq!(buf.cells.len(), 80 * 25);
    assert_eq!(buf.cells[0], Cell::blank());
}

#[test]
fn buffer_get_set() {
    let mut buf = CellBuffer::new(4, 3);
    let c = Cell::new(b'X', 0xE, 0x1, false);
    buf.set(2, 1, c);
    assert_eq!(buf.get(2, 1), c);
    assert_eq!(buf.get(0, 0), Cell::blank());
}

#[test]
fn buffer_fill_row_bounded() {
    let mut buf = CellBuffer::new(4, 3);
    let c = Cell::new(b'-', 0x7, 0, false);
    buf.fill_row(1, c);
    assert_eq!(buf.get(0, 0), Cell::blank());
    assert_eq!(buf.get(0, 1), c);
    assert_eq!(buf.get(3, 1), c);
    assert_eq!(buf.get(0, 2), Cell::blank());
    // Out-of-bounds row is a no-op
    buf.fill_row(99, c);
}

#[test]
fn buffer_as_bytes_matches_vga_layout() {
    let mut buf = CellBuffer::new(2, 1);
    buf.set(0, 0, Cell { ch: b'A', attr: 0x1F });
    buf.set(1, 0, Cell { ch: b'B', attr: 0x2E });
    let bytes = buf.as_bytes();
    assert_eq!(bytes, &[b'A', 0x1F, b'B', 0x2E]);
}

fn fill_rows_with_chars(buf: &mut CellBuffer) {
    // Row r is filled with character b'0' + r
    for r in 0..buf.rows {
        for c in 0..buf.cols {
            buf.set(c, r, Cell::new(b'0' + r as u8, 0x7, 0, false));
        }
    }
}

#[test]
fn shift_up_moves_rows_and_blanks_bottom() {
    let mut buf = CellBuffer::new(3, 4);
    fill_rows_with_chars(&mut buf);
    buf.shift_up(1);
    assert_eq!(buf.get(0, 0).ch, b'1');
    assert_eq!(buf.get(0, 1).ch, b'2');
    assert_eq!(buf.get(0, 2).ch, b'3');
    assert_eq!(buf.get(0, 3), Cell::blank());
}

#[test]
fn shift_up_multiple_rows() {
    let mut buf = CellBuffer::new(2, 5);
    fill_rows_with_chars(&mut buf);
    buf.shift_up(3);
    assert_eq!(buf.get(0, 0).ch, b'3');
    assert_eq!(buf.get(0, 1).ch, b'4');
    assert_eq!(buf.get(0, 2), Cell::blank());
    assert_eq!(buf.get(0, 3), Cell::blank());
    assert_eq!(buf.get(0, 4), Cell::blank());
}

#[test]
fn shift_up_beyond_rows_clears_all() {
    let mut buf = CellBuffer::new(2, 3);
    fill_rows_with_chars(&mut buf);
    buf.shift_up(5);
    for r in 0..3 {
        assert_eq!(buf.get(0, r), Cell::blank());
    }
}

#[test]
fn shift_down_moves_rows_and_blanks_top() {
    let mut buf = CellBuffer::new(3, 4);
    fill_rows_with_chars(&mut buf);
    buf.shift_down(1);
    assert_eq!(buf.get(0, 0), Cell::blank());
    assert_eq!(buf.get(0, 1).ch, b'0');
    assert_eq!(buf.get(0, 2).ch, b'1');
    assert_eq!(buf.get(0, 3).ch, b'2');
}

#[test]
fn write_row_copies_cells() {
    let mut buf = CellBuffer::new(4, 2);
    let row = [
        Cell::new(b'A', 0, 0, false),
        Cell::new(b'B', 0, 0, false),
        Cell::new(b'C', 0, 0, false),
    ];
    buf.write_row(1, &row);
    assert_eq!(buf.get(0, 1).ch, b'A');
    assert_eq!(buf.get(1, 1).ch, b'B');
    assert_eq!(buf.get(2, 1).ch, b'C');
    assert_eq!(buf.get(3, 1), Cell::blank());
}

#[test]
fn write_row_truncates_oversize() {
    let mut buf = CellBuffer::new(2, 1);
    let row = [
        Cell::new(b'A', 0, 0, false),
        Cell::new(b'B', 0, 0, false),
        Cell::new(b'C', 0, 0, false),
    ];
    buf.write_row(0, &row);
    assert_eq!(buf.get(0, 0).ch, b'A');
    assert_eq!(buf.get(1, 0).ch, b'B');
}

#[test]
fn resize_clears_and_resizes() {
    let mut buf = CellBuffer::new(3, 3);
    fill_rows_with_chars(&mut buf);
    buf.resize(4, 2);
    assert_eq!(buf.cols, 4);
    assert_eq!(buf.rows, 2);
    assert_eq!(buf.cells.len(), 8);
    for c in &buf.cells {
        assert_eq!(*c, Cell::blank());
    }
}

#[test]
fn shift_down_beyond_rows_clears_all() {
    let mut buf = CellBuffer::new(2, 3);
    fill_rows_with_chars(&mut buf);
    buf.shift_down(7);
    for r in 0..3 {
        assert_eq!(buf.get(1, r), Cell::blank());
    }
}

#[test]
fn fill_covers_every_cell() {
    let mut buf = CellBuffer::new(3, 2);
    let c = Cell::new(b'*', 0x2, 0x4, true);
    buf.fill(c);
    for r in 0..2 {
        for col in 0..3 {
            assert_eq!(buf.get(col, r), c);
        }
    }
}

#[test]
fn attr_bits_round_trip_through_new() {
    for fg in 0..16u8 {
        for bg in 0..8u8 {
            for blink in [false, true] {
                let c = Cell::new(b'x', fg, bg, blink);
                assert_eq!((c.fg(), c.bg(), c.blink()), (fg, bg, blink));
            }
        }
    }
}

// --- geometry ---

#[test]
fn rect_edges_are_exclusive_on_right_and_bottom() {
    let r = Rect::new(2, 3, 4, 5);
    assert_eq!(r.left(), 2);
    assert_eq!(r.top(), 3);
    assert_eq!(r.right(), 6);
    assert_eq!(r.bottom(), 8);
}

#[test]
fn rect_contains_respects_exclusive_edges() {
    let r = Rect::new(1, 1, 2, 2);
    assert!(r.contains(Point::new(1, 1)));
    assert!(r.contains(Point::new(2, 2)));
    assert!(!r.contains(Point::new(3, 2)));
    assert!(!r.contains(Point::new(2, 3)));
    assert!(!r.contains(Point::new(0, 1)));
}

#[test]
fn intersect_overlapping_returns_common_area() {
    let a = Rect::new(0, 0, 4, 4);
    let b = Rect::new(2, 2, 4, 4);
    assert_eq!(a.intersect(&b), Some(Rect::new(2, 2, 2, 2)));
}

#[test]
fn intersect_disjoint_returns_none() {
    let a = Rect::new(0, 0, 2, 2);
    let b = Rect::new(5, 5, 2, 2);
    assert_eq!(a.intersect(&b), None);
}

#[test]
fn intersect_touching_edges_returns_none() {
    // a's exclusive right edge is 2, b starts at 2 — they share no cell.
    let a = Rect::new(0, 0, 2, 2);
    let b = Rect::new(2, 0, 2, 2);
    assert_eq!(a.intersect(&b), None);
}

#[test]
fn intersect_containment_returns_inner() {
    let outer = Rect::new(0, 0, 10, 10);
    let inner = Rect::new(3, 4, 2, 2);
    assert_eq!(outer.intersect(&inner), Some(inner));
    assert_eq!(inner.intersect(&outer), Some(inner));
}

#[test]
fn intersect_zero_size_returns_none() {
    let a = Rect::new(0, 0, 4, 4);
    let zero = Rect::new(1, 1, 0, 3);
    assert_eq!(a.intersect(&zero), None);
}

#[test]
fn size_is_empty_when_either_dimension_is_zero() {
    assert!(Size::new(0, 5).is_empty());
    assert!(Size::new(5, 0).is_empty());
    assert!(!Size::new(1, 1).is_empty());
}

#[test]
fn rect_edges_saturate_instead_of_overflowing() {
    let r = Rect::new(u16::MAX - 1, u16::MAX - 1, 10, 10);
    assert_eq!(r.right(), u16::MAX);
    assert_eq!(r.bottom(), u16::MAX);
    // A saturated rect still intersects the grid it overhangs.
    let screen = Rect::new(0, 0, u16::MAX, u16::MAX);
    assert_eq!(
        r.intersect(&screen),
        Some(Rect::new(u16::MAX - 1, u16::MAX - 1, 1, 1))
    );
}

#[test]
fn intersect_is_symmetric_on_a_partial_overlap() {
    let a = Rect::new(1, 2, 5, 3);
    let b = Rect::new(4, 0, 6, 4);
    assert_eq!(a.intersect(&b), b.intersect(&a));
    assert_eq!(a.intersect(&b), Some(Rect::new(4, 2, 2, 2)));
}

// --- cursor ---

#[test]
fn cursor_carries_position_and_shape() {
    let c = TextCursor { col: 5, row: 2, shape: CursorShape::Insert };
    assert_eq!((c.col, c.row), (5, 2));
    assert_eq!(c.shape, CursorShape::Insert);
}

// --- CP437 ---

#[test]
fn ascii_is_identity_over_its_whole_range() {
    for b in 0x20u8..=0x7E {
        assert_eq!(to_char(b), b as char, "byte {b:#04x}");
    }
}

#[test]
fn zero_renders_as_blank_not_nul() {
    assert_eq!(to_char(0x00), ' ');
}

#[test]
fn box_drawing_bytes_match_the_frame_glyphs() {
    assert_eq!(to_char(0xC9), '╔');
    assert_eq!(to_char(0xBB), '╗');
    assert_eq!(to_char(0xC8), '╚');
    assert_eq!(to_char(0xBC), '╝');
    assert_eq!(to_char(0xCD), '═');
    assert_eq!(to_char(0xBA), '║');
    assert_eq!(to_char(0xDA), '┌');
    assert_eq!(to_char(0xBF), '┐');
    assert_eq!(to_char(0xC0), '└');
    assert_eq!(to_char(0xD9), '┘');
    assert_eq!(to_char(0xC4), '─');
    assert_eq!(to_char(0xB3), '│');
}

#[test]
fn control_range_holds_graphic_symbols_not_control_codes() {
    assert_eq!(to_char(0x01), '☺');
    assert_eq!(to_char(0x0D), '♪');
    assert_eq!(to_char(0x1F), '▼');
}

#[test]
fn from_char_inverts_to_char_for_every_byte() {
    for b in 0u8..=255 {
        let ch = to_char(b);
        let back = from_char(ch).expect("every table glyph maps back");
        // Duplicated glyphs (0x00/0x20 are both a space) resolve to the
        // lower byte, so compare through the glyph rather than the byte.
        assert_eq!(to_char(back), ch, "byte {b:#04x} round trip");
    }
}

#[test]
fn space_round_trips_to_the_ascii_byte_not_the_zero_byte() {
    assert_eq!(from_char(' '), Some(0x20));
}

#[test]
fn chars_outside_the_repertoire_are_rejected() {
    assert_eq!(from_char('漢'), None);
    assert_eq!(from_char('€'), None);
}

#[test]
fn byte_7f_is_the_house_glyph_and_ascii_del_is_not_representable() {
    assert_eq!(to_char(0x7F), '⌂');
    assert_eq!(from_char('⌂'), Some(0x7F));
    assert_eq!(from_char('\u{7f}'), None);
}

#[test]
fn the_table_is_exactly_the_byte_range() {
    assert_eq!(TABLE.len(), 256);
}

#[test]
fn fold_maps_unrepresentable_chars_to_question_mark() {
    assert_eq!(neovision::cp437::fold('é'), 0x82);
    assert_eq!(neovision::cp437::fold('—'), b'?');
    assert_eq!(neovision::cp437::fold('A'), b'A');
}

// --- drawing ---

const ATTR: u8 = 0x1F;

#[test]
fn write_str_writes_chars_and_reports_count() {
    let mut buf = CellBuffer::new(8, 2);
    let n = buf.write_str(Point::new(1, 0), "Hi", ATTR);
    assert_eq!(n, 2);
    assert_eq!(buf.get(1, 0).ch, b'H');
    assert_eq!(buf.get(1, 0).attr, ATTR);
    assert_eq!(buf.get(2, 0).ch, b'i');
    assert_eq!(buf.get(0, 0), Cell::blank());
}

#[test]
fn write_str_truncates_at_the_right_edge() {
    let mut buf = CellBuffer::new(4, 1);
    let n = buf.write_str(Point::new(2, 0), "ABCD", ATTR);
    assert_eq!(n, 2);
    assert_eq!(buf.get(2, 0).ch, b'A');
    assert_eq!(buf.get(3, 0).ch, b'B');
}

#[test]
fn write_str_below_the_canvas_writes_nothing() {
    let mut buf = CellBuffer::new(4, 2);
    assert_eq!(buf.write_str(Point::new(0, 5), "ABC", ATTR), 0);
    assert_eq!(buf.get(0, 0), Cell::blank());
}

#[test]
fn write_str_starting_beyond_the_right_edge_writes_nothing() {
    let mut buf = CellBuffer::new(4, 2);
    assert_eq!(buf.write_str(Point::new(4, 0), "ABC", ATTR), 0);
    assert_eq!(buf.write_str(Point::new(99, 0), "ABC", ATTR), 0);
    for x in 0..4 {
        assert_eq!(buf.get(x, 0), Cell::blank());
    }
}

#[test]
fn write_str_folds_non_ascii_into_its_cp437_byte() {
    let mut buf = CellBuffer::new(4, 1);
    let n = buf.write_str(Point::new(0, 0), "aé", ATTR);
    assert_eq!(n, 2);
    assert_eq!(buf.get(0, 0).ch, b'a');
    assert_eq!(buf.get(1, 0).ch, 0x82); // 'é' is in the CP437 repertoire
}

#[test]
fn write_str_maps_chars_outside_cp437_to_question_mark() {
    let mut buf = CellBuffer::new(4, 1);
    // An em dash has no CP437 byte, unlike the box glyphs above it.
    let n = buf.write_str(Point::new(0, 0), "a—│", ATTR);
    assert_eq!(n, 3);
    assert_eq!(buf.get(0, 0).ch, b'a');
    assert_eq!(buf.get(1, 0).ch, b'?');
    assert_eq!(buf.get(2, 0).ch, 0xB3);
}

#[test]
fn write_str_writes_one_cell_per_char_regardless_of_utf8_width() {
    let mut buf = CellBuffer::new(8, 1);
    // Three chars, five UTF-8 bytes.
    assert_eq!(buf.write_str(Point::new(0, 0), "½¼x", ATTR), 3);
    assert_eq!(buf.get(0, 0).ch, 0xAB);
    assert_eq!(buf.get(1, 0).ch, 0xAC);
    assert_eq!(buf.get(2, 0).ch, b'x');
    assert_eq!(buf.get(3, 0), Cell::blank());
}

#[test]
fn fill_rect_fills_only_the_requested_region() {
    let mut buf = CellBuffer::new(4, 3);
    let c = Cell::new(b'#', 0x7, 0x0, false);
    buf.fill_rect(Rect::new(1, 1, 2, 1), c);
    assert_eq!(buf.get(1, 1), c);
    assert_eq!(buf.get(2, 1), c);
    assert_eq!(buf.get(0, 1), Cell::blank());
    assert_eq!(buf.get(3, 1), Cell::blank());
    assert_eq!(buf.get(1, 0), Cell::blank());
}

#[test]
fn fill_rect_clips_against_the_canvas() {
    let mut buf = CellBuffer::new(2, 2);
    let c = Cell::new(b'#', 0x7, 0x0, false);
    buf.fill_rect(Rect::new(1, 1, 9, 9), c);
    assert_eq!(buf.get(1, 1), c);
    assert_eq!(buf.get(0, 0), Cell::blank());
}

#[test]
fn drawing_into_a_layer_produces_opaque_cells() {
    let mut l = Layer::new(Point::new(5, 5), Size::new(4, 1));
    let n = l.write_str(Point::new(0, 0), "ok", ATTR);
    assert_eq!(n, 2);
    assert_eq!(l.get(0, 0), LayerCell::Opaque(Cell { ch: b'o', attr: ATTR }));
    assert_eq!(l.get(2, 0), LayerCell::Transparent);
}

#[test]
fn layer_canvas_size_is_layer_local_not_screen_relative() {
    let l = Layer::new(Point::new(70, 20), Size::new(4, 2));
    assert_eq!(CellCanvas::size(&l), Size::new(4, 2));
}

#[test]
fn draw_box_places_double_line_corners_and_edges() {
    let mut buf = CellBuffer::new(3, 3);
    buf.draw_box(Rect::new(0, 0, 3, 3), BoxChars::double(), ATTR);
    assert_eq!(buf.get(0, 0).ch, 0xC9); // top-left
    assert_eq!(buf.get(2, 0).ch, 0xBB); // top-right
    assert_eq!(buf.get(0, 2).ch, 0xC8); // bottom-left
    assert_eq!(buf.get(2, 2).ch, 0xBC); // bottom-right
    assert_eq!(buf.get(1, 0).ch, 0xCD); // top edge
    assert_eq!(buf.get(1, 2).ch, 0xCD); // bottom edge
    assert_eq!(buf.get(0, 1).ch, 0xBA); // left edge
    assert_eq!(buf.get(2, 1).ch, 0xBA); // right edge
    assert_eq!(buf.get(1, 1), Cell::blank()); // interior untouched
    assert_eq!(buf.get(0, 0).attr, ATTR);
}

#[test]
fn draw_box_single_line_uses_single_glyphs() {
    let mut buf = CellBuffer::new(3, 3);
    buf.draw_box(Rect::new(0, 0, 3, 3), BoxChars::single(), ATTR);
    assert_eq!(buf.get(0, 0).ch, 0xDA);
    assert_eq!(buf.get(2, 0).ch, 0xBF);
    assert_eq!(buf.get(0, 2).ch, 0xC0);
    assert_eq!(buf.get(2, 2).ch, 0xD9);
    assert_eq!(buf.get(1, 0).ch, 0xC4);
    assert_eq!(buf.get(0, 1).ch, 0xB3);
}

#[test]
fn draw_box_on_two_by_two_is_all_corners() {
    let mut buf = CellBuffer::new(2, 2);
    buf.draw_box(Rect::new(0, 0, 2, 2), BoxChars::double(), ATTR);
    assert_eq!(buf.get(0, 0).ch, 0xC9);
    assert_eq!(buf.get(1, 0).ch, 0xBB);
    assert_eq!(buf.get(0, 1).ch, 0xC8);
    assert_eq!(buf.get(1, 1).ch, 0xBC);
}

#[test]
fn draw_box_on_degenerate_rects_does_not_panic() {
    let mut buf = CellBuffer::new(4, 4);
    buf.draw_box(Rect::new(0, 0, 1, 1), BoxChars::double(), ATTR);
    buf.draw_box(Rect::new(1, 1, 0, 0), BoxChars::double(), ATTR);
    buf.draw_box(Rect::new(2, 2, 1, 3), BoxChars::double(), ATTR);
    // A 1x1 box collapses to a single cell; the last corner drawn wins.
    assert_eq!(buf.get(0, 0).ch, 0xBC);
}

#[test]
fn draw_box_clips_when_it_overhangs_the_canvas() {
    let mut buf = CellBuffer::new(3, 3);
    buf.draw_box(Rect::new(1, 1, 9, 9), BoxChars::double(), ATTR);
    assert_eq!(buf.get(1, 1).ch, 0xC9);
    assert_eq!(buf.get(0, 0), Cell::blank());
}

#[test]
fn box_chars_tee_glyphs_are_the_correct_cp437_bytes() {
    assert_eq!(BoxChars::single().tee_l, 0xC3);
    assert_eq!(BoxChars::single().tee_r, 0xB4);
    assert_eq!(BoxChars::single().tee_t, 0xC2);
    assert_eq!(BoxChars::single().tee_b, 0xC1);
    assert_eq!(BoxChars::double().tee_l, 0xCC);
    assert_eq!(BoxChars::double().tee_r, 0xB9);
    assert_eq!(BoxChars::double().tee_t, 0xCB);
    assert_eq!(BoxChars::double().tee_b, 0xCA);
}

#[test]
fn draw_hline_draws_a_run_and_clips() {
    let mut buf = CellBuffer::new(4, 2);
    buf.draw_hline(Point::new(1, 1), 9, 0xC4, ATTR);
    assert_eq!(buf.get(0, 1), Cell::blank());
    assert_eq!(buf.get(1, 1).ch, 0xC4);
    assert_eq!(buf.get(3, 1).ch, 0xC4);
    assert_eq!(buf.get(1, 1).attr, ATTR);
}

#[test]
fn draw_hline_zero_length_writes_nothing() {
    let mut buf = CellBuffer::new(4, 1);
    buf.draw_hline(Point::new(0, 0), 0, 0xC4, ATTR);
    assert_eq!(buf.get(0, 0), Cell::blank());
}

#[test]
fn draw_box_at_the_coordinate_limit_does_not_overflow() {
    let mut buf = CellBuffer::new(4, 4);
    buf.draw_box(Rect::new(u16::MAX, 0, 3, 1), BoxChars::double(), ATTR);
    buf.draw_box(Rect::new(0, u16::MAX, 1, 3), BoxChars::double(), ATTR);
    buf.draw_box(Rect::new(u16::MAX, u16::MAX, 5, 5), BoxChars::double(), ATTR);
    // All three rects are entirely offscreen, so nothing was drawn.
    for y in 0..4 {
        for x in 0..4 {
            assert_eq!(buf.get(x, y), Cell::blank());
        }
    }
}

#[test]
fn put_out_of_bounds_is_a_silent_noop() {
    let mut buf = CellBuffer::new(2, 2);
    buf.put(2, 0, Cell::new(b'Z', 1, 1, false));
    buf.put(0, 9, Cell::new(b'Z', 1, 1, false));
    for y in 0..2 {
        for x in 0..2 {
            assert_eq!(buf.get(x, y), Cell::blank());
        }
    }
}

// --- layers ---

fn cell(ch: u8) -> Cell {
    Cell::new(ch, 0x7, 0x0, false)
}

#[test]
fn new_layer_is_all_transparent() {
    let l = Layer::new(Point::new(0, 0), Size::new(3, 2));
    for y in 0..2 {
        for x in 0..3 {
            assert_eq!(l.get(x, y), LayerCell::Transparent);
        }
    }
}

#[test]
fn filled_layer_is_all_opaque() {
    let c = cell(b'#');
    let l = Layer::filled(Point::new(1, 1), Size::new(2, 2), c);
    assert_eq!(l.get(0, 0), LayerCell::Opaque(c));
    assert_eq!(l.get(1, 1), LayerCell::Opaque(c));
}

#[test]
fn set_get_round_trip_in_layer_local_coords() {
    let mut l = Layer::new(Point::new(10, 20), Size::new(4, 3));
    let c = cell(b'X');
    l.set(2, 1, LayerCell::Opaque(c));
    assert_eq!(l.get(2, 1), LayerCell::Opaque(c));
    // Origin does not shift local addressing.
    assert_eq!(l.get(0, 0), LayerCell::Transparent);
}

#[test]
fn set_out_of_bounds_is_a_silent_noop() {
    let mut l = Layer::new(Point::new(0, 0), Size::new(2, 2));
    l.set(2, 0, LayerCell::Shade);
    l.set(0, 2, LayerCell::Shade);
    l.set(99, 99, LayerCell::Shade);
    // Nothing was written and nothing panicked.
    assert_eq!(l.get(0, 0), LayerCell::Transparent);
    assert_eq!(l.get(1, 1), LayerCell::Transparent);
}

#[test]
fn get_out_of_bounds_returns_transparent() {
    let l = Layer::filled(Point::new(0, 0), Size::new(2, 2), cell(b'#'));
    assert_eq!(l.get(5, 5), LayerCell::Transparent);
}

#[test]
fn bounds_combines_origin_and_size() {
    let l = Layer::new(Point::new(7, 9), Size::new(4, 5));
    assert_eq!(l.bounds(), Rect::new(7, 9, 4, 5));
    assert_eq!(l.size(), Size::new(4, 5));
}

#[test]
fn shade_attr_is_dark_grey_on_black() {
    assert_eq!(SHADE_ATTR, 0x08);
    let c = Cell { ch: b'A', attr: SHADE_ATTR };
    assert_eq!(c.fg(), 0x8);
    assert_eq!(c.bg(), 0x0);
    assert!(!c.blink());
}

#[test]
fn indexing_is_row_major_and_not_transposed() {
    let mut l = Layer::new(Point::new(0, 0), Size::new(4, 2));
    l.set(3, 0, LayerCell::Opaque(cell(b'A')));
    l.set(0, 1, LayerCell::Opaque(cell(b'B')));
    assert_eq!(l.get(3, 0), LayerCell::Opaque(cell(b'A')));
    assert_eq!(l.get(0, 1), LayerCell::Opaque(cell(b'B')));
    // The transposed positions must be untouched.
    assert_eq!(l.get(0, 0), LayerCell::Transparent);
    assert_eq!(l.get(1, 0), LayerCell::Transparent);
}

fn base_filled(cols: u16, rows: u16, ch: u8) -> CellBuffer {
    let mut b = CellBuffer::new(cols, rows);
    for y in 0..rows {
        for x in 0..cols {
            b.set(x, y, Cell::new(ch, 0x7, 0x0, false));
        }
    }
    b
}

#[test]
fn empty_stack_composites_to_an_exact_copy_of_base() {
    let base = base_filled(4, 3, b'.');
    let mut out = CellBuffer::new(4, 3);
    LayerStack::new().composite(&base, &mut out);
    assert_eq!(out.cells, base.cells);
}

#[test]
fn opaque_overwrites_the_base_cell() {
    let base = base_filled(4, 3, b'.');
    let mut out = CellBuffer::new(4, 3);
    let mut stack = LayerStack::new();
    stack.push(Layer::filled(Point::new(1, 1), Size::new(2, 1), cell(b'#')));
    stack.composite(&base, &mut out);
    assert_eq!(out.get(1, 1).ch, b'#');
    assert_eq!(out.get(2, 1).ch, b'#');
    assert_eq!(out.get(0, 1).ch, b'.');
    assert_eq!(out.get(3, 1).ch, b'.');
}

#[test]
fn transparent_leaves_the_base_cell_untouched() {
    let base = base_filled(3, 3, b'.');
    let mut out = CellBuffer::new(3, 3);
    let mut stack = LayerStack::new();
    stack.push(Layer::new(Point::new(0, 0), Size::new(3, 3)));
    stack.composite(&base, &mut out);
    assert_eq!(out.cells, base.cells);
}

#[test]
fn shade_preserves_char_and_forces_shade_attr() {
    let base = base_filled(3, 1, b'A');
    let mut out = CellBuffer::new(3, 1);
    let mut stack = LayerStack::new();
    let mut l = Layer::new(Point::new(1, 0), Size::new(1, 1));
    l.set(0, 0, LayerCell::Shade);
    stack.push(l);
    stack.composite(&base, &mut out);
    assert_eq!(out.get(1, 0).ch, b'A');
    assert_eq!(out.get(1, 0).attr, SHADE_ATTR);
    // Neighbours untouched.
    assert_eq!(out.get(0, 0).attr, base.get(0, 0).attr);
}

#[test]
fn upper_layer_wins_where_layers_overlap() {
    let base = base_filled(4, 1, b'.');
    let mut out = CellBuffer::new(4, 1);
    let mut stack = LayerStack::new();
    stack.push(Layer::filled(Point::new(0, 0), Size::new(3, 1), cell(b'L')));
    stack.push(Layer::filled(Point::new(2, 0), Size::new(2, 1), cell(b'U')));
    stack.composite(&base, &mut out);
    assert_eq!(out.get(0, 0).ch, b'L');
    assert_eq!(out.get(1, 0).ch, b'L');
    assert_eq!(out.get(2, 0).ch, b'U'); // overlap: upper wins
    assert_eq!(out.get(3, 0).ch, b'U');
}

#[test]
fn layer_overhanging_right_edge_clips_instead_of_panicking() {
    let base = base_filled(3, 1, b'.');
    let mut out = CellBuffer::new(3, 1);
    let mut stack = LayerStack::new();
    stack.push(Layer::filled(Point::new(2, 0), Size::new(5, 1), cell(b'#')));
    stack.composite(&base, &mut out);
    assert_eq!(out.get(2, 0).ch, b'#');
    assert_eq!(out.get(0, 0).ch, b'.');
}

#[test]
fn layer_overhanging_bottom_edge_clips_instead_of_panicking() {
    let base = base_filled(1, 3, b'.');
    let mut out = CellBuffer::new(1, 3);
    let mut stack = LayerStack::new();
    stack.push(Layer::filled(Point::new(0, 2), Size::new(1, 9), cell(b'#')));
    stack.composite(&base, &mut out);
    assert_eq!(out.get(0, 2).ch, b'#');
    assert_eq!(out.get(0, 0).ch, b'.');
}

#[test]
fn layer_fully_offscreen_is_skipped() {
    let base = base_filled(2, 2, b'.');
    let mut out = CellBuffer::new(2, 2);
    let mut stack = LayerStack::new();
    stack.push(Layer::filled(Point::new(9, 9), Size::new(2, 2), cell(b'#')));
    stack.composite(&base, &mut out);
    assert_eq!(out.cells, base.cells);
}

#[test]
fn composite_resizes_a_mismatched_output_buffer() {
    let base = base_filled(4, 2, b'.');
    let mut out = CellBuffer::new(1, 1);
    LayerStack::new().composite(&base, &mut out);
    assert_eq!(out.cols, 4);
    assert_eq!(out.rows, 2);
    assert_eq!(out.cells, base.cells);
}

#[test]
fn stack_push_pop_and_len() {
    let mut stack = LayerStack::new();
    assert!(stack.is_empty());
    stack.push(Layer::new(Point::new(0, 0), Size::new(1, 1)));
    stack.push(Layer::new(Point::new(1, 1), Size::new(1, 1)));
    assert_eq!(stack.len(), 2);
    let popped = stack.pop().expect("layer");
    assert_eq!(popped.origin, Point::new(1, 1));
    assert_eq!(stack.len(), 1);
    stack.clear();
    assert!(stack.is_empty());
    assert!(stack.pop().is_none());
}

#[test]
fn top_mut_addresses_the_upper_layer() {
    let mut stack = LayerStack::new();
    stack.push(Layer::new(Point::new(0, 0), Size::new(2, 1)));
    stack.push(Layer::new(Point::new(0, 0), Size::new(2, 1)));
    stack.top_mut().expect("layer").set(0, 0, LayerCell::Opaque(cell(b'T')));
    assert_eq!(stack.get_mut(1).expect("layer").get(0, 0), LayerCell::Opaque(cell(b'T')));
    assert_eq!(stack.get_mut(0).expect("layer").get(0, 0), LayerCell::Transparent);
}

#[test]
fn fill_writes_the_requested_region_and_leaves_the_rest_untouched() {
    let mut l = Layer::new(Point::new(3, 3), Size::new(4, 4));
    l.fill(Rect::new(1, 1, 2, 2), LayerCell::Shade);
    assert_eq!(l.get(1, 1), LayerCell::Shade);
    assert_eq!(l.get(2, 1), LayerCell::Shade);
    assert_eq!(l.get(1, 2), LayerCell::Shade);
    assert_eq!(l.get(2, 2), LayerCell::Shade);
    assert_eq!(l.get(0, 0), LayerCell::Transparent);
    assert_eq!(l.get(3, 3), LayerCell::Transparent);
    assert_eq!(l.get(0, 1), LayerCell::Transparent);
}

#[test]
fn fill_clips_an_oversized_rect_without_panicking() {
    let mut l = Layer::new(Point::new(0, 0), Size::new(2, 2));
    l.fill(Rect::new(1, 1, 99, 99), LayerCell::Shade);
    assert_eq!(l.get(1, 1), LayerCell::Shade);
    assert_eq!(l.get(0, 0), LayerCell::Transparent);
}

#[test]
fn local_bounds_is_always_origin_zero_regardless_of_layer_origin() {
    let l = Layer::new(Point::new(70, 20), Size::new(4, 5));
    assert_eq!(l.local_bounds(), Rect::new(0, 0, 4, 5));
    assert_eq!(l.bounds(), Rect::new(70, 20, 4, 5));
}

#[test]
fn stack_get_and_iter_observe_bottom_to_top_order() {
    let mut stack = LayerStack::new();
    stack.push(Layer::new(Point::new(0, 0), Size::new(1, 1)));
    stack.push(Layer::new(Point::new(5, 5), Size::new(1, 1)));
    stack.push(Layer::new(Point::new(9, 9), Size::new(1, 1)));
    assert_eq!(stack.get(0).expect("layer").origin, Point::new(0, 0));
    assert_eq!(stack.get(1).expect("layer").origin, Point::new(5, 5));
    assert_eq!(stack.get(2).expect("layer").origin, Point::new(9, 9));
    assert!(stack.get(3).is_none());
    let origins: Vec<Point> = stack.iter().map(|l| l.origin).collect();
    assert_eq!(origins, vec![Point::new(0, 0), Point::new(5, 5), Point::new(9, 9)]);
}

#[test]
fn shade_darkens_a_lower_layers_opaque_cell_not_just_the_base() {
    let base = base_filled(3, 1, b'.');
    let mut out = CellBuffer::new(3, 1);
    let mut stack = LayerStack::new();
    stack.push(Layer::filled(Point::new(0, 0), Size::new(2, 1), Cell::new(b'P', 0xF, 0x0, false)));
    let mut shadow = Layer::new(Point::new(1, 0), Size::new(2, 1));
    shadow.set(0, 0, LayerCell::Shade);
    shadow.set(1, 0, LayerCell::Shade);
    stack.push(shadow);
    stack.composite(&base, &mut out);
    assert_eq!(out.get(1, 0).ch, b'P');
    assert_eq!(out.get(1, 0).attr, SHADE_ATTR);
    assert_eq!(out.get(2, 0).ch, b'.');
    assert_eq!(out.get(2, 0).attr, SHADE_ATTR);
    assert_eq!(out.get(0, 0).ch, b'P');
    assert_eq!(out.get(0, 0).attr, Cell::new(b'P', 0xF, 0x0, false).attr);
}

#[test]
fn crate_example_composites_a_blue_desktop() {
    let mut base = CellBuffer::new(80, 25);
    base.fill(Cell::new(b' ', 0x7, 0x1, false));
    let stack = LayerStack::new();
    let mut screen = CellBuffer::new(80, 25);
    stack.composite(&base, &mut screen);
    assert_eq!(screen.get(0, 0).bg(), 0x1);
}

#[test]
fn composite_rebuilds_an_output_of_other_dimensions_whatever_it_holds() {
    let base = CellBuffer::new(3, 1);
    // Dimensions disagree with `base`, and the cells do not even fill them.
    let mut out = CellBuffer { cells: Vec::new(), cols: 5, rows: 4 };
    let mut stack = LayerStack::new();
    stack.push(Layer::filled(Point::new(1, 0), Size::new(1, 1), Cell::new(b'#', 0xF, 0, false)));
    stack.composite(&base, &mut out);
    assert_eq!((out.cols, out.rows, out.cells.len()), (3, 1, 3));
    assert_eq!(out.get(1, 0).ch, b'#');
    assert_eq!(out.get(0, 0), base.get(0, 0));
}

#[test]
fn ascii_printables_map_to_their_own_byte_both_ways() {
    for b in 0x20u8..=0x7E {
        assert_eq!(to_char(b), b as char);
        assert_eq!(from_char(b as char), Some(b));
    }
}
