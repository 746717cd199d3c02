use pictosend::pen::OffsetSpot;
use pictosend::pen::PenState;
use pictosend::pen::PenType;
use pictosend::typer::ArrayCoord;
use pictosend::typer::Typer;
use pictosend::typer::ATLAS_AREA;
use pictosend::typer::CANVAS_AREA;

fn atlas() -> Vec<u8> {
    // every atlas pixel holds its row index, so glyph rows are recognisable
    (0..ATLAS_AREA).map(|i| (i / 544) as u8).collect()
}

#[test]
fn pen_footprint_sizes() {
    assert_eq!(PenType::TinyPen.get_spots().len(), 1);
    assert_eq!(PenType::ThinPen.get_spots().len(), 9);
    assert_eq!(PenType::FatPen.get_spots().len(), 21);
    assert_eq!(PenType::HugePen.get_spots().len(), 45);
}

#[test]
fn pen_footprint_centre_first() {
    for pen in [PenType::TinyPen, PenType::ThinPen, PenType::FatPen, PenType::HugePen] {
        let spots = pen.get_spots();
        assert!(spots[0] == OffsetSpot { x: 0, y: 0 });
    }
}

#[test]
fn pen_swap_cycles_through_all_sizes() {
    let p0 = PenType::ThinPen;
    let p1 = p0.next();
    let p2 = p1.next();
    let p3 = p2.next();
    let p4 = p3.next();
    assert!(p1 == PenType::FatPen);
    assert!(p2 == PenType::HugePen);
    assert!(p3 == PenType::TinyPen);
    assert!(p4 == PenType::ThinPen);
}

#[test]
fn pen_state_holds_its_pen() {
    let s = PenState::new(PenType::FatPen);
    assert!(s.pentype == PenType::FatPen);
}

#[test]
fn coord_index_is_row_major_and_clamped() {
    assert_eq!(ArrayCoord::new(0, 0).to_index(), 0);
    assert_eq!(ArrayCoord::new(5, 3).to_index(), 605);
    assert_eq!(ArrayCoord::new(199, 199).to_index(), 39999);
    assert_eq!(ArrayCoord::new(250, 199).to_index(), 39999, "indexes clamp at the last cell");
}

#[test]
fn coord_set_overwrites_both_fields() {
    let mut c = ArrayCoord::new(1, 2);
    c.set(7, 9);
    assert!(c == ArrayCoord::new(7, 9));
}

#[test]
fn typing_starts_where_placed() {
    let mut t = Typer::new();
    assert!(!t.started);
    t.place_head_and_start(40, 60);
    assert!(t.started);
    assert!(t.head == ArrayCoord::new(40, 60));
    assert!(t.current_start == ArrayCoord::new(40, 60));
}

#[test]
fn letter_buffer_reads_the_glyph_cell() {
    let t = Typer::new();
    let guitex = atlas();
    // character 0x21 sits in grid column 1, row 2: atlas rows 69..85
    let cells = t.letter_buffer(0x21, &guitex);
    assert_eq!(cells.len(), 256);
    for row in 0..16 {
        for col in 0..16 {
            assert_eq!(cells[row * 16 + col], (69 + row) as u8);
        }
    }
}

#[test]
fn type_letter_copies_the_glyph_and_advances() {
    let mut t = Typer::new();
    t.place_head_and_start(10, 20);
    let mut canvas = vec![127u8; CANVAS_AREA];
    let guitex = atlas();
    t.type_letter(&mut canvas, b'A', &guitex); // grid column 1, row 4
    assert!(t.head == ArrayCoord::new(26, 20));
    let start = 20 * 200 + 10;
    for row in 0..16 {
        for col in 0..16 {
            assert_eq!(canvas[start + row * 200 + col], (137 + row) as u8);
        }
    }
    // a cell outside the glyph block is untouched
    assert_eq!(canvas[start - 1], 127);
    assert_eq!(canvas[start + 16], 127);
}

#[test]
fn newline_returns_to_start_column() {
    let mut t = Typer::new();
    t.place_head_and_start(30, 40);
    let mut canvas = vec![127u8; CANVAS_AREA];
    let guitex = atlas();
    t.type_letter(&mut canvas, 10, &guitex);
    assert!(t.head == ArrayCoord::new(30, 56));
    assert!(canvas.iter().all(|&b| b == 127), "a newline draws nothing");
}

#[test]
fn typing_wraps_at_the_right_margin() {
    let mut t = Typer::new();
    t.place_head_and_start(5, 0);
    t.head.set(190, 0); // past the margin: 190 >= 200 - 16
    let mut canvas = vec![127u8; CANVAS_AREA];
    let guitex = atlas();
    t.type_letter(&mut canvas, b'A', &guitex);
    assert!(t.head == ArrayCoord::new(21, 16), "wraps to the start column, one row down");
}

#[test]
fn backspace_steps_back_and_blanks() {
    let mut t = Typer::new();
    t.place_head_and_start(10, 20);
    let mut canvas = vec![0u8; CANVAS_AREA];
    let guitex = atlas();
    t.type_letter(&mut canvas, b'A', &guitex);
    t.backspace(&mut canvas);
    assert!(t.head == ArrayCoord::new(10, 20), "back on the glyph just typed");
    let start = 20 * 200 + 10;
    for row in 0..16 {
        for col in 0..16 {
            assert_eq!(canvas[start + row * 200 + col], 127, "the glyph cell is blanked");
        }
    }
    assert_eq!(canvas[start - 1], 0);
}

#[test]
fn backspace_at_line_start_climbs_a_row() {
    let mut t = Typer::new();
    t.place_head_and_start(40, 32);
    t.head.set(40, 48); // one line below the start
    let mut canvas = vec![0u8; CANVAS_AREA];
    t.backspace(&mut canvas);
    // remainder of 40 % 16 is 8: the head lands at column 176 + 8
    assert!(t.head == ArrayCoord::new(184, 32));
}
