use bingo_board::board::bg_color;
use bingo_board::board::line_color;
use bingo_board::board::render;
use bingo_board::board::ShapedCell;
use bingo_board::errors::RenderError;
use bingo_board::layout::FontMetrics;

fn two_word_cell(a: &str, b: &str) -> ShapedCell {
    ShapedCell {
        words: vec![a.to_string(), b.to_string()],
        widths: vec![40, 40],
    }
}

fn metrics() -> FontMetrics {
    FontMetrics { ascent: 14, line_height: 21, space_width: 5 }
}

#[test]
fn five_by_five_board_is_680_square_with_grid() {
    let mut cells: Vec<ShapedCell> = Vec::new();
    for i in 0..25 {
        let first = format!("Item{i}");
        cells.push(two_word_cell(&first, "text"));
    }
    let (buf, plans) = render(5, &cells, 128, 20, metrics()).expect("well-formed board");
    assert_eq!(buf.width(), 680);
    assert_eq!(buf.height(), 680);
    assert_eq!(plans.len(), 25);
    // Six horizontal and six vertical grid lines, at multiples of 128 offset
    // by the 20 px padding.
    for i in 0..6u32 {
        let v = 20 + i * 128;
        for w in (20..660).step_by(37) {
            assert_eq!(buf.get_pixel(w, v), line_color());
            assert_eq!(buf.get_pixel(v, w), line_color());
        }
    }
    // Off-grid pixels keep the background; outside the grid span too.
    assert_eq!(buf.get_pixel(21, 21), bg_color());
    assert_eq!(buf.get_pixel(0, 0), bg_color());
    assert_eq!(buf.get_pixel(679, 679), bg_color());
    assert_eq!(buf.get_pixel(10, 20), bg_color());
}

#[test]
fn wrong_cell_count_is_dimension_mismatch() {
    let cells: Vec<ShapedCell> = vec![two_word_cell("only", "one")];
    let r = render(5, &cells, 128, 20, metrics());
    assert!(matches!(r, Err(RenderError::DimensionMismatch)));
    let empty: Vec<ShapedCell> = Vec::new();
    assert!(matches!(render(1, &empty, 128, 20, metrics()), Err(RenderError::DimensionMismatch)));
}

#[test]
fn minimal_board_renders() {
    let cells = vec![two_word_cell("tiny", "board")];
    let (buf, plans) = render(1, &cells, 64, 0, metrics()).expect("render");
    assert_eq!(buf.width(), 64);
    assert_eq!(buf.height(), 64);
    assert_eq!(plans.len(), 1);
    // With zero padding the trailing boundary line falls outside and is clamped.
    assert_eq!(buf.get_pixel(0, 0), line_color());
    assert_eq!(buf.get_pixel(63, 63), bg_color());
}

#[test]
fn cell_text_too_tall_is_truncated_not_an_error() {
    // Box is 128 - 20 = 108 px tall; at line height 30 only 3 of the 6
    // one-per-line words fit.
    let m = FontMetrics { ascent: 20, line_height: 30, space_width: 5 };
    let cell = ShapedCell {
        words: (0..6).map(|i| format!("w{i}")).collect(),
        widths: vec![100; 6],
    };
    let (_buf, plans) = render(1, &vec![cell], 128, 20, m).expect("render");
    assert_eq!(plans[0].len(), 3);
    assert_eq!(plans[0][0].text, "w0");
    assert_eq!(plans[0][2].text, "w2");
}

#[test]
fn planned_lines_sit_inside_their_cell_box() {
    let mut cells: Vec<ShapedCell> = Vec::new();
    for i in 0..4 {
        let first = format!("cell{i}");
        cells.push(two_word_cell(&first, "words"));
    }
    let (_buf, plans) = render(2, &cells, 128, 20, metrics()).expect("render");
    // Cell (row 1, col 0) has its text box at (20 + 10, 20 + 128 + 10).
    let lines = &plans[2];
    assert!(!lines.is_empty());
    for line in lines {
        assert_eq!(line.left, 30);
        assert_eq!(line.top, 158);
        // Baseline sits one ascent below the line top.
        assert!(line.baseline >= 14);
    }
    // Both 40 px words fit one 108 px line: "cell2 words" joined by a space.
    assert_eq!(lines[0].text, "cell2 words");
    assert_eq!(lines[0].baseline, 14);
}

#[test]
fn bingo_element_carries_content_and_weight() {
    let e = bingo_board::bingo_element::BingoElement::new("free space".to_string(), 3);
    assert_eq!(e.content, "free space");
    assert_eq!(e.probability, 3);
}
