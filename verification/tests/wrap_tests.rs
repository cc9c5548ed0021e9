use bingo_board::layout::split_words;
use bingo_board::layout::wrap_spans;
use bingo_board::layout::wrap_text;
use bingo_board::layout::FontMetrics;
use bingo_board::layout::LineSpan;

fn metrics(line_height: u32, space_width: u32) -> FontMetrics {
    FontMetrics { ascent: 8, line_height, space_width }
}

#[test]
fn single_fitting_word_is_one_line() {
    // A word that already fits yields exactly one line equal to that word.
    let words = vec!["hello".to_string()];
    let widths = vec![30u32];
    let lines = wrap_text(&words, &widths, metrics(10, 5), 50, 40);
    assert_eq!(lines.len(), 1);
    assert_eq!(lines[0].text, "hello");
    assert_eq!(lines[0].y, 0);
}

#[test]
fn words_joined_with_single_spaces() {
    let words = vec!["a".to_string(), "b".to_string(), "c".to_string()];
    let widths = vec![10u32, 10, 10];
    // 10 + 5 + 10 + 5 + 10 = 40 <= 40: all on one line.
    let lines = wrap_text(&words, &widths, metrics(10, 5), 40, 100);
    assert_eq!(lines.len(), 1);
    assert_eq!(lines[0].text, "a b c");
}

#[test]
fn wrap_breaks_before_overflowing_width() {
    let widths = vec![20u32, 20, 20];
    // 20 + 5 + 20 = 45 > 40: two words never share a line.
    let spans = wrap_spans(&widths, 5, 10, 40, 100);
    assert_eq!(
        spans,
        vec![
            LineSpan { start: 0, end: 1, y: 0 },
            LineSpan { start: 1, end: 2, y: 10 },
            LineSpan { start: 2, end: 3, y: 20 },
        ]
    );
}

#[test]
fn oversized_word_stands_alone_unsplit() {
    // A word wider than the box occupies its own line; neighbours wrap around it.
    let widths = vec![10u32, 200, 10];
    let spans = wrap_spans(&widths, 1, 10, 50, 100);
    assert_eq!(
        spans,
        vec![
            LineSpan { start: 0, end: 1, y: 0 },
            LineSpan { start: 1, end: 2, y: 10 },
            LineSpan { start: 2, end: 3, y: 20 },
        ]
    );
}

#[test]
fn vertical_overflow_truncates_lines() {
    // Three one-word lines would be needed; only two fit in max_h = 25.
    let widths = vec![5u32, 5, 5];
    let spans = wrap_spans(&widths, 1, 10, 4, 25);
    assert_eq!(
        spans,
        vec![LineSpan { start: 0, end: 1, y: 0 }, LineSpan { start: 1, end: 2, y: 10 }]
    );
}

#[test]
fn line_height_taller_than_box_emits_nothing() {
    let widths = vec![5u32];
    let spans = wrap_spans(&widths, 1, 50, 100, 40);
    assert!(spans.is_empty());
}

#[test]
fn empty_input_yields_no_lines() {
    let widths: Vec<u32> = Vec::new();
    let spans = wrap_spans(&widths, 1, 10, 40, 100);
    assert!(spans.is_empty());
    let words: Vec<String> = Vec::new();
    let lines = wrap_text(&words, &widths, metrics(10, 1), 40, 100);
    assert!(lines.is_empty());
}

#[test]
fn split_words_on_whitespace() {
    let words = split_words("hello  world\tfoo\nbar");
    assert_eq!(words, vec!["hello", "world", "foo", "bar"]);
}

#[test]
fn split_words_empty_and_blank() {
    assert!(split_words("").is_empty());
    assert!(split_words("   \t \n ").is_empty());
}

#[test]
fn split_words_on_control_whitespace() {
    // Vertical tab and form feed separate words like tab and newline do.
    let words = split_words("a\u{000B}b\u{000C}c\rd");
    assert_eq!(words, vec!["a", "b", "c", "d"]);
    // A no-break space is not a separator here.
    let words2 = split_words("a\u{00A0}b");
    assert_eq!(words2, vec!["a\u{00A0}b"]);
}

#[test]
fn split_words_keeps_order_and_interior() {
    let words = split_words(" one two-three  four ");
    assert_eq!(words, vec!["one", "two-three", "four"]);
}

#[test]
fn greedy_wrap_packs_maximally() {
    // 10 + 2 + 10 = 22 <= 25, adding the third (22 + 2 + 10 = 34) overflows.
    let widths = vec![10u32, 10, 10];
    let spans = wrap_spans(&widths, 2, 10, 25, 100);
    assert_eq!(
        spans,
        vec![LineSpan { start: 0, end: 2, y: 0 }, LineSpan { start: 2, end: 3, y: 10 }]
    );
}
