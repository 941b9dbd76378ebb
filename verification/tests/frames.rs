use gemini_chat::render::{
    effective_width, frame_lines, render_block, size_or_default, terminal_size,
};

fn content_lines(block: &str) -> Vec<&str> {
    block.lines().filter(|l| l.starts_with('│')).collect()
}

fn border_lines(block: &str) -> Vec<&str> {
    block.lines().filter(|l| l.starts_with('╭') || l.starts_with('╰')).collect()
}

#[test]
fn render_is_deterministic() {
    let msg = "The quick brown fox jumps over the lazy dog, twice over.";
    assert_eq!(render_block(msg, 30), render_block(msg, 30));
    assert_eq!(render_block("", 10), render_block("", 10));
}

#[test]
fn every_content_line_has_the_frame_width() {
    let msg = "one two three four five six seven eight nine ten eleven twelve";
    let width = 24;
    let block = render_block(msg, width);
    let lines = content_lines(&block);
    assert!(lines.len() >= 2);
    for l in lines {
        assert_eq!(l.chars().count(), width);
    }
    for b in border_lines(&block) {
        assert_eq!(b.chars().count(), width);
    }
}

#[test]
fn no_wrapped_line_exceeds_interior_width() {
    // 60 letters with no space at all: the wrapper must hard-break and
    // still never exceed the sixteen interior columns of a width-20 frame.
    let msg = "a".repeat(60);
    let width = 20;
    let block = render_block(&msg, width);
    for l in content_lines(&block) {
        assert_eq!(l.chars().count(), width);
        let interior: Vec<char> = l.chars().skip(2).take(width - 4).collect();
        assert_eq!(interior.len(), width - 4);
    }
}

#[test]
fn empty_message_renders_one_blank_content_line() {
    let width = 12;
    let block = render_block("", width);
    let lines = content_lines(&block);
    assert_eq!(lines.len(), 1);
    let expected = format!("│ {} │", " ".repeat(width - 4));
    assert_eq!(lines[0], expected);
}

#[test]
fn wide_characters_pad_by_visible_columns() {
    // Two CJK characters span four columns, so a ten-column frame pads the
    // six-column interior with two spaces, not four.
    let block = render_block("你好", 10);
    let lines = content_lines(&block);
    assert_eq!(lines.len(), 1);
    assert_eq!(lines[0], "│ 你好   │");
}

#[test]
fn one_oversized_character_gets_zero_padding() {
    // U+17D8 spans three columns; in a width-6 frame the two-column interior
    // cannot hold it, so padding clamps at zero and the line runs over.
    let block = render_block("\u{17D8}", 6);
    assert_eq!(block, "\n╭────╮\n│ \u{17D8} │\n╰────╯\n");
}

#[test]
fn frame_shape_of_a_short_message() {
    let block = render_block("hi", 8);
    assert_eq!(block, "\n╭──────╮\n│ hi   │\n╰──────╯\n");
}

#[test]
fn narrow_widths_do_not_panic() {
    for width in 0..6 {
        let block = render_block("something long enough to wrap", width);
        assert!(!block.is_empty());
    }
}

#[test]
fn frame_lines_pads_every_given_line() {
    let lines = vec!["ab".to_string(), "".to_string(), "cdef".to_string()];
    let block = frame_lines(&lines, 10);
    assert_eq!(block, "\n╭────────╮\n│ ab     │\n│        │\n│ cdef   │\n╰────────╯\n");
}

#[test]
fn effective_width_caps_and_falls_back() {
    assert_eq!(effective_width(Some(120)), 100);
    assert_eq!(effective_width(Some(100)), 100);
    assert_eq!(effective_width(Some(42)), 42);
    assert_eq!(effective_width(None), 80);
}

#[test]
fn size_keeps_the_reported_pair_or_falls_back() {
    assert_eq!(size_or_default(Some((30, 40))), (30, 40));
    assert_eq!(size_or_default(Some((0, 0))), (0, 0));
    assert_eq!(size_or_default(None), (80, 24));
}

#[test]
fn terminal_size_stays_in_bounds() {
    let (w, h) = terminal_size();
    assert!(w <= 65535);
    assert!(h <= 65535);
}
