use instant::lines::{Lines, Position};
use instant::text::Render;

#[test]
fn lines() {
    let lines = Lines::new("aaa\na\n\naaaa\n");
    assert_eq!(lines.position(0), Position { line: 1, column: 1 });
    assert_eq!(lines.position(1), Position { line: 1, column: 2 });
    assert_eq!(lines.position(4), Position { line: 2, column: 1 });
    assert_eq!(lines.position(7), Position { line: 4, column: 1 });
    assert_eq!(lines.position(10), Position { line: 4, column: 4 });
}

#[test]
fn position_on_a_line_break_belongs_to_the_line_it_ends() {
    let lines = Lines::new("aaa\na\n\naaaa\n");
    assert_eq!(lines.position(3), Position { line: 1, column: 4 });
    assert_eq!(lines.position(5), Position { line: 2, column: 2 });
    assert_eq!(lines.position(6), Position { line: 3, column: 1 });
    assert_eq!(lines.position(11), Position { line: 4, column: 5 });
}

#[test]
fn position_past_the_end_of_the_text() {
    let lines = Lines::new("aaa\na\n\naaaa\n");
    assert_eq!(lines.position(12), Position { line: 5, column: 1 });
    assert_eq!(lines.position(100), Position { line: 5, column: 89 });
}

#[test]
fn position_in_a_text_without_line_breaks() {
    let empty = Lines::new("");
    assert_eq!(empty.position(0), Position { line: 1, column: 1 });
    assert_eq!(empty.position(9), Position { line: 1, column: 10 });
    let one = Lines::new("a = 1; b");
    assert_eq!(one.position(7), Position { line: 1, column: 8 });
    assert_eq!(one.position(usize::MAX - 1), Position { line: 1, column: usize::MAX });
}

#[test]
fn line_breaks_are_byte_offsets() {
    let lines = Lines::new("\u{17c}\u{f3}\u{142}w\n\u{1f600}\nx");
    assert_eq!(lines.position(0), Position { line: 1, column: 1 });
    assert_eq!(lines.position(6), Position { line: 1, column: 7 });
    assert_eq!(lines.position(7), Position { line: 1, column: 8 });
    assert_eq!(lines.position(8), Position { line: 2, column: 1 });
    assert_eq!(lines.position(12), Position { line: 2, column: 5 });
    assert_eq!(lines.position(13), Position { line: 3, column: 1 });
}

#[test]
fn position_after_a_two_byte_character() {
    let lines = Lines::new("\u{e9}\nx");
    assert_eq!(lines.position(2), Position { line: 1, column: 3 });
    assert_eq!(lines.position(3), Position { line: 2, column: 1 });
}

#[test]
fn position_representation() {
    assert_eq!(Position { line: 1, column: 1 }.to_string(), "(line 1, column 1)");
    assert_eq!(Position { line: 12, column: 340 }.to_string(), "(line 12, column 340)");
    assert_eq!(
        Lines::new("a\nb\nc").position(4).to_string(),
        "(line 3, column 1)"
    );
}
