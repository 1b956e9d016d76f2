use terminologyyyy::screen::{Color, Screen, MAX_LINES};

fn lines(s: &Screen) -> Vec<String> {
    s.lines().clone()
}

fn cursor(s: &Screen) -> (usize, usize) {
    (s.cursor_x(), s.cursor_y())
}

fn write(s: &mut Screen, text: &str) {
    for c in text.chars() {
        s.push_char(c);
    }
}

/// A screen whose first line is `text`, cursor at its start.
fn with_line(text: &str) -> Screen {
    let mut s = Screen::new();
    write(&mut s, text);
    s.carriage_return();
    s
}

#[test]
fn new_screen_has_one_empty_line() {
    let s = Screen::new();
    assert_eq!(lines(&s), vec![String::new()]);
    assert_eq!(s.colors().clone(), vec![Vec::<Color>::new()]);
    assert_eq!(cursor(&s), (0, 0));
    assert_eq!(s.foreground(), Color::Default);
}

#[test]
fn push_char_appends_and_advances() {
    let mut s = Screen::new();
    s.push_char('h');
    s.push_char('i');
    assert_eq!(lines(&s), vec!["hi".to_string()]);
    assert_eq!(s.cursor_x(), 2);
}

#[test]
fn push_char_pads_with_spaces_past_the_end() {
    let mut s = Screen::new();
    s.cursor_right(3);
    s.push_char('a');
    assert_eq!(lines(&s), vec!["   a".to_string()]);
    assert_eq!(s.cursor_x(), 4);
}

#[test]
fn push_char_overwrites_inside_the_line() {
    let mut s = with_line("hello");
    s.cursor_right(1);
    s.push_char('a');
    assert_eq!(lines(&s), vec!["hallo".to_string()]);
    assert_eq!(s.cursor_x(), 2);
}

#[test]
fn push_char_counts_characters_not_bytes() {
    let mut s = with_line("héllo");
    s.cursor_right(2);
    s.push_char('L');
    assert_eq!(lines(&s), vec!["héLlo".to_string()]);
    s.cursor_left(2);
    s.push_char('e');
    assert_eq!(lines(&s), vec!["heLlo".to_string()]);
}

#[test]
fn push_char_records_the_foreground_colour() {
    let mut s = Screen::new();
    s.push_char('a');
    s.set_foreground(Color::Red);
    s.cursor_right(2);
    s.push_char('b');
    assert_eq!(lines(&s), vec!["a  b".to_string()]);
    assert_eq!(
        s.colors().clone(),
        vec![vec![Color::Default, Color::Default, Color::Default, Color::Red]]
    );
    s.carriage_return();
    s.set_foreground(Color::Green);
    s.push_char('c');
    assert_eq!(s.colors()[0][0], Color::Green);
}

#[test]
fn move_to_creates_the_row() {
    let mut s = Screen::new();
    s.move_to(4, 2);
    assert_eq!(lines(&s), vec![String::new(), String::new(), String::new()]);
    assert_eq!(cursor(&s), (4, 2));
    s.push_char('x');
    assert_eq!(lines(&s)[2], "    x".to_string());
}

#[test]
fn ensure_cursor_valid_keeps_existing_lines() {
    let mut s = with_line("keep");
    s.move_to(0, 3);
    assert_eq!(lines(&s), vec!["keep".to_string(), String::new(), String::new(), String::new()]);
    s.ensure_cursor_valid();
    assert_eq!(s.lines().len(), 4);
    s.move_to(0, 1);
    assert_eq!(s.lines().len(), 4);
}

#[test]
fn history_is_limited_to_max_lines() {
    let mut s = Screen::new();
    s.push_char('0');
    for i in 1..MAX_LINES {
        s.new_line();
        s.push_char(char::from(b'0' + (i % 10) as u8));
    }
    assert_eq!(s.lines().len(), MAX_LINES);
    assert_eq!(s.cursor_y(), MAX_LINES - 1);
    assert_eq!(lines(&s)[0], "0".to_string());
    s.new_line();
    assert_eq!(s.lines().len(), MAX_LINES);
    assert_eq!(s.cursor_y(), MAX_LINES - 1);
    assert_eq!(lines(&s)[0], "1".to_string());
    assert_eq!(lines(&s)[MAX_LINES - 1], String::new());
    assert_eq!(s.colors().len(), MAX_LINES);
}

#[test]
fn far_moves_keep_only_the_newest_lines() {
    let mut s = with_line("old");
    s.move_to(0, 2 * MAX_LINES);
    assert_eq!(s.lines().len(), MAX_LINES);
    assert_eq!(s.cursor_y(), MAX_LINES - 1);
    assert!(s.lines().iter().all(|l| l.is_empty()));
    let mut s = with_line("old");
    s.cursor_down(MAX_LINES);
    assert_eq!(s.lines().len(), MAX_LINES);
    assert_eq!(s.cursor_y(), MAX_LINES - 1);
    assert_eq!(lines(&s)[0], String::new());
}

#[test]
fn carriage_return_goes_to_column_zero() {
    let mut s = Screen::new();
    write(&mut s, "ab");
    s.carriage_return();
    assert_eq!(cursor(&s), (0, 0));
    s.push_char('X');
    assert_eq!(lines(&s), vec!["Xb".to_string()]);
}

#[test]
fn new_line_moves_down_and_creates_the_line() {
    let mut s = Screen::new();
    s.push_char('a');
    s.new_line();
    assert_eq!(cursor(&s), (0, 1));
    assert_eq!(lines(&s), vec!["a".to_string(), String::new()]);
}

#[test]
fn cursor_left_saturates_and_zero_means_one() {
    let mut s = Screen::new();
    s.cursor_right(5);
    s.cursor_left(0);
    assert_eq!(s.cursor_x(), 4);
    s.cursor_left(2);
    assert_eq!(s.cursor_x(), 2);
    s.cursor_left(10);
    assert_eq!(s.cursor_x(), 0);
}

#[test]
fn cursor_right_moves_and_zero_means_one() {
    let mut s = Screen::new();
    s.cursor_right(0);
    assert_eq!(s.cursor_x(), 1);
    s.cursor_right(7);
    assert_eq!(s.cursor_x(), 8);
    assert_eq!(s.lines().len(), 1);
}

#[test]
fn cursor_right_then_left_returns() {
    let mut s = Screen::new();
    s.cursor_right(3);
    s.cursor_right(4);
    s.cursor_left(4);
    assert_eq!(s.cursor_x(), 3);
}

#[test]
fn cursor_up_saturates() {
    let mut s = Screen::new();
    s.move_to(0, 3);
    s.cursor_up(0);
    assert_eq!(s.cursor_y(), 2);
    assert_eq!(s.lines().len(), 4);
    s.cursor_up(9);
    assert_eq!(s.cursor_y(), 0);
    assert_eq!(s.lines().len(), 4);
}

#[test]
fn cursor_down_creates_rows() {
    let mut s = Screen::new();
    s.cursor_down(0);
    assert_eq!(s.cursor_y(), 1);
    s.cursor_down(3);
    assert_eq!(s.cursor_y(), 4);
    assert_eq!(s.lines().len(), 5);
    s.cursor_up(3);
    assert_eq!(s.cursor_y(), 1);
    assert_eq!(s.lines().len(), 5);
}

#[test]
fn erase_mode_zero_cuts_at_cursor() {
    let mut s = with_line("abcdef");
    s.cursor_right(2);
    s.erase_in_line(0);
    assert_eq!(lines(&s), vec!["ab".to_string()]);
    assert_eq!(s.colors()[0].len(), 2);
    assert_eq!(s.cursor_x(), 2);
}

#[test]
fn erase_mode_zero_past_the_end_does_nothing() {
    let mut s = with_line("abc");
    s.cursor_right(3);
    s.erase_in_line(0);
    assert_eq!(lines(&s), vec!["abc".to_string()]);
}

#[test]
fn erase_mode_one_blanks_through_cursor() {
    let mut s = Screen::new();
    s.set_foreground(Color::Blue);
    write(&mut s, "abcdef");
    s.carriage_return();
    s.cursor_right(2);
    s.erase_in_line(1);
    assert_eq!(lines(&s), vec!["   def".to_string()]);
    assert_eq!(
        s.colors()[0].clone(),
        vec![Color::Default, Color::Default, Color::Default, Color::Blue, Color::Blue, Color::Blue]
    );
}

#[test]
fn erase_mode_one_past_the_end_blanks_the_line() {
    let mut s = with_line("ab");
    s.cursor_right(5);
    s.erase_in_line(1);
    assert_eq!(lines(&s), vec!["  ".to_string()]);
    let mut s = with_line("abc");
    s.cursor_right(2);
    s.erase_in_line(1);
    assert_eq!(lines(&s), vec!["   ".to_string()]);
}

#[test]
fn erase_mode_two_empties_line() {
    let mut s = with_line("abc");
    s.cursor_right(9);
    s.erase_in_line(2);
    assert_eq!(lines(&s), vec![String::new()]);
    assert_eq!(s.colors()[0].len(), 0);
    assert_eq!(s.cursor_x(), 9);
}

#[test]
fn erase_other_modes_do_nothing() {
    let mut s = with_line("abc");
    s.cursor_right(1);
    s.erase_in_line(3);
    s.erase_in_line(42);
    assert_eq!(lines(&s), vec!["abc".to_string()]);
}

#[test]
fn erase_creates_the_cursor_row() {
    let mut s = Screen::new();
    s.cursor_down(1);
    s.erase_in_line(0);
    assert_eq!(s.lines().len(), 2);
}

#[test]
fn clear_screen_resets_everything_but_the_colour() {
    let mut s = Screen::new();
    s.set_foreground(Color::Cyan);
    s.push_char('a');
    s.new_line();
    s.push_char('b');
    s.clear_screen();
    assert_eq!(lines(&s), vec![String::new()]);
    assert_eq!(s.colors().clone(), vec![Vec::<Color>::new()]);
    assert_eq!(cursor(&s), (0, 0));
    assert_eq!(s.foreground(), Color::Cyan);
}

#[test]
fn text_joins_lines_with_newlines() {
    let mut s = Screen::new();
    assert_eq!(s.text(), "");
    assert_eq!(s.text_colors(), Vec::<Color>::new());
    s.push_char('a');
    s.new_line();
    s.new_line();
    s.set_foreground(Color::Yellow);
    s.push_char('b');
    assert_eq!(s.text(), "a\n\nb");
    assert_eq!(
        s.text_colors(),
        vec![Color::Default, Color::Default, Color::Default, Color::Yellow]
    );
}

#[test]
fn writing_touches_only_the_cursor_row() {
    let mut s = Screen::new();
    write(&mut s, "one");
    s.new_line();
    write(&mut s, "two");
    s.new_line();
    write(&mut s, "three");
    s.move_to(0, 1);
    s.push_char('T');
    assert_eq!(lines(&s), vec!["one".to_string(), "Two".to_string(), "three".to_string()]);
}
