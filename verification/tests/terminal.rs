use terminologyyyy::csi::{parse_params, parse_u32};
use terminologyyyy::screen::{Color, MAX_LINES};
use terminologyyyy::terminal::{apply_sgr, char_is_control, AnsiState, Terminal};

fn run(text: &str) -> (Terminal, String) {
    let mut t = Terminal::new();
    let out = t.process(text);
    assert_eq!(out.consumed, text.chars().count());
    (t, out.reply)
}

fn lines(t: &Terminal) -> Vec<String> {
    t.screen().lines().clone()
}

fn cursor(t: &Terminal) -> (usize, usize) {
    (t.screen().cursor_x(), t.screen().cursor_y())
}

fn chars(s: &str) -> Vec<char> {
    s.chars().collect()
}

#[test]
fn plain_text_and_line_endings() {
    let (t, reply) = run("hello\r\nworld");
    assert_eq!(lines(&t), vec!["hello".to_string(), "world".to_string()]);
    assert_eq!(cursor(&t), (5, 1));
    assert_eq!(reply, "");
    assert_eq!(t.state(), AnsiState::Ground);
}

#[test]
fn newline_alone_keeps_column_zero() {
    let (t, _) = run("ab\ncd");
    assert_eq!(lines(&t), vec!["ab".to_string(), "cd".to_string()]);
}

#[test]
fn tab_moves_to_next_multiple_of_eight() {
    let (t, _) = run("ab\tc");
    assert_eq!(lines(&t), vec!["ab      c".to_string()]);
    assert_eq!(cursor(&t), (9, 0));
    let (t, _) = run("12345678\tx");
    assert_eq!(lines(&t), vec!["12345678        x".to_string()]);
}

#[test]
fn tab_overwrites_with_spaces() {
    let (t, _) = run("abcdef\r\t");
    assert_eq!(lines(&t), vec!["        ".to_string()]);
    assert_eq!(cursor(&t), (8, 0));
}

#[test]
fn backspace_moves_left() {
    let (t, _) = run("abc\x08X");
    assert_eq!(lines(&t), vec!["abX".to_string()]);
    let (t, _) = run("\x08\x08a");
    assert_eq!(lines(&t), vec!["a".to_string()]);
}

#[test]
fn bell_and_other_controls_are_ignored() {
    let (t, _) = run("a\x07b\x01c\u{7f}d\u{85}e");
    assert_eq!(lines(&t), vec!["abcde".to_string()]);
}

#[test]
fn unicode_text_is_written_by_character() {
    let (t, _) = run("héllo wörld");
    assert_eq!(lines(&t), vec!["héllo wörld".to_string()]);
    assert_eq!(cursor(&t), (11, 0));
}

#[test]
fn csi_cursor_movement() {
    let (t, _) = run("\x1b[5C\x1b[2Bx");
    assert_eq!(lines(&t), vec![String::new(), String::new(), "     x".to_string()]);
    let (t, _) = run("\x1b[3B\x1b[2A\x1b[CX\x1b[DY");
    assert_eq!(lines(&t)[1], " Y".to_string());
    assert_eq!(cursor(&t), (2, 1));
}

#[test]
fn csi_zero_count_means_one() {
    let (t, _) = run("\x1b[0Cx");
    assert_eq!(lines(&t), vec![" x".to_string()]);
}

#[test]
fn csi_cursor_position() {
    let (t, _) = run("\x1b[3;5Hx");
    assert_eq!(lines(&t), vec![String::new(), String::new(), "    x".to_string()]);
    assert_eq!(cursor(&t), (5, 2));
}

#[test]
fn csi_cursor_position_defaults_to_origin() {
    let (t, _) = run("abc\r\ndef\x1b[HX");
    assert_eq!(lines(&t), vec!["Xbc".to_string(), "def".to_string()]);
    let (t, _) = run("abc\x1b[0;0fY");
    assert_eq!(lines(&t), vec!["Ybc".to_string()]);
    let (t, _) = run("abc\x1b[2Hz");
    assert_eq!(lines(&t), vec!["abc".to_string(), "z".to_string()]);
}

#[test]
fn csi_erase_in_line() {
    let (t, _) = run("abcdef\x1b[3D\x1b[K");
    assert_eq!(lines(&t), vec!["abc".to_string()]);
    let (t, _) = run("abcdef\x1b[3D\x1b[1K");
    assert_eq!(lines(&t), vec!["    ef".to_string()]);
    let (t, _) = run("ab\x1b[5C\x1b[1K");
    assert_eq!(lines(&t), vec!["  ".to_string()]);
    let (t, _) = run("abcdef\x1b[2K");
    assert_eq!(lines(&t), vec![String::new()]);
    assert_eq!(cursor(&t), (6, 0));
}

#[test]
fn csi_erase_display_clears_only_for_modes_two_and_three() {
    let (t, _) = run("ab\r\ncd\x1b[2J");
    assert_eq!(lines(&t), vec![String::new()]);
    assert_eq!(cursor(&t), (0, 0));
    let (t, _) = run("ab\x1b[3J");
    assert_eq!(lines(&t), vec![String::new()]);
    let (t, _) = run("ab\x1b[J\x1b[1J");
    assert_eq!(lines(&t), vec!["ab".to_string()]);
}

#[test]
fn cursor_position_request_is_answered() {
    let (t, reply) = run("ab\x1b[6nc");
    assert_eq!(reply, "\x1b[1;1R");
    assert_eq!(lines(&t), vec!["abc".to_string()]);
    let (_, reply) = run("\x1b[6n\x1b[6n");
    assert_eq!(reply, "\x1b[1;1R\x1b[1;1R");
}

#[test]
fn only_the_exact_request_is_answered() {
    let (_, reply) = run("\x1b[?6n\x1b[5n\x1b[06n");
    assert_eq!(reply, "");
}

#[test]
fn private_mode_sequences_are_ignored() {
    let (t, _) = run("a\x1b[?25lb\x1b[?2004hc");
    assert_eq!(lines(&t), vec!["abc".to_string()]);
}

#[test]
fn sgr_colors_are_skipped() {
    let (t, _) = run("\x1b[1;31mred\x1b[0m");
    assert_eq!(lines(&t), vec!["red".to_string()]);
}

#[test]
fn osc_is_skipped_until_bell_or_escape() {
    let (t, _) = run("\x1b]0;title\x07abc");
    assert_eq!(lines(&t), vec!["abc".to_string()]);
    let (t, _) = run("\x1b]0;title\x1b\\ab");
    assert_eq!(lines(&t), vec!["ab".to_string()]);
    assert_eq!(cursor(&t), (2, 0));
    assert_eq!(t.state(), AnsiState::Ground);
    let (t, _) = run("\x1b]0;t\x1b[2Cx");
    assert_eq!(lines(&t), vec!["  x".to_string()]);
}

#[test]
fn other_escapes_consume_one_character() {
    let (t, _) = run("\x1b(Bx");
    assert_eq!(lines(&t), vec!["Bx".to_string()]);
}

#[test]
fn escape_inside_csi_restarts() {
    let (t, _) = run("\x1b[12\x1b[3Cx");
    assert_eq!(lines(&t), vec!["   x".to_string()]);
}

#[test]
fn states_follow_the_sequence() {
    let mut t = Terminal::new();
    assert_eq!(t.state(), AnsiState::Ground);
    assert!(t.feed('\x1b').is_none());
    assert_eq!(t.state(), AnsiState::Escape);
    t.feed('[');
    assert_eq!(t.state(), AnsiState::Csi);
    t.feed('6');
    assert_eq!(t.state(), AnsiState::Csi);
    assert_eq!(t.feed('n'), Some("\x1b[1;1R".to_string()));
    assert_eq!(t.state(), AnsiState::Ground);
    t.feed('\x1b');
    t.feed(']');
    assert_eq!(t.state(), AnsiState::Osc);
    t.feed('\x07');
    assert_eq!(t.state(), AnsiState::Ground);
    t.feed('\x1b');
    t.feed(']');
    t.feed('\x1b');
    assert_eq!(t.state(), AnsiState::Escape);
    t.feed('\\');
    assert_eq!(t.state(), AnsiState::Ground);
}

#[test]
fn output_in_pieces_equals_output_at_once() {
    let whole = "ab\x1b[2Cc\x1b]0;t\x07\x1b[6nd\r\ne\tf";
    let (t1, r1) = run(whole);
    let mut t2 = Terminal::new();
    let mut r2 = String::new();
    for piece in ["ab\x1b", "[2", "Cc\x1b]0", ";t\x07\x1b[6", "nd\r", "\ne\tf"] {
        let out = t2.process(piece);
        assert_eq!(out.consumed, piece.chars().count());
        r2.push_str(&out.reply);
    }
    assert_eq!(lines(&t1), lines(&t2));
    assert_eq!(cursor(&t1), cursor(&t2));
    assert_eq!(r1, r2);
}

#[test]
fn plus_sign_and_empty_fields_in_parameters() {
    let (t, _) = run("\x1b[+3Cx");
    assert_eq!(lines(&t), vec!["   x".to_string()]);
    let (t, _) = run("\x1b[;5Hx");
    assert_eq!(cursor(&t), (5, 0));
    assert_eq!(lines(&t), vec!["    x".to_string()]);
    let (t, _) = run("\x1b[3;Hx");
    assert_eq!(cursor(&t), (1, 2));
    let (t, _) = run("\x1b[+;3Hx");
    assert_eq!(cursor(&t), (3, 0));
}

#[test]
fn oversized_parameter_is_dropped() {
    let (t, _) = run("\x1b[99999999999Cx");
    assert_eq!(lines(&t), vec![" x".to_string()]);
}

#[test]
fn large_moves_accumulate() {
    let mut t = Terminal::new();
    let out = t.process("\x1b[4294967295C\x1b[4294967295C");
    assert_eq!(out.consumed, 26);
    assert_eq!(t.screen().cursor_x(), 2 * 4294967295usize);
    assert!(t.can_feed('a'));
}

#[test]
fn can_feed_accepts_ordinary_input() {
    let t = Terminal::new();
    for c in ['a', '\n', '\t', '\x1b', '\r', '\x08', '\x07', '\x01'] {
        assert!(t.can_feed(c));
    }
}

#[test]
fn empty_output_changes_nothing() {
    let mut t = Terminal::new();
    let out = t.process("");
    assert_eq!(out.consumed, 0);
    assert_eq!(out.reply, "");
    assert_eq!(lines(&t), vec![String::new()]);
}

#[test]
fn execute_csi_uses_gathered_text() {
    let mut t = Terminal::new();
    t.feed('\x1b');
    t.feed('[');
    t.feed('2');
    t.feed(';');
    t.feed('4');
    assert!(t.execute_csi('H').is_none());
    assert_eq!(cursor(&t), (3, 1));
}

#[test]
fn control_classification() {
    assert!(char_is_control('\0'));
    assert!(char_is_control('\x1f'));
    assert!(!char_is_control(' '));
    assert!(char_is_control('\u{7f}'));
    assert!(char_is_control('\u{9f}'));
    assert!(!char_is_control('\u{a0}'));
    assert!(!char_is_control('é'));
    for c in ['\0', '\n', 'a', '\u{80}', '\u{9f}', '\u{a0}', '€'] {
        assert_eq!(char_is_control(c), c.is_control());
    }
}

#[test]
fn parameters_keep_their_positions() {
    let v = chars("?1;+2;;x;4294967295;4294967296;007");
    assert_eq!(
        parse_params(&v),
        vec![Some(1), Some(2), None, None, Some(4294967295), None, Some(7)]
    );
    assert_eq!(parse_params(&chars("")), vec![None]);
    assert_eq!(parse_params(&chars("??")), vec![None]);
    assert_eq!(parse_params(&chars("1?;2")), vec![None, Some(2)]);
    assert_eq!(parse_params(&chars(";")), vec![None, None]);
}

#[test]
fn numbers_parse_like_std() {
    for s in ["", "+", "-1", "12", "+12", "++1", "1a", "4294967295", "4294967296", "00", " 1"] {
        let v = chars(s);
        assert_eq!(parse_u32(&v, 0, v.len()), s.parse::<u32>().ok(), "{:?}", s);
    }
    let v = chars("x123y");
    assert_eq!(parse_u32(&v, 1, 4), Some(123));
}

fn colors_of(t: &Terminal) -> Vec<Vec<Color>> {
    t.screen().colors().clone()
}

#[test]
fn sgr_sets_and_resets_the_foreground() {
    let (t, _) = run("a\x1b[31mb\x1b[0mc\x1b[32md\x1b[me");
    assert_eq!(lines(&t), vec!["abcde".to_string()]);
    assert_eq!(
        colors_of(&t),
        vec![vec![Color::Default, Color::Red, Color::Default, Color::Green, Color::Default]]
    );
}

#[test]
fn sgr_applies_parameters_in_order() {
    let (t, _) = run("\x1b[1;34mx\x1b[35;0;36my\x1b[33;1mz\x1b[39mw\x1b[30;37mv");
    assert_eq!(
        colors_of(&t),
        vec![vec![Color::Blue, Color::Cyan, Color::Yellow, Color::Default, Color::White]]
    );
    let (t, _) = run("\x1b[31;mx");
    assert_eq!(colors_of(&t), vec![vec![Color::Default]]);
    let (t, _) = run("\x1b[30mx");
    assert_eq!(t.screen().foreground(), Color::Black);
    assert_eq!(colors_of(&t), vec![vec![Color::Black]]);
}

#[test]
fn sgr_colour_survives_clearing() {
    let (t, _) = run("\x1b[31mab\x1b[2Jc");
    assert_eq!(lines(&t), vec!["c".to_string()]);
    assert_eq!(colors_of(&t), vec![vec![Color::Red]]);
}

#[test]
fn output_scrolls_past_the_history_limit() {
    let mut text = String::new();
    for i in 0..(MAX_LINES + 10) {
        text.push_str(&format!("{}\r\n", i));
    }
    let (t, _) = run(&text);
    assert_eq!(t.screen().lines().len(), MAX_LINES);
    assert_eq!(lines(&t)[0], "11".to_string());
    assert_eq!(t.screen().cursor_y(), MAX_LINES - 1);
}

#[test]
fn sgr_parameter_mapping() {
    assert_eq!(apply_sgr(Color::Red, None), Color::Default);
    assert_eq!(apply_sgr(Color::Red, Some(0)), Color::Default);
    assert_eq!(apply_sgr(Color::Red, Some(39)), Color::Default);
    assert_eq!(apply_sgr(Color::Default, Some(36)), Color::Cyan);
    assert_eq!(apply_sgr(Color::Green, Some(1)), Color::Green);
    assert_eq!(apply_sgr(Color::Green, Some(38)), Color::Green);
}
