use terminologyyyy::scroll::{cells_in, Scroll};
use terminologyyyy::screen::{Color, Screen};

#[test]
fn new_window_follows_the_newest_lines() {
    let s = Scroll::new();
    assert_eq!(s.offset(), 0);
    assert_eq!(s.window(100, 30), (70, 100));
    assert_eq!(s.window(10, 30), (0, 10));
    assert_eq!(s.first_visible(0, 30), 0);
}

#[test]
fn scrolling_back_stops_at_the_oldest_line() {
    let mut s = Scroll::new();
    s.scroll_back(5, 100, 30);
    assert_eq!(s.offset(), 5);
    assert_eq!(s.window(100, 30), (65, 95));
    s.scroll_back(1000, 100, 30);
    assert_eq!(s.offset(), 70);
    assert_eq!(s.window(100, 30), (0, 30));
    s.scroll_back(3, 10, 30);
    assert_eq!(s.offset(), 0);
}

#[test]
fn scrolling_forward_stops_at_the_newest_line() {
    let mut s = Scroll::new();
    s.scroll_back(10, 100, 30);
    s.scroll_forward(4);
    assert_eq!(s.offset(), 6);
    s.scroll_forward(40);
    assert_eq!(s.offset(), 0);
}

#[test]
fn back_then_forward_returns() {
    let mut s = Scroll::new();
    s.scroll_back(7, 100, 30);
    s.scroll_back(9, 100, 30);
    s.scroll_forward(9);
    assert_eq!(s.offset(), 7);
}

#[test]
fn window_is_clamped_when_history_shrinks() {
    let mut s = Scroll::new();
    s.scroll_back(50, 100, 30);
    assert_eq!(s.window(40, 30), (0, 30));
    assert_eq!(s.window(1, 30), (0, 1));
}

#[test]
fn cells_fit_in_pixels() {
    assert_eq!(cells_in(720, 24), 30);
    assert_eq!(cells_in(730, 24), 30);
    assert_eq!(cells_in(10, 24), 1);
    assert_eq!(cells_in(0, 24), 1);
    assert_eq!(cells_in(1320, 11), 120);
}

#[test]
fn rows_text_shows_a_range_of_lines() {
    let mut s = Screen::new();
    for (i, w) in ["zero", "one", "two", "three"].iter().enumerate() {
        if i > 0 {
            s.new_line();
        }
        if i == 2 {
            s.set_foreground(Color::Magenta);
        }
        for c in w.chars() {
            s.push_char(c);
        }
    }
    assert_eq!(s.rows_text(1, 3), "one\ntwo");
    assert_eq!(s.rows_text(2, 2), "");
    assert_eq!(s.rows_text(0, 4), s.text());
    assert_eq!(
        s.rows_colors(1, 3),
        vec![
            Color::Default, Color::Default, Color::Default, Color::Default,
            Color::Magenta, Color::Magenta, Color::Magenta
        ]
    );
}
