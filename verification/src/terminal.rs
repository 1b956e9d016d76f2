//! The escape-sequence state machine that turns a shell's output into
//! changes of the screen, and the replies that the shell asks for.
use vstd::prelude::*;

use crate::csi::{csi_params, parse_params};
use crate::screen::{
    effective_count, erased, erased_colors, lemma_cursor_row, lemma_put_char_reads_back,
    lemma_put_repeated_advances, lemma_put_repeated_cells, Color, Screen, ScreenView, MAX_LINES,
};
use crate::strings::string_push;

verus! {

/// Where the parser stands within an escape sequence.
#[derive(Clone, Copy, PartialEq, Eq, Debug, Structural)]
pub enum AnsiState {
    /// Plain text.
    Ground,
    /// Just after `ESC`.
    Escape,
    /// Inside a control sequence `ESC [ ...`.
    Csi,
    /// Inside an operating-system command `ESC ] ...`.
    Osc,
}

/// A control character: a code point of the Unicode general category Cc,
/// U+0000 to U+001F and U+007F to U+009F.
pub open spec fn is_control(c: char) -> bool {
    (c as u32) <= 0x1f || (0x7f <= (c as u32) && (c as u32) <= 0x9f)
}

/// The final character of a control sequence: `@` through `~`.
pub open spec fn is_final(c: char) -> bool {
    '\x40' <= c && c <= '~'
}

/// The first column after `x` that is a multiple of eight.
pub open spec fn next_tab_stop(x: int) -> int {
    (x / 8 + 1) * 8
}

/// The `i`-th parameter, or the default `d` where it is missing or empty.
pub open spec fn param_or(p: Seq<Option<u32>>, i: int, d: int) -> int {
    if 0 <= i < p.len() && p[i] is Some { p[i]->0 as int } else { d }
}

/// The first parameter, or the default `d`.
pub open spec fn first_or(p: Seq<Option<u32>>, d: int) -> int {
    param_or(p, 0, d)
}

/// The second parameter, or the default `d`.
pub open spec fn second_or(p: Seq<Option<u32>>, d: int) -> int {
    param_or(p, 1, d)
}

/// The foreground colour after one parameter of a select-graphic-rendition
/// sequence: 0, 39 or an empty parameter restore the default colour, 30 to
/// 37 choose black, red, green, yellow, blue, magenta, cyan or white, and
/// anything else leaves the colour as it is.
pub open spec fn sgr_color(c: Color, p: Option<u32>) -> Color {
    match p {
        None => Color::Default,
        Some(n) => {
            if n == 0 || n == 39 {
                Color::Default
            } else if n == 30 {
                Color::Black
            } else if n == 31 {
                Color::Red
            } else if n == 32 {
                Color::Green
            } else if n == 33 {
                Color::Yellow
            } else if n == 34 {
                Color::Blue
            } else if n == 35 {
                Color::Magenta
            } else if n == 36 {
                Color::Cyan
            } else if n == 37 {
                Color::White
            } else {
                c
            }
        },
    }
}

/// The foreground colour after all parameters of a select-graphic-rendition
/// sequence, applied in order.
pub open spec fn sgr_foreground(c: Color, ps: Seq<Option<u32>>) -> Color
    decreases ps.len(),
{
    if ps.len() == 0 {
        c
    } else {
        sgr_color(sgr_foreground(c, ps.drop_last()), ps.last())
    }
}

/// `n - 1`, or 0 when `n` is 0.
pub open spec fn one_based(n: int) -> int {
    if n > 0 { n - 1 } else { 0 }
}

/// The reply to a cursor-position request: row 1, column 1.
pub open spec fn cursor_report() -> Seq<char> {
    seq!['\x1b', '[', '1', ';', '1', 'R']
}

/// The screen after the control sequence with text `buf` and final
/// character `command`: cursor movement (`A` `B` `C` `D`), erase in line
/// (`K`), erase in display (`J`, modes 2 and 3 clear the screen), cursor
/// position (`H`, `f`, one-based) and the foreground colour (`m`); anything
/// else leaves the screen alone. A missing or empty parameter takes the
/// command's default.
pub open spec fn csi_screen(s: ScreenView, command: char, buf: Seq<char>) -> ScreenView {
    let p = csi_params(buf);
    if command == 'A' {
        s.moved_up(first_or(p, 1))
    } else if command == 'B' {
        s.moved_down(first_or(p, 1))
    } else if command == 'C' {
        s.moved_right(first_or(p, 1))
    } else if command == 'D' {
        s.moved_left(first_or(p, 1))
    } else if command == 'K' {
        s.line_erased(first_or(p, 0))
    } else if command == 'J' {
        if first_or(p, 0) == 2 || first_or(p, 0) == 3 {
            s.cleared()
        } else {
            s
        }
    } else if command == 'H' || command == 'f' {
        s.placed(one_based(second_or(p, 1)), one_based(first_or(p, 1)))
    } else if command == 'm' {
        s.with_foreground(sgr_foreground(s.foreground, p))
    } else {
        s
    }
}

/// What the shell is sent back for that control sequence: the cursor report
/// when the text is exactly `6` and the final character `n`, else nothing.
pub open spec fn csi_reply(command: char, buf: Seq<char>) -> Seq<char> {
    if command == 'n' && buf == seq!['6'] {
        cursor_report()
    } else {
        Seq::<char>::empty()
    }
}

/// Whether the control sequence can be carried out without a cursor
/// coordinate leaving the range of `usize`.
pub open spec fn csi_fits(s: ScreenView, command: char, buf: Seq<char>) -> bool {
    let p = csi_params(buf);
    if command == 'B' {
        s.cursor_y + effective_count(first_or(p, 1)) < usize::MAX
    } else if command == 'C' {
        s.cursor_x + effective_count(first_or(p, 1)) <= usize::MAX
    } else if command == 'K' {
        s.cursor_y < usize::MAX
    } else {
        true
    }
}

/// The mathematical content of a terminal: its screen, the parser state and
/// the text gathered so far of the control sequence being read.
pub struct TerminalView {
    pub screen: ScreenView,
    pub state: AnsiState,
    pub csi: Seq<char>,
}

impl TerminalView {
    pub open spec fn initial() -> TerminalView {
        TerminalView { screen: ScreenView::initial(), state: AnsiState::Ground, csi: Seq::empty() }
    }

    /// The screen is well shaped with the cursor's row existing, and the
    /// parser holds control-sequence text only while it reads a control
    /// sequence.
    pub open spec fn wf(self) -> bool {
        &&& self.screen.shaped()
        &&& self.screen.cursor_y < self.screen.lines.len()
        &&& (self.state != AnsiState::Csi ==> self.csi.len() == 0)
    }

    pub open spec fn with_screen(self, s: ScreenView) -> TerminalView {
        TerminalView { screen: s, state: self.state, csi: self.csi }
    }

    pub open spec fn with_state(self, st: AnsiState, csi: Seq<char>) -> TerminalView {
        TerminalView { screen: self.screen, state: st, csi: csi }
    }

    /// The terminal after reading one character of the shell's output.
    pub open spec fn step(self, ch: char) -> TerminalView {
        match self.state {
            AnsiState::Ground => {
                if ch == '\x1b' {
                    self.with_state(AnsiState::Escape, Seq::empty())
                } else if ch == '\n' {
                    self.with_screen(self.screen.on_next_line())
                } else if ch == '\r' {
                    self.with_screen(self.screen.at_line_start())
                } else if ch == '\x08' {
                    self.with_screen(self.screen.moved_left(1))
                } else if ch == '\x07' {
                    self
                } else if ch == '\t' {
                    self.with_screen(
                        self.screen.put_repeated(
                            ' ',
                            (next_tab_stop(self.screen.cursor_x) - self.screen.cursor_x) as nat,
                        ),
                    )
                } else if !is_control(ch) {
                    self.with_screen(self.screen.put_char(ch))
                } else {
                    self
                }
            },
            AnsiState::Escape => {
                if ch == '[' {
                    self.with_state(AnsiState::Csi, Seq::empty())
                } else if ch == ']' {
                    self.with_state(AnsiState::Osc, self.csi)
                } else {
                    self.with_state(AnsiState::Ground, self.csi)
                }
            },
            AnsiState::Csi => {
                if is_final(ch) {
                    TerminalView {
                        screen: csi_screen(self.screen, ch, self.csi),
                        state: AnsiState::Ground,
                        csi: Seq::empty(),
                    }
                } else if ch == '\x1b' {
                    self.with_state(AnsiState::Escape, Seq::empty())
                } else {
                    self.with_state(AnsiState::Csi, self.csi.push(ch))
                }
            },
            AnsiState::Osc => {
                if ch == '\x07' {
                    self.with_state(AnsiState::Ground, self.csi)
                } else if ch == '\x1b' {
                    self.with_state(AnsiState::Escape, Seq::empty())
                } else {
                    self
                }
            },
        }
    }

    /// What reading `ch` sends back to the shell.
    pub open spec fn reply_to(self, ch: char) -> Seq<char> {
        if self.state == AnsiState::Csi && is_final(ch) {
            csi_reply(ch, self.csi)
        } else {
            Seq::<char>::empty()
        }
    }

    /// Whether reading `ch` keeps the cursor coordinates within `usize`.
    pub open spec fn can_step(self, ch: char) -> bool {
        let x = self.screen.cursor_x;
        let y = self.screen.cursor_y;
        match self.state {
            AnsiState::Ground => {
                if ch == '\n' {
                    y + 1 < usize::MAX
                } else if ch == '\t' {
                    next_tab_stop(x) <= usize::MAX && y < usize::MAX
                } else if ch == '\x1b' || ch == '\r' || ch == '\x08' || ch == '\x07' {
                    true
                } else if !is_control(ch) {
                    x < usize::MAX && y < usize::MAX
                } else {
                    true
                }
            },
            AnsiState::Csi => is_final(ch) ==> csi_fits(self.screen, ch, self.csi),
            _ => true,
        }
    }

    /// The terminal after reading all of `s`.
    pub open spec fn run(self, s: Seq<char>) -> TerminalView
        decreases s.len(),
    {
        if s.len() == 0 {
            self
        } else {
            self.run(s.drop_last()).step(s.last())
        }
    }

    /// Everything reading `s` sends back to the shell, in order.
    pub open spec fn replies(self, s: Seq<char>) -> Seq<char>
        decreases s.len(),
    {
        if s.len() == 0 {
            Seq::<char>::empty()
        } else {
            self.replies(s.drop_last()) + self.run(s.drop_last()).reply_to(s.last())
        }
    }
}

/// A control sequence keeps the screen well shaped with the cursor's row
/// existing.
pub proof fn lemma_csi_screen_wf(s: ScreenView, command: char, buf: Seq<char>)
    requires
        s.shaped(),
        s.cursor_y < s.lines.len(),
    ensures
        csi_screen(s, command, buf).shaped(),
        csi_screen(s, command, buf).cursor_y < csi_screen(s, command, buf).lines.len(),
{
    let p = csi_params(buf);
    let up = s.cursor_y - effective_count(first_or(p, 1));
    lemma_cursor_row(s.with_cursor(s.cursor_x, if up < 0 { 0 } else { up }));
    lemma_cursor_row(s.with_cursor(s.cursor_x, s.cursor_y + effective_count(first_or(p, 1))));
    lemma_cursor_row(s.with_cursor(one_based(second_or(p, 1)), one_based(first_or(p, 1))));
    lemma_cursor_row(s);
    let e = s.with_cursor_row();
    let m = first_or(p, 0);
    assert(e.lines.update(e.cursor_y, erased(e.lines[e.cursor_y], e.cursor_x, m)).len() == e.lines.len());
    assert(erased(e.lines[e.cursor_y], e.cursor_x, m).len() == erased_colors(e.colors[e.cursor_y], e.cursor_x, m).len());
}

/// Every character read keeps the terminal well formed: the screen stays
/// within its shape and history limit with the cursor's row existing, and
/// control-sequence text is kept only inside a control sequence. The
/// initial terminal is well formed.
pub proof fn lemma_step_keeps_wf(v: TerminalView, ch: char)
    requires
        v.wf(),
    ensures
        TerminalView::initial().wf(),
        v.step(ch).wf(),
{
    let s = v.screen;
    lemma_cursor_row(s);
    lemma_cursor_row(s.with_cursor(0, s.cursor_y + 1));
    lemma_put_char_reads_back(s, ch);
    lemma_put_repeated_advances(s, ' ', (next_tab_stop(s.cursor_x) - s.cursor_x) as nat);
    lemma_csi_screen_wf(s, ch, v.csi);
}

/// Reading any text from a well-formed terminal leaves it well formed.
pub proof fn lemma_run_keeps_wf(v: TerminalView, s: Seq<char>)
    requires
        v.wf(),
    ensures
        v.run(s).wf(),
    decreases s.len(),
{
    if s.len() > 0 {
        lemma_run_keeps_wf(v, s.drop_last());
        lemma_step_keeps_wf(v.run(s.drop_last()), s.last());
    }
}

/// Output may arrive in pieces: reading `s` and then `t` leaves the terminal
/// as reading `s + t` at once does, and sends back the same replies.
pub proof fn lemma_run_in_pieces(v: TerminalView, s: Seq<char>, t: Seq<char>)
    ensures
        v.run(s + t) == v.run(s).run(t),
        v.replies(s + t) == v.replies(s) + v.run(s).replies(t),
    decreases t.len(),
{
    if t.len() == 0 {
        assert(s + t =~= s);
        assert(v.replies(s) + v.run(s).replies(t) =~= v.replies(s));
    } else {
        lemma_run_in_pieces(v, s, t.drop_last());
        assert((s + t).drop_last() =~= s + t.drop_last());
        assert((s + t).last() == t.last());
        assert(v.replies(s + t) =~= v.replies(s) + v.run(s).replies(t));
    }
}

/// A tab in plain text moves the cursor to the next column that is a
/// multiple of eight, on the same row, writing spaces over the way.
pub proof fn lemma_tab_reaches_stop(v: TerminalView)
    requires
        v.wf(),
        v.state == AnsiState::Ground,
    ensures
        v.step('\t').screen.cursor_x == next_tab_stop(v.screen.cursor_x),
        v.step('\t').screen.cursor_x % 8 == 0,
        v.screen.cursor_x < v.step('\t').screen.cursor_x <= v.screen.cursor_x + 8,
        v.step('\t').screen.cursor_y == v.screen.cursor_y,
        v.step('\t').state == AnsiState::Ground,
        forall|k: int|
            v.screen.cursor_x <= k < next_tab_stop(v.screen.cursor_x) ==> #[trigger] v.step(
                '\t',
            ).screen.lines[v.screen.cursor_y][k] == ' ',
        forall|k: int|
            0 <= k < v.screen.cursor_x ==> #[trigger] v.step('\t').screen.lines[v.screen.cursor_y][k] == (
            if k < v.screen.lines[v.screen.cursor_y].len() {
                v.screen.lines[v.screen.cursor_y][k]
            } else {
                ' '
            }),
{
    let x = v.screen.cursor_x;
    assert(x < next_tab_stop(x) <= x + 8) by (nonlinear_arith)
        requires
            x >= 0,
    ;
    assert(next_tab_stop(x) % 8 == 0) by (nonlinear_arith)
        requires
            x >= 0,
    ;
    lemma_put_repeated_advances(v.screen, ' ', (next_tab_stop(x) - x) as nat);
    lemma_put_repeated_cells(v.screen, ' ', (next_tab_stop(x) - x) as nat);
}

/// The control characters of plain text: a line feed moves the cursor to
/// the start of the next row (keeping every line while within the history
/// limit), a carriage return to the start of its row, a backspace one column
/// left (not past column 0); the bell and every other control character
/// except escape and tab change nothing. None of them leaves plain text or
/// sends anything back.
pub proof fn lemma_plain_controls(v: TerminalView, ch: char)
    requires
        v.wf(),
        v.state == AnsiState::Ground,
        is_control(ch),
        ch != '\x1b',
        ch != '\t',
    ensures
        ({
            let w = v.step(ch);
            let s = v.screen;
            &&& w.state == AnsiState::Ground
            &&& v.reply_to(ch).len() == 0
            &&& ch == '\n' && s.cursor_y + 1 < MAX_LINES ==> w.screen.cursor_x == 0
                && w.screen.cursor_y == s.cursor_y + 1
                && (forall|k: int| 0 <= k < s.lines.len() ==> #[trigger] w.screen.lines[k] == s.lines[k])
            &&& ch == '\r' ==> w.screen.cursor_x == 0 && w.screen.cursor_y == s.cursor_y && w.screen.lines == s.lines
            &&& ch == '\x08' ==> w.screen.cursor_x == (if s.cursor_x > 0 { s.cursor_x - 1 } else { 0 })
                && w.screen.cursor_y == s.cursor_y && w.screen.lines == s.lines
            &&& (ch != '\n' && ch != '\r' && ch != '\x08') ==> w == v
        }),
{
    lemma_cursor_row(v.screen.with_cursor(0, v.screen.cursor_y + 1));
}

/// How an escape starts: `ESC [` opens a control sequence with no text yet,
/// `ESC ]` an operating-system command, and any other character after `ESC`
/// is dropped, back in plain text. An operating-system command ends at BEL
/// (back in plain text) or at `ESC`, which starts a new escape, so that the
/// `\` of `ESC \` is dropped too. None of these touches the screen.
pub proof fn lemma_escape_states(v: TerminalView, ch: char)
    requires
        v.wf(),
    ensures
        v.state == AnsiState::Ground && ch == '\x1b' ==> v.step(ch).state == AnsiState::Escape,
        v.state == AnsiState::Escape && ch == '[' ==> v.step(ch).state == AnsiState::Csi
            && v.step(ch).csi.len() == 0,
        v.state == AnsiState::Escape && ch == ']' ==> v.step(ch).state == AnsiState::Osc,
        v.state == AnsiState::Escape && ch != '[' && ch != ']' ==> v.step(ch).state == AnsiState::Ground,
        v.state == AnsiState::Osc && ch == '\x07' ==> v.step(ch).state == AnsiState::Ground,
        v.state == AnsiState::Osc && ch == '\x1b' ==> v.step(ch).state == AnsiState::Escape,
        v.state == AnsiState::Osc && ch != '\x07' && ch != '\x1b' ==> v.step(ch).state == AnsiState::Osc,
        v.state == AnsiState::Csi && ch == '\x1b' ==> v.step(ch).state == AnsiState::Escape
            && v.step(ch).csi.len() == 0,
        (v.state == AnsiState::Ground && ch == '\x1b') || v.state == AnsiState::Escape || v.state
            == AnsiState::Osc ==> v.step(ch).screen == v.screen,
{
}

/// Inside an escape sequence the screen changes only at the final character
/// of a control sequence; every other character of a sequence leaves it alone.
pub proof fn lemma_sequences_wait_for_final(v: TerminalView, ch: char)
    requires
        v.state != AnsiState::Ground,
        !(v.state == AnsiState::Csi && is_final(ch)),
    ensures
        v.step(ch).screen == v.screen,
        v.reply_to(ch) == Seq::<char>::empty(),
{
}

/// The only thing ever sent back is the cursor report, and only for the
/// request `ESC [ 6 n`.
pub proof fn lemma_only_cursor_requests_reply(v: TerminalView, ch: char)
    requires
        v.reply_to(ch).len() > 0,
    ensures
        v.state == AnsiState::Csi,
        ch == 'n',
        v.csi == seq!['6'],
        v.reply_to(ch) == cursor_report(),
{
}

/// The screen after writing each character of `s` in turn at the advancing
/// cursor.
pub open spec fn put_text(screen: ScreenView, s: Seq<char>) -> ScreenView
    decreases s.len(),
{
    if s.len() == 0 {
        screen
    } else {
        put_text(screen, s.drop_last()).put_char(s.last())
    }
}

/// Plain text is written as it comes: reading characters that are not
/// control characters, in plain-text state, writes each of them at the
/// advancing cursor, stays in plain-text state and sends nothing back.
pub proof fn lemma_plain_text(v: TerminalView, s: Seq<char>)
    requires
        v.state == AnsiState::Ground,
        forall|i: int| 0 <= i < s.len() ==> !is_control(#[trigger] s[i]),
    ensures
        v.run(s) == v.with_screen(put_text(v.screen, s)),
        v.replies(s) == Seq::<char>::empty(),
    decreases s.len(),
{
    if s.len() > 0 {
        let t = s.drop_last();
        assert forall|i: int| 0 <= i < t.len() implies !is_control(#[trigger] t[i]) by {
            assert(t[i] == s[i]);
        }
        lemma_plain_text(v, t);
        assert(!is_control(s[s.len() - 1]));
        assert(v.replies(s) =~= Seq::<char>::empty());
    }
}

/// Inside a control sequence, characters that neither end it nor start a
/// new escape are gathered as its text.
pub proof fn lemma_csi_gathers(v: TerminalView, p: Seq<char>)
    requires
        v.state == AnsiState::Csi,
        forall|i: int| 0 <= i < p.len() ==> !is_final(#[trigger] p[i]) && p[i] != '\x1b',
    ensures
        v.run(p) == v.with_state(AnsiState::Csi, v.csi + p),
        v.replies(p) == Seq::<char>::empty(),
    decreases p.len(),
{
    if p.len() == 0 {
        assert(v.csi + p =~= v.csi);
    } else {
        let q = p.drop_last();
        assert forall|i: int| 0 <= i < q.len() implies !is_final(#[trigger] q[i]) && q[i] != '\x1b' by {
            assert(q[i] == p[i]);
        }
        lemma_csi_gathers(v, q);
        assert(!is_final(p[p.len() - 1]) && p[p.len() - 1] != '\x1b');
        assert((v.csi + q).push(p.last()) =~= v.csi + p);
        assert(v.replies(p) =~= Seq::<char>::empty());
    }
}

/// The characters of the control sequence `ESC [ p f`.
pub open spec fn control_sequence(p: Seq<char>, f: char) -> Seq<char> {
    seq!['\x1b', '['] + p + seq![f]
}

/// `ESC [` read in plain-text state starts an empty control sequence.
proof fn lemma_csi_introducer(v: TerminalView)
    requires
        v.state == AnsiState::Ground,
    ensures
        v.run(seq!['\x1b', '[']) == v.with_state(AnsiState::Csi, Seq::empty()),
        v.replies(seq!['\x1b', '[']) == Seq::<char>::empty(),
{
    let one = seq!['\x1b'];
    let two = seq!['\x1b', '['];
    assert(one.drop_last() =~= Seq::<char>::empty());
    assert(two.drop_last() =~= one);
    let e = v.step('\x1b');
    assert(v.run(Seq::<char>::empty()) == v);
    assert(v.replies(Seq::<char>::empty()) == Seq::<char>::empty());
    assert(one.last() == '\x1b');
    assert(two.last() == '[');
    assert(v.run(one) == e);
    assert(v.replies(one) =~= Seq::<char>::empty());
    assert(v.run(two) == e.step('['));
    assert(v.replies(two) =~= Seq::<char>::empty());
}

/// The final character of a control sequence carries it out.
proof fn lemma_csi_final(g: TerminalView, f: char)
    requires
        g.state == AnsiState::Csi,
        is_final(f),
    ensures
        g.run(seq![f]) == (TerminalView {
            screen: csi_screen(g.screen, f, g.csi),
            state: AnsiState::Ground,
            csi: Seq::empty(),
        }),
        g.replies(seq![f]) == csi_reply(f, g.csi),
{
    assert(seq![f].drop_last() =~= Seq::<char>::empty());
    assert(g.run(Seq::<char>::empty()) == g);
    assert(g.replies(Seq::<char>::empty()) == Seq::<char>::empty());
    assert(seq![f].last() == f);
    assert(g.replies(seq![f]) =~= g.reply_to(f));
}

/// A whole control sequence `ESC [ p f` read in plain-text state, where `p`
/// holds no final character and no escape and `f` is a final character,
/// changes the screen as `csi_screen` says for the text `p` and command `f`,
/// sends back `csi_reply` of them, and returns to plain text with no
/// sequence text kept; no character of `p` reaches the screen.
#[verifier::rlimit(50)]
pub proof fn lemma_csi_sequence(v: TerminalView, p: Seq<char>, f: char)
    requires
        v.state == AnsiState::Ground,
        forall|i: int| 0 <= i < p.len() ==> !is_final(#[trigger] p[i]) && p[i] != '\x1b',
        is_final(f),
    ensures
        v.run(control_sequence(p, f)) == (TerminalView {
            screen: csi_screen(v.screen, f, p),
            state: AnsiState::Ground,
            csi: Seq::empty(),
        }),
        v.replies(control_sequence(p, f)) == csi_reply(f, p),
{
    let head = seq!['\x1b', '['];
    let tail = p + seq![f];
    assert(control_sequence(p, f) =~= head + tail);
    lemma_run_in_pieces(v, head, tail);
    lemma_csi_introducer(v);
    let c = v.with_state(AnsiState::Csi, Seq::empty());
    lemma_run_in_pieces(c, p, seq![f]);
    lemma_csi_gathers(c, p);
    assert(Seq::<char>::empty() + p =~= p);
    let g = c.run(p);
    lemma_csi_final(g, f);
    assert(c.replies(tail) =~= csi_reply(f, p));
    assert(v.replies(head + tail) =~= csi_reply(f, p));
}

/// Cursor position: with parameters `r;c` (both at least one), `H` and `f`
/// put the cursor on row `r - 1` and column `c - 1`: the first parameter is
/// the row, the second the column. Rows up to the history limit keep every
/// existing line; a row beyond it scrolls the history so that the cursor
/// lands on the last kept row.
pub proof fn lemma_cursor_position(s: ScreenView, command: char, buf: Seq<char>, r: u32, c: u32)
    requires
        s.shaped(),
        command == 'H' || command == 'f',
        csi_params(buf) == seq![Some(r), Some(c)],
        r >= 1,
        c >= 1,
    ensures
        ({
            let w = csi_screen(s, command, buf);
            &&& w.cursor_x == c - 1
            &&& w.cursor_y == (if r - 1 < MAX_LINES { r - 1 } else { MAX_LINES - 1 })
            &&& w.cursor_y < w.lines.len() <= MAX_LINES
            &&& w.foreground == s.foreground
            &&& (r <= MAX_LINES ==> forall|k: int| 0 <= k < s.lines.len() ==> #[trigger] w.lines[k] == s.lines[k] && w.colors[k] == s.colors[k])
        }),
{
    let p = csi_params(buf);
    assert(first_or(p, 1) == r);
    assert(second_or(p, 1) == c);
    lemma_cursor_row(s.with_cursor(c - 1, r - 1));
}

/// `f` (horizontal and vertical position) does exactly what `H` (cursor
/// position) does, for every parameter text.
pub proof fn lemma_hvp_is_cursor_position(s: ScreenView, buf: Seq<char>)
    ensures
        csi_screen(s, 'f', buf) == csi_screen(s, 'H', buf),
        csi_reply('f', buf) == csi_reply('H', buf),
{
}

/// Cursor position with its parameters left out or empty goes to the first
/// row and column, keeping the lines.
pub proof fn lemma_cursor_position_defaults(s: ScreenView, command: char, buf: Seq<char>)
    requires
        s.shaped(),
        s.lines.len() > 0,
        command == 'H' || command == 'f',
        csi_params(buf) == seq![None::<u32>] || csi_params(buf) == seq![None::<u32>, None::<u32>],
    ensures
        csi_screen(s, command, buf).cursor_x == 0,
        csi_screen(s, command, buf).cursor_y == 0,
        csi_screen(s, command, buf).lines == s.lines,
{
    lemma_cursor_row(s.with_cursor(0, 0));
}

/// Cursor movement by `n` (zero meaning one), on a screen whose cursor row
/// exists: `C` adds to the column, `D` takes from it stopping at 0, `A`
/// takes from the row stopping at 0, `B` adds to the row (within the
/// history limit); the other coordinate and every existing line stay.
pub proof fn lemma_cursor_moves(s: ScreenView, command: char, buf: Seq<char>, n: u32)
    requires
        s.shaped(),
        s.cursor_y < s.lines.len(),
        csi_params(buf).len() >= 1,
        csi_params(buf)[0] == Some(n),
    ensures
        ({
            let w = csi_screen(s, command, buf);
            let m: int = if n == 0 { 1 } else { n as int };
            &&& command == 'C' ==> w.cursor_x == s.cursor_x + m && w.cursor_y == s.cursor_y && w.lines == s.lines
            &&& command == 'D' ==> w.cursor_x == (if s.cursor_x >= m { s.cursor_x - m } else { 0 })
                && w.cursor_y == s.cursor_y && w.lines == s.lines
            &&& command == 'A' ==> w.cursor_y == (if s.cursor_y >= m { s.cursor_y - m } else { 0 })
                && w.cursor_x == s.cursor_x && w.lines == s.lines
            &&& (command == 'B' && s.cursor_y + m < MAX_LINES) ==> w.cursor_y == s.cursor_y + m
                && w.cursor_x == s.cursor_x
                && (forall|k: int| 0 <= k < s.lines.len() ==> #[trigger] w.lines[k] == s.lines[k])
        }),
{
    let m: int = if n == 0 { 1 } else { n as int };
    lemma_cursor_row(s.with_cursor(s.cursor_x, if s.cursor_y >= m { s.cursor_y - m } else { 0 }));
    lemma_cursor_row(s.with_cursor(s.cursor_x, s.cursor_y + m));
}

/// Erase in display: modes 2 and 3 leave one empty line with the cursor at
/// the origin and the text colour kept; any other mode, or none, leaves the
/// screen as it is.
pub proof fn lemma_erase_in_display(s: ScreenView, buf: Seq<char>)
    ensures
        ({
            let p = csi_params(buf);
            let w = csi_screen(s, 'J', buf);
            &&& (p.len() >= 1 && (p[0] == Some(2u32) || p[0] == Some(3u32))) ==> {
                &&& w.lines == seq![Seq::<char>::empty()]
                &&& w.colors == seq![Seq::<Color>::empty()]
                &&& w.cursor_x == 0
                &&& w.cursor_y == 0
                &&& w.foreground == s.foreground
            }
            &&& (p.len() == 0 || !(p[0] == Some(2u32) || p[0] == Some(3u32))) ==> w == s
        }),
{
}

/// Erase in line takes its mode from the first parameter, 0 when it is
/// missing or empty (see `lemma_erase_in_line_cells` for what each mode does).
pub proof fn lemma_erase_in_line_mode(s: ScreenView, buf: Seq<char>)
    ensures
        ({
            let p = csi_params(buf);
            &&& (p.len() >= 1 && p[0] is Some) ==> csi_screen(s, 'K', buf) == s.line_erased(p[0]->0 as int)
            &&& (p.len() == 0 || p[0] is None) ==> csi_screen(s, 'K', buf) == s.line_erased(0)
        }),
{
}

/// Select graphic rendition: parameters 30 to 37 choose black, red, green,
/// yellow, blue, magenta, cyan and white, whatever the colour was, and these
/// eight are different from each other and from the default; 0, 39 and an
/// empty parameter restore the default; other parameters keep the colour.
pub proof fn lemma_sgr_colors(c: Color)
    ensures
        sgr_color(c, Some(30u32)) == Color::Black,
        sgr_color(c, Some(31u32)) == Color::Red,
        sgr_color(c, Some(32u32)) == Color::Green,
        sgr_color(c, Some(33u32)) == Color::Yellow,
        sgr_color(c, Some(34u32)) == Color::Blue,
        sgr_color(c, Some(35u32)) == Color::Magenta,
        sgr_color(c, Some(36u32)) == Color::Cyan,
        sgr_color(c, Some(37u32)) == Color::White,
        forall|a: u32, b: u32|
            30 <= a <= 37 && 30 <= b <= 37 && a != b ==> #[trigger] sgr_color(c, Some(a)) != #[trigger] sgr_color(
                c,
                Some(b),
            ),
        forall|a: u32| 30 <= a <= 37 ==> #[trigger] sgr_color(c, Some(a)) != Color::Default,
        sgr_color(c, Some(0u32)) == Color::Default,
        sgr_color(c, Some(39u32)) == Color::Default,
        sgr_color(c, None) == Color::Default,
        forall|a: u32| !(a == 0 || a == 39 || 30 <= a <= 37) ==> #[trigger] sgr_color(c, Some(a)) == c,
{
}

/// A select-graphic-rendition sequence changes only the colour of new text:
/// the last parameter that sets a colour wins; the text, the cells' colours
/// and the cursor stay.
pub proof fn lemma_sgr_sequence(s: ScreenView, buf: Seq<char>, a: u32)
    requires
        csi_params(buf).len() >= 1,
        csi_params(buf).last() == Some(a),
        30 <= a <= 37,
    ensures
        csi_screen(s, 'm', buf).foreground == sgr_color(Color::Default, Some(a)),
        csi_screen(s, 'm', buf).lines == s.lines,
        csi_screen(s, 'm', buf).colors == s.colors,
        csi_screen(s, 'm', buf).cursor_x == s.cursor_x,
        csi_screen(s, 'm', buf).cursor_y == s.cursor_y,
{
    let p = csi_params(buf);
    assert(p.drop_last().push(p.last()) =~= p);
}

/// The cursor report is sent for `ESC [ 6 n` and for nothing else.
pub proof fn lemma_cursor_report(command: char, buf: Seq<char>)
    ensures
        csi_reply('n', seq!['6']) == seq!['\x1b', '[', '1', ';', '1', 'R'],
        (command != 'n' || buf != seq!['6']) ==> csi_reply(command, buf).len() == 0,
{
}

/// Ordinary input always fits: with the cursor column at most a million and
/// a pending control sequence whose first parameter, if any, is at most a
/// million, every character can be read without a cursor coordinate leaving
/// the range of `usize`.
pub proof fn lemma_ordinary_input_fits(v: TerminalView, ch: char)
    requires
        v.wf(),
        v.screen.cursor_x <= 1_000_000,
        csi_params(v.csi).len() == 0 || csi_params(v.csi)[0] is None || csi_params(v.csi)[0]->0 <= 1_000_000,
    ensures
        v.can_step(ch),
{
    let x = v.screen.cursor_x;
    assert(next_tab_stop(x) <= x + 8) by (nonlinear_arith)
        requires
            x >= 0,
    ;
}

/// Whether `c` is a control character (see `is_control`).
pub fn char_is_control(c: char) -> (r: bool)
    ensures
        r == is_control(c),
{
    let n = c as u32;
    n <= 0x1f || (0x7f <= n && n <= 0x9f)
}

/// The foreground colour after one select-graphic-rendition parameter (see `sgr_color`).
pub fn apply_sgr(c: Color, p: Option<u32>) -> (r: Color)
    ensures
        r == sgr_color(c, p),
{
    match p {
        None => Color::Default,
        Some(n) => {
            if n == 0 || n == 39 {
                Color::Default
            } else if n == 30 {
                Color::Black
            } else if n == 31 {
                Color::Red
            } else if n == 32 {
                Color::Green
            } else if n == 33 {
                Color::Yellow
            } else if n == 34 {
                Color::Blue
            } else if n == 35 {
                Color::Magenta
            } else if n == 36 {
                Color::Cyan
            } else if n == 37 {
                Color::White
            } else {
                c
            }
        },
    }
}

/// The `i`-th parameter, or the default `d` (see `param_or`).
fn param(p: &Vec<Option<u32>>, i: usize, d: u32) -> (r: u32)
    ensures
        r == param_or(p@, i as int, d as int),
{
    if i < p.len() {
        match p[i] {
            Some(n) => n,
            None => d,
        }
    } else {
        d
    }
}

/// The screen together with the escape-sequence parser that drives it.
pub struct Terminal {
    screen: Screen,
    state: AnsiState,
    csi_buffer: Vec<char>,
}

/// What `Terminal::process` did with a piece of output.
pub struct Processed {
    /// Everything to send back to the shell, in order.
    pub reply: String,
    /// How many characters were read; fewer than all only when the next one
    /// would move a cursor coordinate out of the range of `usize`.
    pub consumed: usize,
}

impl View for Terminal {
    type V = TerminalView;

    closed spec fn view(&self) -> TerminalView {
        TerminalView { screen: self.screen@, state: self.state, csi: self.csi_buffer@ }
    }
}

impl Terminal {
    /// A terminal with an empty screen, reading plain text.
    pub fn new() -> (t: Self)
        ensures
            t@ == TerminalView::initial(),
            t@.wf(),
    {
        proof {
            lemma_step_keeps_wf(TerminalView::initial(), ' ');
        }
        Terminal { screen: Screen::new(), state: AnsiState::Ground, csi_buffer: Vec::new() }
    }

    /// The screen.
    pub fn screen(&self) -> (s: &Screen)
        ensures
            s@ == self@.screen,
    {
        &self.screen
    }

    /// The parser state.
    pub fn state(&self) -> (st: AnsiState)
        ensures
            st == self@.state,
    {
        self.state
    }

    /// Carries out the control sequence whose text has been gathered and
    /// whose final character is `command`, and returns what to send back to
    /// the shell, if anything (see `csi_screen` and `csi_reply`).
    pub fn execute_csi(&mut self, command: char) -> (reply: Option<String>)
        requires
            old(self)@.wf(),
            csi_fits(old(self)@.screen, command, old(self)@.csi),
        ensures
            final(self)@.wf(),
            final(self)@ == old(self)@.with_screen(
                csi_screen(old(self)@.screen, command, old(self)@.csi),
            ),
            reply is Some <==> csi_reply(command, old(self)@.csi).len() > 0,
            reply matches Some(r) ==> r@ == csi_reply(command, old(self)@.csi),
    {
        proof {
            lemma_csi_screen_wf(self@.screen, command, self@.csi);
        }
        let params = parse_params(&self.csi_buffer);
        let first_param = param(&params, 0, 1);
        if command == 'A' {
            self.screen.cursor_up(first_param as usize);
        } else if command == 'B' {
            self.screen.cursor_down(first_param as usize);
        } else if command == 'C' {
            self.screen.cursor_right(first_param as usize);
        } else if command == 'D' {
            self.screen.cursor_left(first_param as usize);
        } else if command == 'K' {
            let mode = param(&params, 0, 0);
            self.screen.erase_in_line(mode);
        } else if command == 'J' {
            let mode = param(&params, 0, 0);
            if mode == 2 || mode == 3 {
                self.screen.clear_screen();
            }
        } else if command == 'H' || command == 'f' {
            let row = (first_param as usize).saturating_sub(1);
            let col = (param(&params, 1, 1) as usize).saturating_sub(1);
            self.screen.move_to(col, row);
        } else if command == 'm' {
            let ghost start = self@.screen.foreground;
            let mut fg = self.screen.foreground();
            let n = params.len();
            for i in 0..n
                invariant
                    n == params@.len(),
                    fg == sgr_foreground(start, params@.take(i as int)),
            {
                assert(params@.take(i + 1).drop_last() =~= params@.take(i as int));
                fg = apply_sgr(fg, params[i]);
            }
            assert(params@.take(n as int) =~= params@);
            self.screen.set_foreground(fg);
        } else if command == 'n' {
            if self.csi_buffer.len() == 1 && self.csi_buffer[0] == '6' {
                assert(self.csi_buffer@ =~= seq!['6']);
                let r = String::from_str("\x1b[1;1R");
                proof {
                    reveal_strlit("\x1b[1;1R");
                }
                assert(r@ =~= cursor_report());
                return Some(r);
            }
        }
        None
    }

    /// Whether the control sequence ending in `command` keeps the cursor
    /// coordinates within `usize` (see `csi_fits`).
    fn csi_fits_now(&self, command: char) -> (r: bool)
        ensures
            r == csi_fits(self@.screen, command, self@.csi),
    {
        let params = parse_params(&self.csi_buffer);
        let first_param = param(&params, 0, 1);
        let count: usize = if first_param == 0 { 1 } else { first_param as usize };
        if command == 'B' {
            self.screen.cursor_y() < usize::MAX - count
        } else if command == 'C' {
            self.screen.cursor_x() <= usize::MAX - count
        } else if command == 'K' {
            self.screen.cursor_y() < usize::MAX
        } else {
            true
        }
    }

    /// Whether reading `ch` keeps the cursor coordinates within `usize` (see
    /// `TerminalView::can_step`).
    pub fn can_feed(&self, ch: char) -> (r: bool)
        ensures
            r == self@.can_step(ch),
    {
        let x = self.screen.cursor_x();
        let y = self.screen.cursor_y();
        match self.state {
            AnsiState::Ground => {
                if ch == '\n' {
                    y < usize::MAX - 1
                } else if ch == '\t' {
                    x / 8 < usize::MAX / 8 && y < usize::MAX
                } else if ch == '\x1b' || ch == '\r' || ch == '\x08' || ch == '\x07' {
                    true
                } else if !char_is_control(ch) {
                    x < usize::MAX && y < usize::MAX
                } else {
                    true
                }
            },
            AnsiState::Csi => {
                if '\x40' <= ch && ch <= '~' {
                    self.csi_fits_now(ch)
                } else {
                    true
                }
            },
            _ => true,
        }
    }

    /// Writes spaces from the cursor up to the next tab stop.
    fn tab(&mut self)
        requires
            old(self)@.wf(),
            next_tab_stop(old(self)@.screen.cursor_x) <= usize::MAX,
            old(self)@.screen.cursor_y < usize::MAX,
        ensures
            final(self)@ == old(self)@.with_screen(
                old(self)@.screen.put_repeated(
                    ' ',
                    (next_tab_stop(old(self)@.screen.cursor_x) - old(self)@.screen.cursor_x) as nat,
                ),
            ),
    {
        let x0 = self.screen.cursor_x();
        let next_tab = (x0 / 8 + 1) * 8;
        let ghost start = self@.screen;
        proof {
            lemma_put_repeated_advances(start, ' ', 0);
        }
        while self.screen.cursor_x() < next_tab
            invariant
                x0 == start.cursor_x,
                next_tab == next_tab_stop(x0 as int),
                next_tab <= usize::MAX,
                start.shaped(),
                start.cursor_y < start.lines.len(),
                x0 <= self@.screen.cursor_x <= next_tab,
                self@.screen.cursor_y == start.cursor_y,
                start.cursor_y < usize::MAX,
                self@.screen == start.put_repeated(' ', (self@.screen.cursor_x - x0) as nat),
                self@.screen.shaped(),
                self@.screen.cursor_y < self@.screen.lines.len(),
                self.state == old(self).state,
                self.csi_buffer@ == old(self).csi_buffer@,
            decreases next_tab - self@.screen.cursor_x,
        {
            let ghost k = (self@.screen.cursor_x - x0) as nat;
            self.screen.push_char(' ');
            proof {
                assert(start.put_repeated(' ', k + 1) == start.put_repeated(' ', k).put_char(' '));
                lemma_put_repeated_advances(start, ' ', k + 1);
            }
        }
    }

    /// Reads one character of the shell's output and returns what to send
    /// back to the shell, if anything (see `TerminalView::step` and
    /// `TerminalView::reply_to`).
    pub fn feed(&mut self, ch: char) -> (reply: Option<String>)
        requires
            old(self)@.wf(),
            old(self)@.can_step(ch),
        ensures
            final(self)@.wf(),
            final(self)@ == old(self)@.step(ch),
            reply is Some <==> old(self)@.reply_to(ch).len() > 0,
            reply matches Some(r) ==> r@ == old(self)@.reply_to(ch),
    {
        proof {
            lemma_step_keeps_wf(self@, ch);
        }
        match self.state {
            AnsiState::Ground => {
                if ch == '\x1b' {
                    self.state = AnsiState::Escape;
                    self.csi_buffer.clear();
                } else if ch == '\n' {
                    self.screen.new_line();
                } else if ch == '\r' {
                    self.screen.carriage_return();
                } else if ch == '\x08' {
                    self.screen.cursor_left(1);
                } else if ch == '\x07' {
                } else if ch == '\t' {
                    self.tab();
                } else if !char_is_control(ch) {
                    self.screen.push_char(ch);
                }
                None
            },
            AnsiState::Escape => {
                if ch == '[' {
                    self.csi_buffer.clear();
                    self.state = AnsiState::Csi;
                } else if ch == ']' {
                    self.state = AnsiState::Osc;
                } else {
                    self.state = AnsiState::Ground;
                }
                None
            },
            AnsiState::Csi => {
                if '\x40' <= ch && ch <= '~' {
                    let reply = self.execute_csi(ch);
                    self.csi_buffer.clear();
                    self.state = AnsiState::Ground;
                    reply
                } else if ch == '\x1b' {
                    self.csi_buffer.clear();
                    self.state = AnsiState::Escape;
                    None
                } else {
                    self.csi_buffer.push(ch);
                    None
                }
            },
            AnsiState::Osc => {
                if ch == '\x07' {
                    self.state = AnsiState::Ground;
                } else if ch == '\x1b' {
                    self.csi_buffer.clear();
                    self.state = AnsiState::Escape;
                }
                None
            },
        }
    }
    /// Reads a piece of the shell's output character by character (see
    /// `TerminalView::run`) and gathers what to send back to the shell. It
    /// stops early only before a character that would move a cursor
    /// coordinate out of the range of `usize`.
    pub fn process(&mut self, text: &str) -> (out: Processed)
        requires
            old(self)@.wf(),
        ensures
            final(self)@.wf(),
            out.consumed <= text@.len(),
            final(self)@ == old(self)@.run(text@.take(out.consumed as int)),
            out.reply@ == old(self)@.replies(text@.take(out.consumed as int)),
            out.consumed < text@.len() ==> !final(self)@.can_step(text@[out.consumed as int]),
    {
        let n = text.unicode_len();
        let mut reply = String::new();
        let mut consumed: usize = 0;
        let ghost start = self@;
        assert(text@.take(0) =~= Seq::<char>::empty());
        for ch in it: text.chars()
            invariant_except_break
                consumed == it.index(),
                it.seq() == text@,
                n == text@.len(),
                self@ == start.run(text@.take(consumed as int)),
                reply@ == start.replies(text@.take(consumed as int)),
                self@.wf(),
            ensures
                self@.wf(),
                consumed <= text@.len(),
                self@ == start.run(text@.take(consumed as int)),
                reply@ == start.replies(text@.take(consumed as int)),
                consumed < text@.len() ==> !self@.can_step(text@[consumed as int]),
        {
            if !self.can_feed(ch) {
                break;
            }
            let r = self.feed(ch);
            match r {
                Some(r) => reply.append(r.as_str()),
                None => {},
            }
            proof {
                let t = text@.take(consumed + 1);
                assert(t.drop_last() =~= text@.take(consumed as int));
                assert(t.last() == ch);
            }
            consumed = consumed + 1;
        }
        Processed { reply, consumed }
    }
}

} // verus!
