//! The screen buffer: lines of text, a foreground colour for each cell, the
//! cursor position and the colour that new text is written in. At most
//! `MAX_LINES` lines are kept; the oldest go first.
use vstd::prelude::*;

use crate::strings::string_push;

verus! {

/// How many lines of history the screen keeps.
pub const MAX_LINES: usize = 5000;

/// A foreground colour: the terminal's default or one of the eight ANSI colours.
#[derive(Clone, Copy, PartialEq, Eq, Debug, Structural)]
pub enum Color {
    Default,
    Black,
    Red,
    Green,
    Yellow,
    Blue,
    Magenta,
    Cyan,
    White,
}

/// `n` empty lines.
pub open spec fn blank_lines(n: nat) -> Seq<Seq<char>> {
    Seq::new(n, |i: int| Seq::<char>::empty())
}

/// The colours of `n` empty lines.
pub open spec fn blank_colors(n: nat) -> Seq<Seq<Color>> {
    Seq::new(n, |i: int| Seq::<Color>::empty())
}

/// `n` space characters.
pub open spec fn spaces(n: nat) -> Seq<char> {
    Seq::new(n, |i: int| ' ')
}

/// `n` cells of the default colour.
pub open spec fn default_colors(n: nat) -> Seq<Color> {
    Seq::new(n, |i: int| Color::Default)
}

/// A movement count of zero means one.
pub open spec fn effective_count(count: int) -> int {
    if count == 0 { 1 } else { count }
}

/// `line` after writing `ch` at column `x`: the character there is replaced,
/// or, past the end, the line is padded with spaces up to `x` first.
pub open spec fn written(line: Seq<char>, x: int, ch: char) -> Seq<char> {
    if x < line.len() {
        line.update(x, ch)
    } else {
        line + spaces((x - line.len()) as nat) + seq![ch]
    }
}

/// The colours of a line after writing a character of colour `c` at column
/// `x`; padding cells get the default colour.
pub open spec fn painted(colors: Seq<Color>, x: int, c: Color) -> Seq<Color> {
    if x < colors.len() {
        colors.update(x, c)
    } else {
        colors + default_colors((x - colors.len()) as nat) + seq![c]
    }
}

/// `line` after an erase-in-line request of the given mode at column `x`:
/// mode 0 cuts the line at the cursor, mode 1 blanks every cell from the
/// start of the line through the cursor, mode 2 empties the line, and any
/// other mode leaves it as it is.
pub open spec fn erased(line: Seq<char>, x: int, mode: int) -> Seq<char> {
    if mode == 0 {
        if x < line.len() { line.take(x) } else { line }
    } else if mode == 1 {
        Seq::new(line.len(), |i: int| if i <= x { ' ' } else { line[i] })
    } else if mode == 2 {
        Seq::<char>::empty()
    } else {
        line
    }
}

/// The colours of a line erased as in `erased`; blanked cells get the
/// default colour.
pub open spec fn erased_colors(colors: Seq<Color>, x: int, mode: int) -> Seq<Color> {
    if mode == 0 {
        if x < colors.len() { colors.take(x) } else { colors }
    } else if mode == 1 {
        Seq::new(colors.len(), |i: int| if i <= x { Color::Default } else { colors[i] })
    } else if mode == 2 {
        Seq::<Color>::empty()
    } else {
        colors
    }
}

/// The lines joined into one text, separated by newline characters.
pub open spec fn joined(lines: Seq<Seq<char>>) -> Seq<char>
    decreases lines.len(),
{
    if lines.len() == 0 {
        Seq::<char>::empty()
    } else if lines.len() == 1 {
        lines[0]
    } else {
        joined(lines.drop_last()) + seq!['\n'] + lines.last()
    }
}

/// The colours of `joined` text: each line's colours, with the default
/// colour for each separating newline.
pub open spec fn joined_colors(colors: Seq<Seq<Color>>) -> Seq<Color>
    decreases colors.len(),
{
    if colors.len() == 0 {
        Seq::<Color>::empty()
    } else if colors.len() == 1 {
        colors[0]
    } else {
        joined_colors(colors.drop_last()) + seq![Color::Default] + colors.last()
    }
}

/// The mathematical content of a screen: its lines as character sequences,
/// the colour of each cell, the cursor's column and row, and the colour
/// that new text is written in.
pub struct ScreenView {
    pub lines: Seq<Seq<char>>,
    pub colors: Seq<Seq<Color>>,
    pub cursor_x: int,
    pub cursor_y: int,
    pub foreground: Color,
}

impl ScreenView {
    /// The screen just created: one empty line, cursor at the origin,
    /// default colour.
    pub open spec fn initial() -> ScreenView {
        ScreenView {
            lines: seq![Seq::<char>::empty()],
            colors: seq![Seq::<Color>::empty()],
            cursor_x: 0,
            cursor_y: 0,
            foreground: Color::Default,
        }
    }

    /// At most `MAX_LINES` lines, every line with one colour per character,
    /// and cursor coordinates that are not negative.
    pub open spec fn shaped(self) -> bool {
        &&& self.lines.len() <= MAX_LINES
        &&& self.colors.len() == self.lines.len()
        &&& forall|i: int| 0 <= i < self.lines.len() ==> #[trigger] self.colors[i].len() == self.lines[i].len()
        &&& self.cursor_x >= 0
        &&& self.cursor_y >= 0
    }

    pub open spec fn with_cursor(self, x: int, y: int) -> ScreenView {
        ScreenView { lines: self.lines, colors: self.colors, cursor_x: x, cursor_y: y, foreground: self.foreground }
    }

    pub open spec fn with_rows(self, lines: Seq<Seq<char>>, colors: Seq<Seq<Color>>) -> ScreenView {
        ScreenView { lines, colors, cursor_x: self.cursor_x, cursor_y: self.cursor_y, foreground: self.foreground }
    }

    /// The colour that new text is written in set to `c`.
    pub open spec fn with_foreground(self, c: Color) -> ScreenView {
        ScreenView { lines: self.lines, colors: self.colors, cursor_x: self.cursor_x, cursor_y: self.cursor_y, foreground: c }
    }

    /// Empty lines appended until the cursor's row exists.
    pub open spec fn extended(self) -> ScreenView {
        if self.cursor_y < self.lines.len() {
            self
        } else {
            let n = (self.cursor_y + 1 - self.lines.len()) as nat;
            self.with_rows(self.lines + blank_lines(n), self.colors + blank_colors(n))
        }
    }

    /// The oldest lines beyond `MAX_LINES` dropped, the cursor's row moved
    /// up with the text.
    pub open spec fn trimmed(self) -> ScreenView {
        if self.lines.len() > MAX_LINES {
            let d = self.lines.len() - MAX_LINES;
            self.with_rows(self.lines.skip(d), self.colors.skip(d)).with_cursor(
                self.cursor_x,
                self.cursor_y - d,
            )
        } else {
            self
        }
    }

    /// The cursor's row made to exist, then the history cut to `MAX_LINES`.
    pub open spec fn with_cursor_row(self) -> ScreenView {
        self.extended().trimmed()
    }

    /// Writes `ch` in the current colour at the cursor and moves the cursor
    /// one column right.
    pub open spec fn put_char(self, ch: char) -> ScreenView {
        let s = self.with_cursor_row();
        ScreenView {
            lines: s.lines.update(s.cursor_y, written(s.lines[s.cursor_y], s.cursor_x, ch)),
            colors: s.colors.update(s.cursor_y, painted(s.colors[s.cursor_y], s.cursor_x, s.foreground)),
            cursor_x: s.cursor_x + 1,
            cursor_y: s.cursor_y,
            foreground: s.foreground,
        }
    }

    /// `ch` written `n` times in a row at the advancing cursor.
    pub open spec fn put_repeated(self, ch: char, n: nat) -> ScreenView
        decreases n,
    {
        if n == 0 {
            self
        } else {
            self.put_repeated(ch, (n - 1) as nat).put_char(ch)
        }
    }

    /// The cursor moved to the start of its line.
    pub open spec fn at_line_start(self) -> ScreenView {
        self.with_cursor(0, self.cursor_y)
    }

    /// The cursor moved to the start of the next line, which is created if needed.
    pub open spec fn on_next_line(self) -> ScreenView {
        self.with_cursor(0, self.cursor_y + 1).with_cursor_row()
    }

    /// The cursor moved `count` columns left (zero meaning one), stopping at column 0.
    pub open spec fn moved_left(self, count: int) -> ScreenView {
        let x = self.cursor_x - effective_count(count);
        self.with_cursor(if x < 0 { 0 } else { x }, self.cursor_y)
    }

    /// The cursor moved `count` columns right (zero meaning one).
    pub open spec fn moved_right(self, count: int) -> ScreenView {
        self.with_cursor(self.cursor_x + effective_count(count), self.cursor_y)
    }

    /// The cursor moved `count` rows up (zero meaning one), stopping at row 0.
    pub open spec fn moved_up(self, count: int) -> ScreenView {
        let y = self.cursor_y - effective_count(count);
        self.with_cursor(self.cursor_x, if y < 0 { 0 } else { y }).with_cursor_row()
    }

    /// The cursor moved `count` rows down (zero meaning one), rows created as needed.
    pub open spec fn moved_down(self, count: int) -> ScreenView {
        self.with_cursor(self.cursor_x, self.cursor_y + effective_count(count)).with_cursor_row()
    }

    /// The cursor's line erased in the given mode (see `erased`).
    pub open spec fn line_erased(self, mode: int) -> ScreenView {
        let s = self.with_cursor_row();
        s.with_rows(
            s.lines.update(s.cursor_y, erased(s.lines[s.cursor_y], s.cursor_x, mode)),
            s.colors.update(s.cursor_y, erased_colors(s.colors[s.cursor_y], s.cursor_x, mode)),
        )
    }

    /// The cursor placed at column `x` of row `y`, the row created if needed.
    pub open spec fn placed(self, x: int, y: int) -> ScreenView {
        self.with_cursor(x, y).with_cursor_row()
    }

    /// The screen emptied to one empty line, cursor at the origin; the
    /// colour for new text is kept.
    pub open spec fn cleared(self) -> ScreenView {
        ScreenView::initial().with_foreground(self.foreground)
    }

    /// The text of the screen: its lines separated by newlines.
    pub open spec fn text(self) -> Seq<char> {
        joined(self.lines)
    }

    /// The colour of each character of `text`.
    pub open spec fn text_colors(self) -> Seq<Color> {
        joined_colors(self.colors)
    }
}

/// Making the cursor's row exist keeps the screen well shaped and within
/// `MAX_LINES` lines, leaves the cursor's row existing, and changes nothing
/// when done a second time. When no history has to go, the lines that were
/// there stay where they were, new lines are empty and the cursor stays; when
/// history has to go, the remaining lines are the newest ones, in order.
pub proof fn lemma_cursor_row(v: ScreenView)
    requires
        v.shaped(),
    ensures
        ({
            let r = v.with_cursor_row();
            let e = v.extended();
            let d = e.lines.len() - r.lines.len();
            &&& r.shaped()
            &&& r.cursor_y < r.lines.len() <= MAX_LINES
            &&& r.with_cursor_row() == r
            &&& r.cursor_x == v.cursor_x
            &&& r.foreground == v.foreground
            &&& r.cursor_y == v.cursor_y - d
            &&& e.lines.len() == (if v.lines.len() > v.cursor_y { v.lines.len() as int } else { v.cursor_y + 1 })
            &&& r.lines.len() == (if e.lines.len() > MAX_LINES { MAX_LINES as int } else { e.lines.len() as int })
            &&& d >= 0
            &&& forall|k: int| 0 <= k < r.lines.len() ==> #[trigger] r.lines[k] == e.lines[k + d]
            &&& forall|k: int| 0 <= k < r.lines.len() ==> #[trigger] r.colors[k] == e.colors[k + d]
            &&& forall|k: int| 0 <= k < v.lines.len() ==> #[trigger] e.lines[k] == v.lines[k]
            &&& forall|k: int| v.lines.len() <= k < e.lines.len() ==> #[trigger] e.lines[k] == Seq::<char>::empty()
            &&& (v.cursor_y < MAX_LINES ==> d == 0 && r == e)
        }),
{
    let r = v.with_cursor_row();
    let e = v.extended();
    assert(r.with_cursor_row().lines =~= r.lines);
    assert(r.with_cursor_row().colors =~= r.colors);
}

/// A written character reads back: after writing `ch`, the cursor's row
/// holds `ch`, in the current colour, at the cursor's column; the columns
/// before it keep their characters (or are blank, in the default colour,
/// where the line was shorter); and the cursor stands one column further
/// right on the same row.
pub proof fn lemma_put_char_reads_back(v: ScreenView, ch: char)
    requires
        v.shaped(),
    ensures
        ({
            let s = v.with_cursor_row();
            let w = v.put_char(ch);
            let y = s.cursor_y;
            let x = s.cursor_x;
            let old_line = s.lines[y];
            let line = w.lines[y];
            &&& w.shaped()
            &&& w.cursor_x == x + 1
            &&& w.cursor_y == y
            &&& line.len() == if x < old_line.len() { old_line.len() as int } else { x + 1 }
            &&& line[x] == ch
            &&& w.colors[y][x] == v.foreground
            &&& forall|k: int|
                0 <= k < x ==> #[trigger] line[k] == if k < old_line.len() { old_line[k] } else { ' ' }
            &&& forall|k: int|
                0 <= k < x ==> #[trigger] w.colors[y][k] == if k < old_line.len() {
                    s.colors[y][k]
                } else {
                    Color::Default
                }
        }),
{
    lemma_cursor_row(v);
    let s = v.with_cursor_row();
    let w = v.put_char(ch);
    let y = s.cursor_y;
    let x = s.cursor_x;
    let old_line = s.lines[y];
    let line = w.lines[y];
    assert forall|k: int| 0 <= k < x implies #[trigger] line[k] == if k < old_line.len() {
        old_line[k]
    } else {
        ' '
    } by {
        if x >= old_line.len() && k < old_line.len() {
            assert(line[k] == (old_line + spaces((x - old_line.len()) as nat))[k]);
        }
    }
    assert forall|k: int| 0 <= k < x implies #[trigger] w.colors[y][k] == if k < old_line.len() {
        s.colors[y][k]
    } else {
        Color::Default
    } by {
        let oc = s.colors[y];
        if x >= oc.len() && k < oc.len() {
            assert(w.colors[y][k] == (oc + default_colors((x - oc.len()) as nat))[k]);
        }
    }
    assert(w.shaped());
}

/// Writing a character inside a line changes that one cell only: every
/// other cell of the cursor's row keeps its character and its colour, and
/// the line keeps its length.
pub proof fn lemma_put_char_changes_one_cell(v: ScreenView, ch: char)
    requires
        v.shaped(),
        v.with_cursor_row().cursor_x < v.with_cursor_row().lines[v.with_cursor_row().cursor_y].len(),
    ensures
        ({
            let s = v.with_cursor_row();
            let w = v.put_char(ch);
            let y = s.cursor_y;
            let x = s.cursor_x;
            &&& w.lines[y].len() == s.lines[y].len()
            &&& w.colors[y].len() == s.colors[y].len()
            &&& w.lines[y][x] == ch
            &&& w.colors[y][x] == v.foreground
            &&& forall|k: int|
                0 <= k < s.lines[y].len() && k != x ==> #[trigger] w.lines[y][k] == s.lines[y][k]
                    && w.colors[y][k] == s.colors[y][k]
        }),
{
    lemma_cursor_row(v);
}

/// What erasing in a line does to the cursor's row, cell by cell, with the
/// other rows and the cursor left alone:
/// - mode 0 keeps the cells before the cursor, characters and colours, and
///   drops the rest;
/// - mode 1 turns every cell up to and including the cursor's column into a
///   space of the default colour and keeps the cells after it;
/// - mode 2 leaves the row empty;
/// - any other mode changes nothing.
pub proof fn lemma_erase_in_line_cells(v: ScreenView, mode: int)
    requires
        v.shaped(),
    ensures
        ({
            let s = v.with_cursor_row();
            let w = v.line_erased(mode);
            let y = s.cursor_y;
            let x = s.cursor_x;
            let line = s.lines[y];
            let colors = s.colors[y];
            let nl = w.lines[y];
            let nc = w.colors[y];
            &&& w.shaped()
            &&& w.cursor_x == x
            &&& w.cursor_y == y
            &&& w.foreground == v.foreground
            &&& w.lines.len() == s.lines.len()
            &&& forall|k: int| 0 <= k < s.lines.len() && k != y ==> #[trigger] w.lines[k] == s.lines[k] && w.colors[k] == s.colors[k]
            &&& (mode == 0 ==> {
                &&& nl.len() == (if x < line.len() { x } else { line.len() as int })
                &&& nc.len() == nl.len()
                &&& forall|k: int| 0 <= k < nl.len() ==> #[trigger] nl[k] == line[k] && nc[k] == colors[k]
            })
            &&& (mode == 1 ==> {
                &&& nl.len() == line.len()
                &&& nc.len() == line.len()
                &&& forall|k: int| 0 <= k < nl.len() && k <= x ==> #[trigger] nl[k] == ' ' && nc[k] == Color::Default
                &&& forall|k: int| x < k < nl.len() ==> #[trigger] nl[k] == line[k] && nc[k] == colors[k]
            })
            &&& (mode == 2 ==> nl.len() == 0 && nc.len() == 0)
            &&& (mode != 0 && mode != 1 && mode != 2 ==> nl == line && nc == colors)
        }),
{
    lemma_cursor_row(v);
    let s = v.with_cursor_row();
    let w = v.line_erased(mode);
    assert(w.shaped());
}

/// Writing a character touches only the cursor's row: every other line is
/// as it was once the cursor's row exists.
pub proof fn lemma_put_char_touches_only_cursor_row(v: ScreenView, ch: char, k: int)
    requires
        v.shaped(),
        0 <= k < v.with_cursor_row().lines.len(),
        k != v.with_cursor_row().cursor_y,
    ensures
        v.put_char(ch).lines[k] == v.with_cursor_row().lines[k],
        v.put_char(ch).colors[k] == v.with_cursor_row().colors[k],
{
}

/// Moving right by a count and then left by the same count returns the
/// cursor to where it was; nothing else changes.
pub proof fn lemma_right_then_left(v: ScreenView, count: int)
    requires
        v.cursor_x >= 0,
        count >= 0,
    ensures
        v.moved_right(count).moved_left(count) == v,
{
}

/// Moving down by a count and then up by the same count returns the cursor
/// to its row and column and keeps the lines that were there, as long as
/// the row moved to lies within the history limit.
pub proof fn lemma_down_then_up(v: ScreenView, count: int)
    requires
        v.shaped(),
        count >= 0,
        v.cursor_y + effective_count(count) < MAX_LINES,
    ensures
        v.moved_down(count).moved_up(count).cursor_y == v.cursor_y,
        v.moved_down(count).moved_up(count).cursor_x == v.cursor_x,
        forall|k: int|
            0 <= k < v.lines.len() ==> #[trigger] v.moved_down(count).moved_up(count).lines[k]
                == v.lines[k],
{
    let d = v.with_cursor(v.cursor_x, v.cursor_y + effective_count(count));
    lemma_cursor_row(d);
    let m = v.moved_down(count);
    let u = m.with_cursor(m.cursor_x, v.cursor_y);
    lemma_cursor_row(u);
}

/// Writing `n` characters on an existing row moves the cursor `n` columns
/// right on that row.
pub proof fn lemma_put_repeated_advances(v: ScreenView, ch: char, n: nat)
    requires
        v.shaped(),
        v.cursor_y < v.lines.len(),
    ensures
        v.put_repeated(ch, n).cursor_x == v.cursor_x + n,
        v.put_repeated(ch, n).cursor_y == v.cursor_y,
        v.put_repeated(ch, n).shaped(),
        v.put_repeated(ch, n).cursor_y < v.put_repeated(ch, n).lines.len(),
    decreases n,
{
    if n > 0 {
        lemma_put_repeated_advances(v, ch, (n - 1) as nat);
        let p = v.put_repeated(ch, (n - 1) as nat);
        lemma_cursor_row(p);
        lemma_put_char_reads_back(p, ch);
    }
}

/// Writing `ch` `n` times on an existing row puts `ch` in the `n` cells
/// from the cursor on; the cells before the cursor keep their characters (or
/// are blank where the line was shorter), the cells after the written ones
/// keep theirs, the line grows only as far as the writing reaches, and no
/// other line changes.
pub proof fn lemma_put_repeated_cells(v: ScreenView, ch: char, n: nat)
    requires
        v.shaped(),
        v.cursor_y < v.lines.len(),
    ensures
        ({
            let w = v.put_repeated(ch, n);
            let y = v.cursor_y;
            let x = v.cursor_x;
            let line = v.lines[y];
            &&& w.lines.len() == v.lines.len()
            &&& n == 0 ==> w == v
            &&& n > 0 ==> w.lines[y].len() == (if line.len() > x + n { line.len() as int } else { x + n })
            &&& forall|k: int| x <= k < x + n ==> #[trigger] w.lines[y][k] == ch
            &&& n > 0 ==> forall|k: int| 0 <= k < x ==> #[trigger] w.lines[y][k] == (if k < line.len() { line[k] } else { ' ' })
            &&& forall|k: int| x + n <= k < line.len() ==> #[trigger] w.lines[y][k] == line[k]
            &&& forall|r: int| 0 <= r < v.lines.len() && r != y ==> #[trigger] w.lines[r] == v.lines[r]
        }),
    decreases n,
{
    lemma_put_repeated_advances(v, ch, n);
    if n > 0 {
        lemma_put_repeated_cells(v, ch, (n - 1) as nat);
        lemma_put_repeated_advances(v, ch, (n - 1) as nat);
        let p = v.put_repeated(ch, (n - 1) as nat);
        lemma_cursor_row(p);
        lemma_put_char_reads_back(p, ch);
        let y = v.cursor_y;
        let x = v.cursor_x;
        let w = v.put_repeated(ch, n);
        assert(p.with_cursor_row() == p);
        assert(w == p.put_char(ch));
        let line = v.lines[y];
        let pl = p.lines[y];
        let wl = w.lines[y];
        let xp = x + n - 1;
        assert(p.cursor_x == xp);
        if p.cursor_x < p.lines[y].len() {
            lemma_put_char_changes_one_cell(p, ch);
        }
        assert(wl.len() == (if line.len() > x + n { line.len() as int } else { x + n }));
        if n == 1 {
            assert(p == v);
        }
        assert forall|k: int| x <= k < x + n implies #[trigger] wl[k] == ch by {
            if k < xp {
                assert(wl[k] == pl[k]);
            }
        }
        assert forall|k: int| 0 <= k < x implies #[trigger] wl[k] == (if k < line.len() { line[k] } else { ' ' }) by {
            if n > 1 {
                assert(wl[k] == pl[k]);
            }
        }
        assert forall|k: int| x + n <= k < line.len() implies #[trigger] wl[k] == line[k] by {
            assert(wl[k] == pl[k]);
        }
        assert forall|r: int| 0 <= r < v.lines.len() && r != y implies #[trigger] w.lines[r] == v.lines[r] by {
            lemma_put_char_touches_only_cursor_row(p, ch, r);
        }
    }
}

/// The text of lines is the text of any first part, a newline, and the
/// text of the rest; one line's text is the line itself. The same holds for
/// the colours, with the default colour for the newline.
pub proof fn lemma_joined_split(a: Seq<Seq<char>>, b: Seq<Seq<char>>, ca: Seq<Seq<Color>>, cb: Seq<Seq<Color>>)
    requires
        a.len() > 0,
        b.len() > 0,
        ca.len() > 0,
        cb.len() > 0,
    ensures
        joined(a + b) == joined(a) + seq!['\n'] + joined(b),
        joined_colors(ca + cb) == joined_colors(ca) + seq![Color::Default] + joined_colors(cb),
        joined(seq![a[0]]) == a[0],
        joined(Seq::<Seq<char>>::empty()) == Seq::<char>::empty(),
    decreases b.len() + cb.len(),
{
    if b.len() > 1 {
        lemma_joined_split(a, b.drop_last(), ca, cb);
        assert((a + b).drop_last() =~= a + b.drop_last());
        assert((a + b).last() == b.last());
        assert(joined(a + b) =~= joined(a) + seq!['\n'] + joined(b));
    } else {
        assert((a + b).drop_last() =~= a);
        assert(b =~= seq![b[0]]);
        assert(joined(a + b) =~= joined(a) + seq!['\n'] + joined(b));
    }
    if cb.len() > 1 {
        lemma_joined_split(a, b, ca, cb.drop_last());
        assert((ca + cb).drop_last() =~= ca + cb.drop_last());
        assert((ca + cb).last() == cb.last());
        assert(joined_colors(ca + cb) =~= joined_colors(ca) + seq![Color::Default] + joined_colors(cb));
    } else {
        assert((ca + cb).drop_last() =~= ca);
        assert(cb =~= seq![cb[0]]);
        assert(joined_colors(ca + cb) =~= joined_colors(ca) + seq![Color::Default] + joined_colors(cb));
    }
}

/// A screen buffer of text lines with a colour per cell and a cursor.
pub struct Screen {
    lines: Vec<String>,
    colors: Vec<Vec<Color>>,
    cursor_x: usize,
    cursor_y: usize,
    foreground: Color,
}

impl View for Screen {
    type V = ScreenView;

    closed spec fn view(&self) -> ScreenView {
        ScreenView {
            lines: self.lines@.map_values(|l: String| l@),
            colors: self.colors@.map_values(|c: Vec<Color>| c@),
            cursor_x: self.cursor_x as int,
            cursor_y: self.cursor_y as int,
            foreground: self.foreground,
        }
    }
}

impl Screen {
    /// A screen of one empty line with the cursor at its start.
    pub fn new() -> (s: Self)
        ensures
            s@ == ScreenView::initial(),
    {
        let mut lines: Vec<String> = Vec::new();
        lines.push(String::new());
        let mut colors: Vec<Vec<Color>> = Vec::new();
        colors.push(Vec::new());
        let s = Screen { lines, colors, cursor_x: 0, cursor_y: 0, foreground: Color::Default };
        assert(s@.lines =~= seq![Seq::<char>::empty()]);
        assert(s@.colors =~= seq![Seq::<Color>::empty()]);
        s
    }

    /// The lines of text.
    pub fn lines(&self) -> (l: &Vec<String>)
        ensures
            l@.map_values(|s: String| s@) == self@.lines,
    {
        &self.lines
    }

    /// The colour of each cell, line by line.
    pub fn colors(&self) -> (c: &Vec<Vec<Color>>)
        ensures
            c@.map_values(|v: Vec<Color>| v@) == self@.colors,
    {
        &self.colors
    }

    /// The cursor's column.
    pub fn cursor_x(&self) -> (x: usize)
        ensures
            x == self@.cursor_x,
    {
        self.cursor_x
    }

    /// The cursor's row.
    pub fn cursor_y(&self) -> (y: usize)
        ensures
            y == self@.cursor_y,
    {
        self.cursor_y
    }

    /// The colour that new text is written in.
    pub fn foreground(&self) -> (c: Color)
        ensures
            c == self@.foreground,
    {
        self.foreground
    }

    /// Sets the colour that new text is written in.
    pub fn set_foreground(&mut self, c: Color)
        ensures
            final(self)@ == old(self)@.with_foreground(c),
    {
        self.foreground = c;
    }

    /// Appends empty lines until the cursor's row exists, then drops the
    /// oldest lines beyond `MAX_LINES`, moving the cursor's row with the text.
    pub fn ensure_cursor_valid(&mut self)
        requires
            old(self)@.shaped(),
            old(self)@.cursor_y < usize::MAX,
        ensures
            final(self)@ == old(self)@.with_cursor_row(),
            final(self)@.shaped(),
            final(self)@.cursor_y < final(self)@.lines.len() <= MAX_LINES,
    {
        let ghost v = self@;
        let ghost e = v.extended();
        let len = self.lines.len();
        let ext = if self.cursor_y >= len { self.cursor_y + 1 } else { len };
        assert(e.lines.len() == ext && e.colors.len() == ext);
        if ext > MAX_LINES {
            let d = ext - MAX_LINES;
            if d >= len {
                let mut lines: Vec<String> = Vec::new();
                let mut colors: Vec<Vec<Color>> = Vec::new();
                while lines.len() < MAX_LINES
                    invariant
                        lines@.len() == colors@.len() <= MAX_LINES,
                        self@ == v,
                        forall|k: int| 0 <= k < lines@.len() ==> #[trigger] lines@[k]@ == Seq::<char>::empty(),
                        forall|k: int| 0 <= k < colors@.len() ==> #[trigger] colors@[k]@ == Seq::<Color>::empty(),
                    decreases MAX_LINES - lines@.len(),
                {
                    lines.push(String::new());
                    colors.push(Vec::new());
                }
                self.lines = lines;
                self.colors = colors;
            } else {
                let tail = self.lines.split_off(d);
                self.lines = tail;
                let tail_colors = self.colors.split_off(d);
                self.colors = tail_colors;
                while self.lines.len() < MAX_LINES
                    invariant
                        self.lines@.len() == self.colors@.len() <= MAX_LINES,
                        len - d <= self.lines@.len(),
                        self.cursor_y == v.cursor_y,
                        self.cursor_x == v.cursor_x,
                        self.foreground == v.foreground,
                        ext == v.cursor_y + 1,
                        d == ext - MAX_LINES,
                        d < len,
                        len == v.lines.len(),
                        v.shaped(),
                        forall|k: int| 0 <= k < len - d ==> #[trigger] self.lines@[k]@ == v.lines[k + d],
                        forall|k: int| 0 <= k < len - d ==> #[trigger] self.colors@[k]@ == v.colors[k + d],
                        forall|k: int| len - d <= k < self.lines@.len() ==> #[trigger] self.lines@[k]@ == Seq::<char>::empty(),
                        forall|k: int| len - d <= k < self.colors@.len() ==> #[trigger] self.colors@[k]@ == Seq::<Color>::empty(),
                    decreases MAX_LINES - self.lines@.len(),
                {
                    self.lines.push(String::new());
                    self.colors.push(Vec::new());
                }
            }
            self.cursor_y = self.cursor_y - d;
        } else {
            while self.lines.len() < ext
                invariant
                    self.lines@.len() == self.colors@.len() <= ext,
                    len <= self.lines@.len(),
                    len == v.lines.len(),
                    v.shaped(),
                    self.cursor_y == v.cursor_y,
                    self.cursor_x == v.cursor_x,
                    self.foreground == v.foreground,
                    forall|k: int| 0 <= k < len ==> #[trigger] self.lines@[k]@ == v.lines[k],
                    forall|k: int| 0 <= k < len ==> #[trigger] self.colors@[k]@ == v.colors[k],
                    forall|k: int| len <= k < self.lines@.len() ==> #[trigger] self.lines@[k]@ == Seq::<char>::empty(),
                    forall|k: int| len <= k < self.colors@.len() ==> #[trigger] self.colors@[k]@ == Seq::<Color>::empty(),
                decreases ext - self.lines@.len(),
            {
                self.lines.push(String::new());
                self.colors.push(Vec::new());
            }
        }
        assert(self@.lines =~= v.with_cursor_row().lines);
        assert(self@.colors =~= v.with_cursor_row().colors);
    }

    /// Writes `ch` in the current colour at the cursor, replacing what is
    /// there or padding the line with spaces up to the cursor, and moves the
    /// cursor one column right.
    pub fn push_char(&mut self, ch: char)
        requires
            old(self)@.shaped(),
            old(self)@.cursor_x < usize::MAX,
            old(self)@.cursor_y < usize::MAX,
        ensures
            final(self)@ == old(self)@.put_char(ch),
            final(self)@.shaped(),
            final(self)@.cursor_y < final(self)@.lines.len(),
    {
        self.ensure_cursor_valid();
        let ghost s = self@;
        let y = self.cursor_y;
        let x = self.cursor_x;
        let new_line = written_line(&self.lines[y], x, ch);
        let new_colors = painted_line(&self.colors[y], x, self.foreground);
        self.lines.set(y, new_line);
        self.colors.set(y, new_colors);
        self.cursor_x = x + 1;
        assert(self@.lines =~= s.lines.update(y as int, written(s.lines[y as int], x as int, ch)));
        assert(self@.colors =~= s.colors.update(
            y as int,
            painted(s.colors[y as int], x as int, s.foreground),
        ));
    }

    /// Moves the cursor to the start of its line.
    pub fn carriage_return(&mut self)
        ensures
            final(self)@ == old(self)@.at_line_start(),
    {
        self.cursor_x = 0;
    }

    /// Moves the cursor to the start of the next line, creating it if needed.
    pub fn new_line(&mut self)
        requires
            old(self)@.shaped(),
            old(self)@.cursor_y + 1 < usize::MAX,
        ensures
            final(self)@ == old(self)@.on_next_line(),
            final(self)@.shaped(),
            final(self)@.cursor_y < final(self)@.lines.len(),
    {
        self.cursor_y = self.cursor_y + 1;
        self.cursor_x = 0;
        self.ensure_cursor_valid();
    }

    /// Moves the cursor `count` columns left (0 counts as 1), stopping at column 0.
    pub fn cursor_left(&mut self, count: usize)
        ensures
            final(self)@ == old(self)@.moved_left(count as int),
    {
        let count = if count == 0 { 1 } else { count };
        self.cursor_x = self.cursor_x.saturating_sub(count);
    }

    /// Moves the cursor `count` columns right (0 counts as 1).
    pub fn cursor_right(&mut self, count: usize)
        requires
            old(self)@.cursor_x + effective_count(count as int) <= usize::MAX,
        ensures
            final(self)@ == old(self)@.moved_right(count as int),
    {
        let count = if count == 0 { 1 } else { count };
        self.cursor_x = self.cursor_x + count;
    }

    /// Moves the cursor `count` rows up (0 counts as 1), stopping at row 0, and
    /// creates the row if it does not exist.
    pub fn cursor_up(&mut self, count: usize)
        requires
            old(self)@.shaped(),
        ensures
            final(self)@ == old(self)@.moved_up(count as int),
            final(self)@.shaped(),
            final(self)@.cursor_y < final(self)@.lines.len(),
    {
        let count = if count == 0 { 1 } else { count };
        self.cursor_y = self.cursor_y.saturating_sub(count);
        self.ensure_cursor_valid();
    }

    /// Moves the cursor `count` rows down (0 counts as 1), creating rows as needed.
    pub fn cursor_down(&mut self, count: usize)
        requires
            old(self)@.shaped(),
            old(self)@.cursor_y + effective_count(count as int) < usize::MAX,
        ensures
            final(self)@ == old(self)@.moved_down(count as int),
            final(self)@.shaped(),
            final(self)@.cursor_y < final(self)@.lines.len(),
    {
        let count = if count == 0 { 1 } else { count };
        self.cursor_y = self.cursor_y + count;
        self.ensure_cursor_valid();
    }

    /// Puts the cursor at column `x` of row `y`, creating the row if needed.
    pub fn move_to(&mut self, x: usize, y: usize)
        requires
            old(self)@.shaped(),
            y < usize::MAX,
        ensures
            final(self)@ == old(self)@.placed(x as int, y as int),
            final(self)@.shaped(),
            final(self)@.cursor_y < final(self)@.lines.len(),
    {
        self.cursor_x = x;
        self.cursor_y = y;
        self.ensure_cursor_valid();
    }

    /// Erases part of the cursor's line: mode 0 from the cursor to the end,
    /// mode 1 from the start of the line through the cursor, mode 2 the
    /// whole line; other modes do nothing.
    pub fn erase_in_line(&mut self, mode: u32)
        requires
            old(self)@.shaped(),
            old(self)@.cursor_y < usize::MAX,
        ensures
            final(self)@ == old(self)@.line_erased(mode as int),
            final(self)@.shaped(),
            final(self)@.cursor_y < final(self)@.lines.len(),
    {
        self.ensure_cursor_valid();
        let y = self.cursor_y;
        let x = self.cursor_x;
        let ghost s = self@;
        let new_line = erased_line(&self.lines[y], x, mode);
        let new_colors = erased_color_line(&self.colors[y], x, mode);
        self.lines.set(y, new_line);
        self.colors.set(y, new_colors);
        assert(self@.lines =~= s.lines.update(y as int, erased(s.lines[y as int], x as int, mode as int)));
        assert(self@.colors =~= s.colors.update(
            y as int,
            erased_colors(s.colors[y as int], x as int, mode as int),
        ));
    }

    /// Empties the screen to one empty line and puts the cursor at the
    /// origin; the colour for new text is kept.
    pub fn clear_screen(&mut self)
        ensures
            final(self)@ == old(self)@.cleared(),
            final(self)@.shaped(),
    {
        self.lines.clear();
        self.lines.push(String::new());
        self.colors.clear();
        self.colors.push(Vec::new());
        self.cursor_x = 0;
        self.cursor_y = 0;
        assert(self@.lines =~= seq![Seq::<char>::empty()]);
        assert(self@.colors =~= seq![Seq::<Color>::empty()]);
    }

    /// The screen's text: its lines joined with newline characters.
    pub fn text(&self) -> (t: String)
        ensures
            t@ == self@.text(),
    {
        let t = self.rows_text(0, self.lines.len());
        assert(self@.lines.subrange(0, self@.lines.len() as int) =~= self@.lines);
        t
    }

    /// The colour of each character of `text()`, newlines in the default colour.
    pub fn text_colors(&self) -> (c: Vec<Color>)
        ensures
            c@ == self@.text_colors(),
    {
        let c = self.rows_colors(0, self.colors.len());
        assert(self@.colors.subrange(0, self@.colors.len() as int) =~= self@.colors);
        c
    }

    /// The text of lines `start` up to `end`, joined with newline characters.
    pub fn rows_text(&self, start: usize, end: usize) -> (t: String)
        requires
            start <= end <= self@.lines.len(),
        ensures
            t@ == joined(self@.lines.subrange(start as int, end as int)),
    {
        let mut t = String::new();
        let ghost lines = self@.lines.subrange(start as int, end as int);
        assert(lines.take(0) =~= Seq::<Seq<char>>::empty());
        for i in start..end
            invariant
                end <= self.lines@.len(),
                lines == self@.lines.subrange(start as int, end as int),
                t@ == joined(lines.take(i - start)),
        {
            let k = i - start;
            assert(lines.take(k + 1).drop_last() =~= lines.take(k as int));
            if i != start {
                string_push(&mut t, '\n');
            }
            t.append(self.lines[i].as_str());
            assert(lines.take(k + 1).last() == self.lines@[i as int]@);
        }
        assert(lines.take(end - start) =~= lines);
        t
    }

    /// The colour of each character of `rows_text(start, end)`, newlines in
    /// the default colour.
    pub fn rows_colors(&self, start: usize, end: usize) -> (c: Vec<Color>)
        requires
            start <= end <= self@.colors.len(),
        ensures
            c@ == joined_colors(self@.colors.subrange(start as int, end as int)),
    {
        let mut c: Vec<Color> = Vec::new();
        let ghost colors = self@.colors.subrange(start as int, end as int);
        assert(colors.take(0) =~= Seq::<Seq<Color>>::empty());
        for i in start..end
            invariant
                end <= self.colors@.len(),
                colors == self@.colors.subrange(start as int, end as int),
                c@ == joined_colors(colors.take(i - start)),
        {
            let k = i - start;
            assert(colors.take(k + 1).drop_last() =~= colors.take(k as int));
            if i != start {
                c.push(Color::Default);
            }
            let row = &self.colors[i];
            let ghost before = c@;
            for j in 0..row.len()
                invariant
                    c@ == before + row@.take(j as int),
            {
                c.push(row[j]);
                assert(row@.take(j + 1) =~= row@.take(j as int).push(row@[j as int]));
            }
            assert(row@.take(row@.len() as int) =~= row@);
            assert(colors.take(k + 1).last() == self.colors@[i as int]@);
        }
        assert(colors.take(end - start) =~= colors);
        c
    }
}

/// The colours of a line with colour `c` written at column `x` (see `painted`).
fn painted_line(colors: &Vec<Color>, x: usize, c: Color) -> (r: Vec<Color>)
    ensures
        r@ == painted(colors@, x as int, c),
{
    let mut r: Vec<Color> = Vec::new();
    let n = colors.len();
    for i in 0..n
        invariant
            n == colors@.len(),
            r@ =~= Seq::new(i as nat, |k: int| if k == x { c } else { colors@[k] }),
    {
        if i == x {
            r.push(c);
        } else {
            r.push(colors[i]);
        }
    }
    if x >= n {
        let mut i = n;
        while i < x
            invariant
                n <= i <= x,
                n == colors@.len(),
                r@ =~= colors@ + default_colors((i - n) as nat),
            decreases x - i,
        {
            r.push(Color::Default);
            i = i + 1;
        }
        r.push(c);
    }
    r
}

/// The colours of a line erased in the given mode at column `x` (see `erased_colors`).
fn erased_color_line(colors: &Vec<Color>, x: usize, mode: u32) -> (r: Vec<Color>)
    ensures
        r@ == erased_colors(colors@, x as int, mode as int),
{
    let n = colors.len();
    let mut r: Vec<Color> = Vec::new();
    if mode == 2 {
        return r;
    }
    if mode != 0 && mode != 1 {
        return colors.clone();
    }
    if mode == 0 && x >= n {
        return colors.clone();
    }
    for i in 0..n
        invariant
            n == colors@.len(),
            mode == 0 || mode == 1,
            mode == 0 ==> x < n,
            mode == 0 ==> r@ =~= colors@.take(if i <= x { i as int } else { x as int }),
            mode == 1 ==> r@ =~= Seq::new(i as nat, |k: int| if k <= x { Color::Default } else { colors@[k] }),
    {
        if mode == 0 {
            if i < x {
                r.push(colors[i]);
            }
        } else if i <= x {
            r.push(Color::Default);
        } else {
            r.push(colors[i]);
        }
    }
    r
}

/// A copy of `line` erased in the given mode at column `x` (see `erased`).
fn erased_line(line: &String, x: usize, mode: u32) -> (r: String)
    ensures
        r@ == erased(line@, x as int, mode as int),
{
    let n = line.as_str().unicode_len();
    if mode == 2 {
        return String::new();
    }
    if mode != 0 && mode != 1 {
        return line.clone();
    }
    if mode == 0 && x >= n {
        return line.clone();
    }
    let mut r = String::new();
    let mut i: usize = 0;
    for c in it: line.chars()
        invariant
            i == it.index(),
            it.seq() == line@,
            n == line@.len(),
            mode == 0 || mode == 1,
            mode == 0 ==> x < n,
            mode == 0 ==> r@ =~= line@.take(if i <= x { i as int } else { x as int }),
            mode == 1 ==> r@ =~= Seq::new(i as nat, |k: int| if k <= x { ' ' } else { line@[k] }),
    {
        if mode == 0 {
            if i < x {
                string_push(&mut r, c);
            }
        } else if i <= x {
            string_push(&mut r, ' ');
        } else {
            string_push(&mut r, c);
        }
        i = i + 1;
    }
    r
}

/// A copy of `line` with `ch` written at column `x` (see `written`).
fn written_line(line: &String, x: usize, ch: char) -> (r: String)
    ensures
        r@ == written(line@, x as int, ch),
{
    let n = line.as_str().unicode_len();
    let mut r = String::new();
    let mut i: usize = 0;
    for c in it: line.chars()
        invariant
            i == it.index(),
            n == line@.len(),
            it.seq() == line@,
            r@ =~= Seq::new(i as nat, |k: int| if k == x { ch } else { line@[k] }),
    {
        if i == x {
            string_push(&mut r, ch);
        } else {
            string_push(&mut r, c);
        }
        i = i + 1;
    }
    if x >= i {
        while i < x
            invariant
                i <= x,
                line@.len() <= i,
                r@ =~= line@ + spaces((i - line@.len()) as nat),
            decreases x - i,
        {
            string_push(&mut r, ' ');
            i = i + 1;
        }
        string_push(&mut r, ch);
    }
    r
}


} // verus!
