//! Scrolling back through the history: which lines the window shows.
use vstd::prelude::*;

verus! {

/// The first line shown when the window of `rows` lines follows the newest
/// of `total` lines; it is also how far back the history can be scrolled.
pub open spec fn bottom_first(total: int, rows: int) -> int {
    if total > rows { total - rows } else { 0 }
}

/// The smaller of two integers.
pub open spec fn min_of(a: int, b: int) -> int {
    if a < b { a } else { b }
}

/// How far the window is scrolled back from the newest lines, in lines.
pub struct Scroll {
    offset: usize,
}

impl View for Scroll {
    type V = int;

    closed spec fn view(&self) -> int {
        self.offset as int
    }
}

impl Scroll {
    /// A window that follows the newest lines.
    pub fn new() -> (s: Self)
        ensures
            s@ == 0,
    {
        Scroll { offset: 0 }
    }

    /// How many lines back the window is scrolled.
    pub fn offset(&self) -> (o: usize)
        ensures
            o == self@,
    {
        self.offset
    }

    /// Scrolls `lines` further back into the history of `total` lines shown
    /// `rows` at a time, stopping at the oldest line.
    pub fn scroll_back(&mut self, lines: usize, total: usize, rows: usize)
        ensures
            final(self)@ == min_of(old(self)@ + lines, bottom_first(total as int, rows as int)),
    {
        let limit = if total > rows { total - rows } else { 0 };
        if self.offset >= limit || lines >= limit - self.offset {
            self.offset = limit;
        } else {
            self.offset = self.offset + lines;
        }
    }

    /// Scrolls `lines` towards the newest lines, stopping there.
    pub fn scroll_forward(&mut self, lines: usize)
        ensures
            final(self)@ == if old(self)@ > lines { old(self)@ - lines } else { 0 },
    {
        self.offset = self.offset.saturating_sub(lines);
    }

    /// The first line that the window of `rows` lines shows out of `total`
    /// lines: the newest lines when not scrolled back, and never before the
    /// oldest line.
    pub fn first_visible(&self, total: usize, rows: usize) -> (first: usize)
        ensures
            first == bottom_first(total as int, rows as int) - min_of(
                self@,
                bottom_first(total as int, rows as int),
            ),
    {
        let bottom = if total > rows { total - rows } else { 0 };
        if self.offset >= bottom {
            0
        } else {
            bottom - self.offset
        }
    }
}

impl Scroll {
    /// The lines that the window of `rows` lines shows out of `total` lines,
    /// as a range `first..end` (see `first_visible`).
    pub fn window(&self, total: usize, rows: usize) -> (r: (usize, usize))
        ensures
            r.0 == bottom_first(total as int, rows as int) - min_of(
                self@,
                bottom_first(total as int, rows as int),
            ),
            r.1 == min_of(r.0 + rows, total as int),
    {
        let first = self.first_visible(total, rows);
        let end = if total - first > rows { first + rows } else { total };
        (first, end)
    }
}

/// Scrolling back and then forward by the same number of lines returns the
/// window to where it was, as long as the oldest line was not reached.
pub proof fn lemma_scroll_round_trip(offset: int, lines: int, total: int, rows: int)
    requires
        offset >= 0,
        lines >= 0,
        offset + lines <= bottom_first(total, rows),
    ensures
        ({
            let back = min_of(offset + lines, bottom_first(total, rows));
            (if back > lines { back - lines } else { 0 }) == offset
        }),
{
}

/// The window shows at most `rows` lines, all of them existing, and when
/// not scrolled back it ends with the newest line.
pub proof fn lemma_window_in_range(offset: int, total: int, rows: int)
    requires
        offset >= 0,
        total >= 0,
        rows >= 0,
    ensures
        ({
            let first = bottom_first(total, rows) - min_of(offset, bottom_first(total, rows));
            &&& 0 <= first <= total
            &&& min_of(first + rows, total) - first <= rows
            &&& (offset == 0 ==> min_of(first + rows, total) == total)
        }),
{
}

/// Scrolling back by `k` lines, while the oldest line is not reached, moves
/// the first line shown `k` lines up; the window keeps its size, `rows`
/// lines or all lines when there are fewer.
pub proof fn lemma_scroll_back_shifts_window(offset: int, k: int, total: int, rows: int)
    requires
        offset >= 0,
        k >= 0,
        rows >= 0,
        offset + k <= bottom_first(total, rows),
    ensures
        ({
            let b = bottom_first(total, rows);
            let first = b - min_of(offset, b);
            let back = min_of(offset + k, b);
            &&& b - min_of(back, b) == first - k
            &&& min_of(first - k + rows, total) - (first - k) == min_of(rows, total)
        }),
{
}

/// `cells_in` counts whole cells: `n` cells fit and `n + 1` do not, except
/// that at least one cell is counted.
pub proof fn lemma_cells_in(pixels: u32, cell: u32)
    requires
        cell > 0,
    ensures
        ({
            let n = if pixels / cell == 0 { 1 } else { pixels / cell };
            &&& n >= 1
            &&& pixels >= cell ==> n * cell <= pixels < (n + 1) * cell
            &&& pixels < cell ==> n == 1
        }),
{
    let q = pixels / cell;
    assert(q * cell <= pixels < (q + 1) * cell) by (nonlinear_arith)
        requires
            cell > 0,
            q == pixels / cell,
    ;
    assert(pixels >= cell ==> q >= 1) by (nonlinear_arith)
        requires
            cell > 0,
            q == pixels / cell,
    ;
    assert(pixels < cell ==> q == 0) by (nonlinear_arith)
        requires
            cell > 0,
            q == pixels / cell,
    ;
}

/// The number of whole cells of `cell` pixels that fit in `pixels`, and at least one.
pub fn cells_in(pixels: u32, cell: u32) -> (n: u32)
    requires
        cell > 0,
    ensures
        n == if pixels / cell == 0 { 1 } else { pixels / cell },
{
    let n = pixels / cell;
    if n == 0 { 1 } else { n }
}

} // verus!
