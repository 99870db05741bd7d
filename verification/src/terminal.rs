use vstd::prelude::*;
use crate::engine::{push_char, text_of};
use crate::style::{Style, ansi_reset};

verus! {

/// The backend that renders a layout tree as text for a terminal.
pub struct TerminalBackend;

impl TerminalBackend {
    pub fn new() -> (r: Self)
        ensures
            r == TerminalBackend,
    {
        Self
    }
}

impl Default for TerminalBackend {
    fn default() -> (r: Self)
        ensures
            r == TerminalBackend,
    {
        Self::new()
    }
}

/// A `width` by `height` grid of styled characters, stored row by row.
pub struct CharBuf {
    data: Vec<char>,
    styles: Vec<Style>,
    width: usize,
    height: usize,
}

/// The model of a [`CharBuf`]: its size and its cells, row by row.
pub struct Cells {
    pub width: nat,
    pub height: nat,
    pub chars: Seq<char>,
    pub styles: Seq<Style>,
}

impl View for CharBuf {
    type V = Cells;

    closed spec fn view(&self) -> Cells {
        Cells { width: self.width as nat, height: self.height as nat, chars: self.data@, styles: self.styles@ }
    }
}

impl Cells {
    /// One character and one style for each of the `width * height` cells.
    pub open spec fn wf(self) -> bool {
        self.chars.len() == self.width * self.height && self.styles.len() == self.width * self.height
    }

    /// The text of each row of the grid, without its newline.
    pub open spec fn row_texts(self) -> Seq<Seq<char>> {
        Seq::new(self.height, |y: int| run_text(self.chars, self.styles, y * self.width, self.width))
    }

    /// The grid as text for a terminal: each row's text followed by a newline.
    pub open spec fn text(self) -> Seq<char> {
        text_of(self.row_texts())
    }

    /// The index of the cell at column `x`, row `y`.
    pub open spec fn index(self, x: int, y: int) -> int {
        y * self.width + x
    }
}

/// The text of one cell: its character alone in the plain style; otherwise the
/// style's escape prefix, the character and the reset sequence.
pub open spec fn cell_text(ch: char, style: Style) -> Seq<char> {
    if style.fg is None {
        seq![ch]
    } else {
        style.ansi_prefix() + seq![ch] + ansi_reset()
    }
}

/// The text of the `n` cells from index `lo` on.
pub open spec fn run_text(chars: Seq<char>, styles: Seq<Style>, lo: int, n: nat) -> Seq<char>
    decreases n,
{
    if n == 0 {
        Seq::empty()
    } else {
        run_text(chars, styles, lo, (n - 1) as nat) + cell_text(chars[lo + n - 1], styles[lo + n - 1])
    }
}

proof fn lemma_index_in_bounds(x: int, y: int, w: int, h: int)
    requires
        0 <= x < w,
        0 <= y < h,
    ensures
        0 <= y * w + x < w * h,
{
    assert(y * w + x < w * h) by (nonlinear_arith)
        requires
            0 <= x < w,
            0 <= y < h,
    ;
    assert(0 <= y * w) by (nonlinear_arith)
        requires
            0 <= y,
            0 <= w,
    ;
}

/// Cells at different places of the grid are stored apart: writing the cell at
/// column `x`, row `y` gives what a later read there returns, and leaves the cell at
/// any other place `x2`, `y2` as it was.
pub proof fn lemma_write_then_read(c: Cells, x: int, y: int, x2: int, y2: int, ch: char, style: Style)
    requires
        c.wf(),
        0 <= x < c.width,
        0 <= y < c.height,
        0 <= x2 < c.width,
        0 <= y2 < c.height,
    ensures
        c.chars.update(c.index(x, y), ch)[c.index(x2, y2)] == if x == x2 && y == y2 {
            ch
        } else {
            c.chars[c.index(x2, y2)]
        },
        c.styles.update(c.index(x, y), style)[c.index(x2, y2)] == if x == x2 && y == y2 {
            style
        } else {
            c.styles[c.index(x2, y2)]
        },
{
    lemma_index_in_bounds(x, y, c.width as int, c.height as int);
    lemma_index_in_bounds(x2, y2, c.width as int, c.height as int);
    if !(x == x2 && y == y2) {
        let w = c.width as int;
        assert(y * w + x != y2 * w + x2) by (nonlinear_arith)
            requires
                0 <= x < w,
                0 <= x2 < w,
                !(x == x2 && y == y2),
        {
            if y == y2 {
            } else if y < y2 {
                assert(y * w + w <= y2 * w) by (nonlinear_arith)
                    requires
                        y < y2,
                        0 <= w,
                ;
            } else {
                assert(y2 * w + w <= y * w) by (nonlinear_arith)
                    requires
                        y2 < y,
                        0 <= w,
                ;
            }
        }
    }
}

impl CharBuf {
    /// A grid of spaces in the plain style.
    pub fn new(width: usize, height: usize) -> (r: Self)
        requires
            width * height <= usize::MAX,
        ensures
            r@.wf(),
            r@.width == width,
            r@.height == height,
            r@.chars == Seq::new((width * height) as nat, |i: int| ' '),
            r@.styles == Seq::new((width * height) as nat, |i: int| Style { fg: None }),
    {
        let n = width * height;
        let mut data: Vec<char> = Vec::new();
        let mut styles: Vec<Style> = Vec::new();
        let mut i: usize = 0;
        while i < n
            invariant
                i <= n,
                data@ =~= Seq::new(i as nat, |k: int| ' '),
                styles@ =~= Seq::new(i as nat, |k: int| Style { fg: None }),
            decreases n - i,
        {
            data.push(' ');
            styles.push(Style::new());
            i = i + 1;
        }
        CharBuf { data, styles, width, height }
    }

    pub fn width(&self) -> (r: usize)
        ensures
            r == self@.width,
    {
        self.width
    }

    pub fn height(&self) -> (r: usize)
        ensures
            r == self@.height,
    {
        self.height
    }

    /// The character and the style of the cell at column `x`, row `y`.
    pub fn get(&self, x: usize, y: usize) -> (r: (char, Style))
        requires
            self@.wf(),
            x < self@.width,
            y < self@.height,
        ensures
            r.0 == self@.chars[self@.index(x as int, y as int)],
            r.1 == self@.styles[self@.index(x as int, y as int)],
    {
        proof {
            lemma_index_in_bounds(x as int, y as int, self.width as int, self.height as int);
        }
        let _ = self.data.len();
        let i = y * self.width + x;
        (self.data[i], self.styles[i])
    }

    /// The grid as text for a terminal: row by row, each row ended by a newline; a cell
    /// in the plain style is its character, and any other cell is its style's escape
    /// prefix, its character and the reset sequence.
    pub fn to_text(&self) -> (r: String)
        requires
            self@.wf(),
        ensures
            r@ == self@.text(),
    {
        let mut out = String::new();
        let mut y: usize = 0;
        while y < self.height
            invariant
                self@.wf(),
                y <= self@.height,
                out@ == text_of(self@.row_texts().take(y as int)),
            decreases self@.height - y,
        {
            let ghost before = out@;
            proof {
                let w = self.width as int;
                let h = self.height as int;
                let yy = y as int;
                assert(yy * w + w <= w * h) by (nonlinear_arith)
                    requires
                        0 <= yy < h,
                        0 <= w,
                ;
                assert(0 <= yy * w) by (nonlinear_arith)
                    requires
                        0 <= yy,
                        0 <= w,
                ;
            }
            let mut x: usize = 0;
            while x < self.width
                invariant
                    self@.wf(),
                    y < self@.height,
                    x <= self@.width,
                    y * self@.width + self@.width <= self@.chars.len(),
                    0 <= y * self@.width,
                    out@ == before + run_text(self@.chars, self@.styles, y * self@.width, x as nat),
                decreases self@.width - x,
            {
                proof {
                    lemma_index_in_bounds(x as int, y as int, self.width as int, self.height as int);
                }
                let _ = self.data.len();
                let i = y * self.width + x;
                let ch = self.data[i];
                let style = self.styles[i];
                if style.is_empty() {
                    push_char(&mut out, ch);
                } else {
                    style.write_ansi_prefix(&mut out);
                    push_char(&mut out, ch);
                    push_char(&mut out, '\x1b');
                    push_char(&mut out, '[');
                    push_char(&mut out, '0');
                    push_char(&mut out, 'm');
                }
                x = x + 1;
                assert(out@ =~= before + run_text(self@.chars, self@.styles, y * self@.width, x as nat));
            }
            push_char(&mut out, '\n');
            assert(self@.row_texts().take(y + 1).drop_last() =~= self@.row_texts().take(y as int));
            y = y + 1;
        }
        assert(self@.row_texts().take(y as int) =~= self@.row_texts());
        out
    }

    /// Writes `ch` in `style` at column `x`, row `y`; does nothing outside the grid.
    pub fn set(&mut self, x: usize, y: usize, ch: char, style: Style)
        requires
            old(self)@.wf(),
        ensures
            final(self)@.wf(),
            final(self)@.width == old(self)@.width,
            final(self)@.height == old(self)@.height,
            x < old(self)@.width && y < old(self)@.height ==> final(self)@.chars == old(self)@.chars.update(
                old(self)@.index(x as int, y as int),
                ch,
            ) && final(self)@.styles == old(self)@.styles.update(old(self)@.index(x as int, y as int), style),
            !(x < old(self)@.width && y < old(self)@.height) ==> final(self)@ == old(self)@,
    {
        if x < self.width && y < self.height {
            proof {
                lemma_index_in_bounds(x as int, y as int, self.width as int, self.height as int);
            }
            let _ = self.data.len();
            let i = y * self.width + x;
            self.data.set(i, ch);
            self.styles.set(i, style);
        }
    }

    /// Writes `ch` in `style` in the columns `x_start..x_end` of row `y` that are in the grid.
    pub fn fill_row(&mut self, y: usize, x_start: usize, x_end: usize, ch: char, style: Style)
        requires
            old(self)@.wf(),
        ensures
            final(self)@.wf(),
            final(self)@.width == old(self)@.width,
            final(self)@.height == old(self)@.height,
            final(self)@ == filled(old(self)@, y as int, x_start as int, row_end(x_end as int, old(self)@.width as int), ch, style),
    {
        let ghost start = self@;
        let end = if x_end < self.width { x_end } else { self.width };
        let mut x = x_start;
        while x < end
            invariant
                self@.wf(),
                start.wf(),
                self@.width == start.width,
                self@.height == start.height,
                end == row_end(x_end as int, start.width as int),
                x_start <= x,
                x_start <= end ==> x <= end,
                x_start > end ==> x == x_start,
                forall|i: int| 0 <= i < start.chars.len() ==> {
                    let hit = y < start.height && start.index(x_start as int, y as int) <= i
                        < start.index(x as int, y as int);
                    #[trigger] self@.chars[i] == if hit { ch } else { start.chars[i] }
                },
                forall|i: int| 0 <= i < start.styles.len() ==> {
                    let hit = y < start.height && start.index(x_start as int, y as int) <= i
                        < start.index(x as int, y as int);
                    #[trigger] self@.styles[i] == if hit { style } else { start.styles[i] }
                },
            decreases end - x,
        {
            proof {
                if y < start.height {
                    lemma_index_in_bounds(x as int, y as int, start.width as int, start.height as int);
                }
            }
            let ghost prev = self@;
            self.set(x, y, ch, style);
            proof {
                assert forall|i: int| 0 <= i < start.chars.len() implies {
                    let hit = y < start.height && start.index(x_start as int, y as int) <= i
                        < start.index(x + 1, y as int);
                    #[trigger] self@.chars[i] == if hit { ch } else { start.chars[i] }
                } by {
                    assert(prev.chars[i] == if y < start.height && start.index(x_start as int, y as int) <= i
                        < start.index(x as int, y as int) { ch } else { start.chars[i] });
                    assert(start.index(x + 1, y as int) == start.index(x as int, y as int) + 1);
                }
                assert forall|i: int| 0 <= i < start.styles.len() implies {
                    let hit = y < start.height && start.index(x_start as int, y as int) <= i
                        < start.index(x + 1, y as int);
                    #[trigger] self@.styles[i] == if hit { style } else { start.styles[i] }
                } by {
                    assert(prev.styles[i] == if y < start.height && start.index(x_start as int, y as int) <= i
                        < start.index(x as int, y as int) { style } else { start.styles[i] });
                    assert(start.index(x + 1, y as int) == start.index(x as int, y as int) + 1);
                }
            }
            x = x + 1;
        }
        proof {
            let f = filled(start, y as int, x_start as int, end as int, ch, style);
            assert(self@.chars =~= f.chars);
            assert(self@.styles =~= f.styles);
        }
    }
}

/// `c` with the cells of columns `x0..x1` of row `y` set to `ch` in `style`, where row
/// `y` is in the grid.
pub open spec fn filled(c: Cells, y: int, x0: int, x1: int, ch: char, style: Style) -> Cells {
    let hit = |i: int| y < c.height && c.index(x0, y) <= i < c.index(x1, y);
    Cells {
        width: c.width,
        height: c.height,
        chars: Seq::new(c.chars.len(), |i: int| if hit(i) { ch } else { c.chars[i] }),
        styles: Seq::new(c.styles.len(), |i: int| if hit(i) { style } else { c.styles[i] }),
    }
}

/// The end of a run of columns that stops at `x_end` or at the edge `width`.
pub open spec fn row_end(x_end: int, width: int) -> int {
    if x_end < width {
        x_end
    } else {
        width
    }
}

} // verus!
