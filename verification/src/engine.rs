use vstd::prelude::*;
use crate::expr::{Expr, Term};

verus! {

/// The mathematical model of a [`Layout`]: its size, the row of its baseline, and
/// its characters, row by row.
pub struct Picture {
    pub width: nat,
    pub height: nat,
    pub baseline: nat,
    pub rows: Seq<Seq<char>>,
}

impl Picture {
    /// Every row is there and is exactly `width` characters long.
    pub open spec fn wf(self) -> bool {
        &&& self.rows.len() == self.height
        &&& forall|y: int| 0 <= y < self.height ==> #[trigger] self.rows[y].len() == self.width
    }
}

/// A picture of the given size, filled with spaces.
pub open spec fn blank(w: nat, h: nat, b: nat) -> Picture {
    Picture {
        width: w,
        height: h,
        baseline: b,
        rows: Seq::new(h, |y: int| Seq::new(w, |x: int| ' ')),
    }
}

/// `p` with the character at row `y`, column `x` replaced by `c`.
pub open spec fn put(p: Picture, y: int, x: int, c: char) -> Picture {
    Picture {
        width: p.width,
        height: p.height,
        baseline: p.baseline,
        rows: p.rows.update(y, p.rows[y].update(x, c)),
    }
}

/// `dst` with `src` copied over it, the top left corner of `src` at column `xo`, row `yo`.
pub open spec fn paste(dst: Picture, src: Picture, xo: int, yo: int) -> Picture {
    Picture {
        width: dst.width,
        height: dst.height,
        baseline: dst.baseline,
        rows: Seq::new(
            dst.rows.len(),
            |y: int|
                Seq::new(
                    dst.rows[y].len(),
                    |x: int|
                        if yo <= y < yo + src.height && xo <= x < xo + src.width {
                            src.rows[y - yo][x - xo]
                        } else {
                            dst.rows[y][x]
                        },
                ),
        ),
    }
}

/// `p` with the columns `x0..x1` of row `y` set to `c`.
pub open spec fn hline(p: Picture, y: int, x0: int, x1: int, c: char) -> Picture {
    Picture {
        width: p.width,
        height: p.height,
        baseline: p.baseline,
        rows: p.rows.update(
            y,
            Seq::new(p.rows[y].len(), |x: int| if x0 <= x < x1 { c } else { p.rows[y][x] }),
        ),
    }
}

/// `p` with the rows `y0..y1` of column `x` set to `c`.
pub open spec fn vline(p: Picture, x: int, y0: int, y1: int, c: char) -> Picture {
    Picture {
        width: p.width,
        height: p.height,
        baseline: p.baseline,
        rows: Seq::new(
            p.rows.len(),
            |y: int|
                if y0 <= y < y1 {
                    p.rows[y].update(x, c)
                } else {
                    p.rows[y]
                },
        ),
    }
}

/// A rectangle of characters with a baseline, the result of laying out an expression.
pub struct Layout {
    width: usize,
    height: usize,
    baseline: usize,
    /// Row by row; all rows are `width` long.
    grid: Vec<Vec<char>>,
}

impl View for Layout {
    type V = Picture;

    closed spec fn view(&self) -> Picture {
        Picture {
            width: self.width as nat,
            height: self.height as nat,
            baseline: self.baseline as nat,
            rows: self.grid@.map_values(|r: Vec<char>| r@),
        }
    }
}

impl Layout {
    /// A `width` by `height` layout of spaces.
    pub fn new(width: usize, height: usize, baseline: usize) -> (r: Self)
        ensures
            r@ == blank(width as nat, height as nat, baseline as nat),
            r@.wf(),
    {
        let mut grid: Vec<Vec<char>> = Vec::new();
        let mut y: usize = 0;
        while y < height
            invariant
                y <= height,
                grid@.len() == y,
                forall|i: int| 0 <= i < y ==> (#[trigger] grid@[i])@ =~= Seq::new(width as nat, |x: int| ' '),
            decreases height - y,
        {
            let mut row: Vec<char> = Vec::new();
            let mut x: usize = 0;
            while x < width
                invariant
                    x <= width,
                    row@ =~= Seq::new(x as nat, |k: int| ' '),
                decreases width - x,
            {
                row.push(' ');
                x = x + 1;
            }
            grid.push(row);
            y = y + 1;
        }
        let r = Layout { width, height, baseline, grid };
        assert(r@.rows =~~= blank(width as nat, height as nat, baseline as nat).rows);
        r
    }

    pub fn width(&self) -> (r: usize)
        ensures
            r == self@.width,
    {
        self.width
    }

    pub fn height(&self) -> (r: usize)
        ensures
            r == self@.height,
    {
        self.height
    }

    pub fn baseline(&self) -> (r: usize)
        ensures
            r == self@.baseline,
    {
        self.baseline
    }

    /// The character at row `y`, column `x`.
    pub fn get(&self, y: usize, x: usize) -> (c: char)
        requires
            self@.wf(),
            y < self@.height,
            x < self@.width,
        ensures
            c == self@.rows[y as int][x as int],
    {
        assert(self@.rows[y as int] == self.grid@[y as int]@);
        self.grid[y][x]
    }

    fn set(&mut self, y: usize, x: usize, c: char)
        requires
            old(self)@.wf(),
            y < old(self)@.height,
            x < old(self)@.width,
        ensures
            final(self)@ == put(old(self)@, y as int, x as int, c),
            final(self)@.wf(),
    {
        assert(self@.rows[y as int] == self.grid@[y as int]@);
        self.grid[y][x] = c;
        assert(self@.rows =~~= put(old(self)@, y as int, x as int, c).rows);
    }

    fn fill_row(&mut self, y: usize, x0: usize, x1: usize, c: char)
        requires
            old(self)@.wf(),
            y < old(self)@.height,
            x1 <= old(self)@.width,
        ensures
            final(self)@ == hline(old(self)@, y as int, x0 as int, x1 as int, c),
            final(self)@.wf(),
    {
        let ghost start = self@;
        let mut x = x0;
        while x < x1
            invariant
                self@.wf(),
                self@.width == start.width,
                self@.height == start.height,
                self@.baseline == start.baseline,
                start.wf(),
                y < start.height,
                x1 <= start.width,
                x0 <= x <= x1 || (x == x0 && x0 > x1),
                forall|r: int| 0 <= r < start.height && r != y ==> #[trigger] self@.rows[r] == start.rows[r],
                forall|k: int| 0 <= k < start.width ==> #[trigger] self@.rows[y as int][k] == if x0 <= k < x { c } else { start.rows[y as int][k] },
            decreases x1 - x,
        {
            self.set(y, x, c);
            x = x + 1;
        }
        assert(self@.rows =~~= hline(start, y as int, x0 as int, x1 as int, c).rows);
    }

    fn fill_col(&mut self, x: usize, y0: usize, y1: usize, c: char)
        requires
            old(self)@.wf(),
            x < old(self)@.width,
            y1 <= old(self)@.height,
        ensures
            final(self)@ == vline(old(self)@, x as int, y0 as int, y1 as int, c),
            final(self)@.wf(),
    {
        let ghost start = self@;
        let mut y = y0;
        while y < y1
            invariant
                self@.wf(),
                self@.width == start.width,
                self@.height == start.height,
                self@.baseline == start.baseline,
                start.wf(),
                x < start.width,
                y1 <= start.height,
                y0 <= y <= y1 || (y == y0 && y0 > y1),
                forall|r: int| 0 <= r < start.height ==> #[trigger] self@.rows[r] == if y0 <= r < y { start.rows[r].update(x as int, c) } else { start.rows[r] },
            decreases y1 - y,
        {
            self.set(y, x, c);
            y = y + 1;
        }
        assert(self@.rows =~~= vline(start, x as int, y0 as int, y1 as int, c).rows);
    }

    /// Copies `other` over this layout, its top left corner at column `x_off`, row `y_off`.
    pub fn blit(&mut self, other: &Layout, x_off: usize, y_off: usize)
        requires
            old(self)@.wf(),
            other@.wf(),
            y_off + other@.height <= old(self)@.height,
            x_off + other@.width <= old(self)@.width,
        ensures
            final(self)@ == paste(old(self)@, other@, x_off as int, y_off as int),
            final(self)@.wf(),
    {
        let ghost start = self@;
        let ghost src = other@;
        let mut y: usize = 0;
        while y < other.height
            invariant
                self@.wf(),
                start.wf(),
                src.wf(),
                src == other@,
                self@.width == start.width,
                self@.height == start.height,
                self@.baseline == start.baseline,
                y_off + src.height <= start.height,
                x_off + src.width <= start.width,
                y <= src.height,
                forall|r: int, k: int| 0 <= r < start.height && 0 <= k < start.width ==>
                    #[trigger] self@.rows[r][k] == if y_off <= r < y_off + y && x_off <= k < x_off + src.width {
                        src.rows[r - y_off][k - x_off]
                    } else {
                        start.rows[r][k]
                    },
            decreases src.height - y,
        {
            let mut x: usize = 0;
            while x < other.width
                invariant
                    self@.wf(),
                    start.wf(),
                    src.wf(),
                    src == other@,
                    self@.width == start.width,
                    self@.height == start.height,
                    self@.baseline == start.baseline,
                    y_off + src.height <= start.height,
                    x_off + src.width <= start.width,
                    y < src.height,
                    x <= src.width,
                    forall|r: int, k: int| 0 <= r < start.height && 0 <= k < start.width ==>
                        #[trigger] self@.rows[r][k] == if (y_off <= r < y_off + y && x_off <= k < x_off + src.width)
                            || (r == y_off + y && x_off <= k < x_off + x) {
                            src.rows[r - y_off][k - x_off]
                        } else {
                            start.rows[r][k]
                        },
                decreases src.width - x,
            {
                assert(src.rows[y as int] == other.grid@[y as int]@);
                let c = other.grid[y][x];
                self.set(y + y_off, x + x_off, c);
                x = x + 1;
            }
            y = y + 1;
        }
        assert(self@.rows =~~= paste(start, src, x_off as int, y_off as int).rows);
    }
}

/// The number of bytes of the UTF-8 encoding of `s`.
pub open spec fn utf8_len(s: Seq<char>) -> nat {
    vstd::utf8::encode_utf8(s).len()
}

pub open spec fn is_ascii_digit(c: char) -> bool {
    '0' <= c <= '9'
}

/// `s` is a string of ASCII digits (the empty string included).
pub open spec fn all_digits(s: Seq<char>) -> bool {
    forall|i: int| 0 <= i < s.len() ==> is_ascii_digit(#[trigger] s[i])
}

/// `t` is a number: a name made only of ASCII digits.
pub open spec fn is_num(t: Term) -> bool {
    t matches Term::VarNum(s) && all_digits(s)
}

/// `t` is a name of exactly one character, an ASCII digit.
pub open spec fn is_single_digit(t: Term) -> bool {
    t matches Term::VarNum(s) && s.len() == 1 && is_ascii_digit(s[0])
}

/// The superscript form of the ASCII digit `c`.
pub open spec fn superscript_digit(c: char) -> char {
    if c == '0' {
        '⁰'
    } else if c == '1' {
        '¹'
    } else if c == '2' {
        '²'
    } else if c == '3' {
        '³'
    } else if c == '4' {
        '⁴'
    } else if c == '5' {
        '⁵'
    } else if c == '6' {
        '⁶'
    } else if c == '7' {
        '⁷'
    } else if c == '8' {
        '⁸'
    } else {
        '⁹'
    }
}

/// The code point of the superscript form of the ASCII digit `c`: U+00B9, U+00B2 and
/// U+00B3 for one, two and three, and U+2070 plus the digit's value for the others.
pub open spec fn superscript_code(c: char) -> u32 {
    if c == '1' {
        0xB9
    } else if c == '2' {
        0xB2
    } else if c == '3' {
        0xB3
    } else {
        (0x2070 + (c as u32 - '0' as u32)) as u32
    }
}

/// Each ASCII digit has its own superscript form, at the code point Unicode gives it,
/// and different digits have different ones.
pub proof fn lemma_superscript_digits()
    ensures
        forall|c: char| '0' <= c <= '9' ==> (#[trigger] superscript_digit(c)) as u32 == superscript_code(c),
        forall|c: char, d: char|
            '0' <= c <= '9' && '0' <= d <= '9' && c != d ==> #[trigger] superscript_digit(c)
                != #[trigger] superscript_digit(d),
{
    assert forall|c: char| '0' <= c <= '9' implies (#[trigger] superscript_digit(c)) as u32 == superscript_code(c) by {
        assert(c == '0' || c == '1' || c == '2' || c == '3' || c == '4' || c == '5' || c == '6' || c == '7'
            || c == '8' || c == '9');
    }
    assert forall|c: char, d: char|
        '0' <= c <= '9' && '0' <= d <= '9' && c != d implies #[trigger] superscript_digit(c)
            != #[trigger] superscript_digit(d) by {
        assert(c == '0' || c == '1' || c == '2' || c == '3' || c == '4' || c == '5' || c == '6' || c == '7'
            || c == '8' || c == '9');
        assert(d == '0' || d == '1' || d == '2' || d == '3' || d == '4' || d == '5' || d == '6' || d == '7'
            || d == '8' || d == '9');
    }
}

/// `k` prime marks.
pub open spec fn primes(k: nat) -> Seq<char> {
    Seq::new(k, |i: int| '\'')
}

/// One row of width `w` that starts with the characters of `s` and is padded with spaces.
pub open spec fn text_pic(s: Seq<char>, w: nat) -> Picture {
    Picture {
        width: w,
        height: 1,
        baseline: 0,
        rows: seq![Seq::new(w, |x: int| if x < s.len() { s[x] } else { ' ' })],
    }
}

/// `e` between a pair of delimiters: one character each side when `e` is one row
/// high, otherwise a column of pieces each side with one space of padding inside.
pub open spec fn delim_pic(
    e: Picture,
    one_left: char,
    one_right: char,
    top_left: char,
    top_right: char,
    bottom_left: char,
    bottom_right: char,
    side: char,
) -> Picture {
    if e.height > 1 {
        let w = e.width + 4;
        let h = e.height;
        let p = paste(blank(w, h, e.baseline), e, 2, 0);
        let p = put(p, 0, 0, top_left);
        let p = put(p, 0, w - 1, top_right);
        let p = put(p, h - 1, 0, bottom_left);
        let p = put(p, h - 1, w - 1, bottom_right);
        let p = vline(p, 0, 1, h - 1, side);
        vline(p, w - 1, 1, h - 1, side)
    } else {
        let w = e.width + 2;
        let p = paste(blank(w, e.height, e.baseline), e, 1, 0);
        let p = put(p, 0, 0, one_left);
        put(p, 0, w - 1, one_right)
    }
}

pub open spec fn parens_pic(e: Picture) -> Picture {
    delim_pic(e, '(', ')', '⎛', '⎞', '⎝', '⎠', '⎟')
}

pub open spec fn brackets_pic(e: Picture) -> Picture {
    delim_pic(e, '[', ']', '⎡', '⎤', '⎣', '⎦', '⎢')
}

/// Braces: like the other delimiters, with the middle pieces on the baseline row.
pub open spec fn braces_pic(e: Picture) -> Picture {
    let p = delim_pic(e, '{', '}', '⎧', '⎫', '⎩', '⎭', '⎪');
    if e.height > 1 && 1 <= e.baseline < e.height - 1 {
        put(put(p, e.baseline as int, 0, '⎨'), e.baseline as int, p.width - 1, '⎬')
    } else {
        p
    }
}

/// `l` and `r` side by side on a common baseline, with `op` between them.
pub open spec fn infix_pic(l: Picture, op: char, r: Picture) -> Picture {
    let b = if l.baseline >= r.baseline { l.baseline } else { r.baseline };
    let ly = b - l.baseline;
    let ry = b - r.baseline;
    let w = l.width + r.width + 3;
    let h = if ly + l.height >= ry + r.height { ly + l.height } else { ry + r.height };
    let p = paste(blank(w, h as nat, b), l, 0, ly);
    let p = put(p, b as int, l.width + 1int, op);
    paste(p, r, l.width + 3int, ry)
}

/// A product: `l` and `r` on a common baseline, with a `·` between them when `dot`.
pub open spec fn mul_pic(l: Picture, r: Picture, dot: bool) -> Picture {
    let b = if l.baseline >= r.baseline { l.baseline } else { r.baseline };
    let lb = l.height - l.baseline;
    let rb = r.height - r.baseline;
    let h = b + if lb >= rb { lb } else { rb };
    if dot {
        let w = l.width + 3 + r.width;
        let p = paste(blank(w, h as nat, b), l, 0, b - l.baseline);
        let p = put(p, b as int, l.width + 1int, '·');
        paste(p, r, l.width + 3int, b - r.baseline)
    } else {
        let w = l.width + r.width;
        let p = paste(blank(w, h as nat, b), l, 0, b - l.baseline);
        paste(p, r, l.width as int, b - r.baseline)
    }
}

/// Whether a product is written with a `·` between its factors.
pub open spec fn needs_dot(l: Term, r: Term) -> bool {
    ||| is_num(l) && is_num(r)
    ||| (l matches Term::Power(_, e) && is_num(*e) && is_num(r))
    ||| (l matches Term::VarNum(s) && !all_digits(s) && is_num(r))
    ||| l is Fraction
}

/// A fraction: `n` over `d`, each centred, with a rule between them; one column of
/// padding each side at the outermost level.
pub open spec fn frac_pic(n: Picture, d: Picture, depth: nat) -> Picture {
    let h = n.height + d.height + 1;
    let pad: nat = if depth == 0 { 1 } else { 0 };
    let w = (if n.width >= d.width { n.width } else { d.width }) + 2 * pad;
    let b = n.height;
    let p = paste(blank(w, h, b), n, (w - n.width) / 2, 0);
    let p = paste(p, d, (w - d.width) / 2, b + 1int);
    hline(p, b as int, 0, w as int, '─')
}

/// A square root sign before `a`: the compact `√` when `compact`, otherwise a
/// sign that spans the height of `a` with a bar above it.
pub open spec fn sqrt_pic(a: Picture, compact: bool) -> Picture {
    if compact {
        let p = put(blank(a.width + 1, 1, 0), 0, 0, '√');
        paste(p, a, 1, 0)
    } else {
        let h = a.height + 1;
        let w = a.width + 2;
        let p = paste(blank(w, h, a.baseline + 1), a, 2, 1);
        let p = put(p, 0, 1, '┌');
        let p = hline(p, 0, 2, w as int, '─');
        let p = vline(p, 1, 1, h as int, '│');
        put(p, h - 1, 0, '╲')
    }
}

/// A function application: its name and its argument side by side on a common baseline.
pub open spec fn apply_pic(n: Picture, a: Picture) -> Picture {
    let h = if n.height >= a.height { n.height } else { a.height };
    let b = if n.baseline >= a.baseline { n.baseline } else { a.baseline };
    let w = n.width + a.width;
    let p = paste(blank(w, h, b), n, 0, b - n.baseline);
    paste(p, a, n.width as int, b - a.baseline)
}

pub open spec fn sqrt_name() -> Seq<char> {
    seq!['s', 'q', 'r', 't']
}

/// The layout of `t` at nesting depth `depth` (the depth grows inside fractions and exponents).
pub open spec fn spec_layout(t: Term, depth: nat) -> Picture
    decreases t, 1int,
{
    match t {
        Term::VarNum(s) => text_pic(s, utf8_len(s)),
        Term::Power(base, exponent) => stripped_power_pic(spec_layout(*base, depth), *exponent, depth),
        Term::Add(l, r) => infix_pic(spec_layout(*l, depth), '+', spec_layout(*r, depth)),
        Term::Sub(l, r) => infix_pic(spec_layout(*l, depth), '-', spec_layout(*r, depth)),
        Term::Eq(l, r) => infix_pic(spec_layout(*l, depth), '=', spec_layout(*r, depth)),
        Term::Mul(l, r) => mul_pic(spec_layout(*l, depth), spec_layout(*r, depth), needs_dot(*l, *r)),
        Term::Fraction(n, d) => frac_pic(stripped_layout(*n, depth + 1), stripped_layout(*d, depth + 1), depth),
        Term::Parens(e) => parens_pic(spec_layout(*e, depth)),
        Term::Brackets(e) => brackets_pic(spec_layout(*e, depth)),
        Term::Braces(e) => braces_pic(spec_layout(*e, depth)),
        Term::Fn { name, power, derivatives, args } => {
            if name == sqrt_name() && derivatives == 0 {
                let a = spec_layout(*args, depth);
                let core = sqrt_pic(a, a.height == 1 && (*args) is VarNum);
                match power {
                    Some(p) => power_pic(parens_pic(core), *p, depth),
                    None => core,
                }
            } else {
                let n0 = text_pic(name + primes(derivatives), utf8_len(name) + derivatives);
                let n = match power {
                    Some(p) => power_pic(n0, *p, depth),
                    None => n0,
                };
                apply_pic(n, parens_pic(spec_layout(*args, depth)))
            }
        },
    }
}

/// The layout of `t`, or of what it encloses when it is in parentheses.
pub open spec fn stripped_layout(t: Term, depth: nat) -> Picture
    decreases t, 2int,
{
    match t {
        Term::Parens(e) => spec_layout(*e, depth),
        _ => spec_layout(t, depth),
    }
}

/// `base` raised to `e`: a single digit becomes a superscript character after `base`;
/// anything else is laid out one level deeper, above and to the right of `base`.
pub open spec fn power_pic(base: Picture, e: Term, depth: nat) -> Picture
    decreases e, 2int,
{
    if is_single_digit(e) {
        let w = base.width + 1;
        let p = paste(blank(w, base.height, base.baseline), base, 0, 0);
        put(p, 0, w - 1, superscript_digit(e->VarNum_0[0]))
    } else {
        let x = spec_layout(e, depth + 1);
        let p = blank(x.width + base.width, x.height + base.height, base.baseline + x.height);
        let p = paste(p, base, 0, x.height as int);
        paste(p, x, base.width as int, 0)
    }
}

pub open spec fn stripped_power_pic(base: Picture, t: Term, depth: nat) -> Picture
    decreases t, 3int,
{
    match t {
        Term::Parens(e) => power_pic(base, *e, depth),
        _ => power_pic(base, t, depth),
    }
}

/// The numbers of `p` fit in a `usize`.
pub open spec fn fits(p: Picture) -> bool {
    p.width <= usize::MAX && p.height <= usize::MAX
}

/// Laying out `t` at `depth` keeps every size within a `usize` and every piece within
/// the rectangle it is copied into.
pub open spec fn layout_ok(t: Term, depth: nat) -> bool
    decreases t, 1int,
{
    match t {
        Term::VarNum(s) => utf8_len(s) <= usize::MAX,
        Term::Power(base, exponent) => layout_ok(*base, depth) && stripped_power_ok(
            spec_layout(*base, depth),
            *exponent,
            depth,
        ),
        Term::Add(l, r) => layout_ok(*l, depth) && layout_ok(*r, depth) && fits(spec_layout(t, depth)),
        Term::Sub(l, r) => layout_ok(*l, depth) && layout_ok(*r, depth) && fits(spec_layout(t, depth)),
        Term::Eq(l, r) => layout_ok(*l, depth) && layout_ok(*r, depth) && fits(spec_layout(t, depth)),
        Term::Mul(l, r) => layout_ok(*l, depth) && layout_ok(*r, depth) && fits(spec_layout(t, depth)),
        Term::Fraction(n, d) => depth + 1 <= usize::MAX && stripped_ok(*n, depth + 1) && stripped_ok(
            *d,
            depth + 1,
        ) && fits(spec_layout(t, depth)),
        Term::Parens(e) => layout_ok(*e, depth) && fits(spec_layout(t, depth)),
        Term::Brackets(e) => layout_ok(*e, depth) && fits(spec_layout(t, depth)),
        Term::Braces(e) => layout_ok(*e, depth) && fits(spec_layout(t, depth)),
        Term::Fn { name, power, derivatives, args } => {
            if name == sqrt_name() && derivatives == 0 {
                let a = spec_layout(*args, depth);
                let core = sqrt_pic(a, a.height == 1 && (*args) is VarNum);
                &&& layout_ok(*args, depth)
                &&& fits(core)
                &&& match power {
                    Some(p) => fits(parens_pic(core)) && power_ok(parens_pic(core), *p, depth),
                    None => true,
                }
            } else {
                let n0 = text_pic(name + primes(derivatives), utf8_len(name) + derivatives);
                let n = match power {
                    Some(p) => power_pic(n0, *p, depth),
                    None => n0,
                };
                let a = parens_pic(spec_layout(*args, depth));
                let f = apply_pic(n, a);
                &&& utf8_len(name) + derivatives <= usize::MAX
                &&& match power {
                    Some(p) => power_ok(n0, *p, depth),
                    None => true,
                }
                &&& layout_ok(*args, depth)
                &&& fits(a)
                &&& fits(f)
                &&& f.baseline - n.baseline + n.height <= f.height
                &&& f.baseline - a.baseline + a.height <= f.height
            }
        },
    }
}

pub open spec fn stripped_ok(t: Term, depth: nat) -> bool
    decreases t, 2int,
{
    match t {
        Term::Parens(e) => layout_ok(*e, depth),
        _ => layout_ok(t, depth),
    }
}

pub open spec fn power_ok(base: Picture, e: Term, depth: nat) -> bool
    decreases e, 2int,
{
    if is_single_digit(e) {
        base.width + 1 <= usize::MAX
    } else {
        depth + 1 <= usize::MAX && layout_ok(e, depth + 1) && fits(power_pic(base, e, depth))
    }
}

pub open spec fn stripped_power_ok(base: Picture, t: Term, depth: nat) -> bool
    decreases t, 3int,
{
    match t {
        Term::Parens(e) => power_ok(base, *e, depth),
        _ => power_ok(base, t, depth),
    }
}

/// A laid-out picture: well formed, at least one row high, baseline on a row.
pub open spec fn shaped(p: Picture) -> bool {
    p.wf() && p.baseline < p.height
}

proof fn lemma_utf8_len_ge(s: Seq<char>)
    ensures
        utf8_len(s) >= s.len(),
    decreases s.len(),
{
    if s.len() > 0 {
        lemma_utf8_len_ge(s.drop_first());
        assert(vstd::utf8::encode_scalar(s[0] as u32).len() >= 1);
    }
}

/// Whether every character of `s` is an ASCII digit.
fn all_ascii_digits(s: &String) -> (r: bool)
    ensures
        r == all_digits(s@),
{
    let n = s.as_str().unicode_len();
    let mut i: usize = 0;
    while i < n
        invariant
            n == s@.len(),
            i <= n,
            forall|j: int| 0 <= j < i ==> is_ascii_digit(#[trigger] s@[j]),
        decreases n - i,
    {
        let c = s.as_str().get_char(i);
        if !('0' <= c && c <= '9') {
            return false;
        }
        i = i + 1;
    }
    true
}

fn is_num_expr(e: &Expr) -> (r: bool)
    ensures
        r == is_num(e@),
{
    match e {
        Expr::VarNum(s) => all_ascii_digits(s),
        _ => false,
    }
}

/// The digit of `e` when `e` is a name of exactly one ASCII digit.
fn single_digit(e: &Expr) -> (r: Option<char>)
    ensures
        r is Some <==> is_single_digit(e@),
        r matches Some(c) ==> c == e@->VarNum_0[0],
{
    match e {
        Expr::VarNum(s) => {
            if s.as_str().unicode_len() == 1 {
                let c = s.as_str().get_char(0);
                if '0' <= c && c <= '9' {
                    return Some(c);
                }
            }
            None
        },
        _ => None,
    }
}

fn superscript(c: char) -> (r: char)
    ensures
        r == superscript_digit(c),
{
    if c == '0' {
        '⁰'
    } else if c == '1' {
        '¹'
    } else if c == '2' {
        '²'
    } else if c == '3' {
        '³'
    } else if c == '4' {
        '⁴'
    } else if c == '5' {
        '⁵'
    } else if c == '6' {
        '⁶'
    } else if c == '7' {
        '⁷'
    } else if c == '8' {
        '⁸'
    } else {
        '⁹'
    }
}

fn is_sqrt_name(name: &String) -> (r: bool)
    ensures
        r == (name@ == sqrt_name()),
{
    if name.as_str().unicode_len() != 4 {
        return false;
    }
    let r = name.as_str().get_char(0) == 's' && name.as_str().get_char(1) == 'q'
        && name.as_str().get_char(2) == 'r' && name.as_str().get_char(3) == 't';
    proof {
        if r {
            assert(name@ =~= sqrt_name());
        }
    }
    r
}

/// What `e` encloses when it is in parentheses, otherwise `e` itself.
fn strip_parenthesis(e: &Expr) -> (r: &Expr)
    ensures
        match e {
            Expr::Parens(inner) => r == &**inner,
            _ => r == e,
        },
        match e@ {
            Term::Parens(inner) => r@ == *inner,
            _ => r@ == e@,
        },
{
    match e {
        Expr::Parens(inner) => inner,
        _ => e,
    }
}

impl Layout {
    /// One row holding the characters of `s` followed by `k` primes; its width is the
    /// UTF-8 byte length of `s` plus `k`.
    fn from_text(s: &String, k: usize) -> (r: Layout)
        requires
            utf8_len(s@) + k <= usize::MAX,
        ensures
            r@ == text_pic(s@ + primes(k as nat), utf8_len(s@) + k as nat),
            shaped(r@),
    {
        let n = s.as_str().len();
        proof {
            lemma_utf8_len_ge(s@);
        }
        let mut layout = Layout::new(n + k, 1, 0);
        let cnt = s.as_str().unicode_len();
        let ghost full = s@ + primes(k as nat);
        let mut i: usize = 0;
        while i < cnt
            invariant
                cnt == s@.len(),
                cnt <= n,
                n == utf8_len(s@),
                n + k <= usize::MAX,
                full == s@ + primes(k as nat),
                i <= cnt,
                layout@.wf(),
                layout@.width == n + k,
                layout@.height == 1,
                layout@.baseline == 0,
                forall|x: int| 0 <= x < n + k ==> #[trigger] layout@.rows[0][x] == if x < i { full[x] } else { ' ' },
            decreases cnt - i,
        {
            let c = s.as_str().get_char(i);
            layout.set(0, i, c);
            i = i + 1;
        }
        let mut j: usize = 0;
        while j < k
            invariant
                cnt == s@.len(),
                cnt <= n,
                n == utf8_len(s@),
                n + k <= usize::MAX,
                full == s@ + primes(k as nat),
                j <= k,
                layout@.wf(),
                layout@.width == n + k,
                layout@.height == 1,
                layout@.baseline == 0,
                forall|x: int| 0 <= x < n + k ==> #[trigger] layout@.rows[0][x] == if x < cnt + j { full[x] } else { ' ' },
            decreases k - j,
        {
            layout.set(0, cnt + j, '\'');
            j = j + 1;
        }
        assert(layout@.rows =~~= text_pic(full, utf8_len(s@) + k as nat).rows);
        layout
    }
}

fn render_delim(
    e: Layout,
    one_left: char,
    one_right: char,
    top_left: char,
    top_right: char,
    bottom_left: char,
    bottom_right: char,
    side: char,
) -> (r: Layout)
    requires
        shaped(e@),
        fits(delim_pic(e@, one_left, one_right, top_left, top_right, bottom_left, bottom_right, side)),
    ensures
        r@ == delim_pic(e@, one_left, one_right, top_left, top_right, bottom_left, bottom_right, side),
        shaped(r@),
{
    let height = e.height;
    let mut width = e.width + 2;
    let baseline = e.baseline;
    if height > 1 {
        width = width + 2;
        let mut layout = Layout::new(width, height, baseline);
        layout.blit(&e, 2, 0);
        layout.set(0, 0, top_left);
        layout.set(0, width - 1, top_right);
        layout.set(height - 1, 0, bottom_left);
        layout.set(height - 1, width - 1, bottom_right);
        layout.fill_col(0, 1, height - 1, side);
        layout.fill_col(width - 1, 1, height - 1, side);
        layout
    } else {
        let mut layout = Layout::new(width, height, baseline);
        layout.blit(&e, 1, 0);
        layout.set(0, 0, one_left);
        layout.set(0, width - 1, one_right);
        layout
    }
}

fn render_parens(e: Layout) -> (r: Layout)
    requires
        shaped(e@),
        fits(parens_pic(e@)),
    ensures
        r@ == parens_pic(e@),
        shaped(r@),
{
    render_delim(e, '(', ')', '⎛', '⎞', '⎝', '⎠', '⎟')
}

fn render_brackets(e: Layout) -> (r: Layout)
    requires
        shaped(e@),
        fits(brackets_pic(e@)),
    ensures
        r@ == brackets_pic(e@),
        shaped(r@),
{
    render_delim(e, '[', ']', '⎡', '⎤', '⎣', '⎦', '⎢')
}

fn render_braces(e: Layout) -> (r: Layout)
    requires
        shaped(e@),
        fits(braces_pic(e@)),
    ensures
        r@ == braces_pic(e@),
        shaped(r@),
{
    let height = e.height;
    let baseline = e.baseline;
    let mut layout = render_delim(e, '{', '}', '⎧', '⎫', '⎩', '⎭', '⎪');
    if height > 1 && 1 <= baseline && baseline < height - 1 {
        let w = layout.width;
        layout.set(baseline, 0, '⎨');
        layout.set(baseline, w - 1, '⎬');
    }
    layout
}

fn render_infix(l: Layout, op: char, r: Layout) -> (res: Layout)
    requires
        shaped(l@),
        shaped(r@),
        fits(infix_pic(l@, op, r@)),
    ensures
        res@ == infix_pic(l@, op, r@),
        shaped(res@),
{
    let baseline = if l.baseline >= r.baseline { l.baseline } else { r.baseline };
    let lhs_y_offset = baseline - l.baseline;
    let rhs_y_offset = baseline - r.baseline;
    let width = l.width + r.width + 3;
    let height = if lhs_y_offset + l.height >= rhs_y_offset + r.height {
        lhs_y_offset + l.height
    } else {
        rhs_y_offset + r.height
    };
    let mut layout = Layout::new(width, height, baseline);
    layout.blit(&l, 0, lhs_y_offset);
    layout.set(baseline, l.width + 1, op);
    layout.blit(&r, l.width + 3, rhs_y_offset);
    layout
}

fn render_mul(l: Layout, r: Layout, dot: bool) -> (res: Layout)
    requires
        shaped(l@),
        shaped(r@),
        fits(mul_pic(l@, r@, dot)),
    ensures
        res@ == mul_pic(l@, r@, dot),
        shaped(res@),
{
    let baseline = if l.baseline >= r.baseline { l.baseline } else { r.baseline };
    let lhs_below = l.height - l.baseline;
    let rhs_below = r.height - r.baseline;
    let height = baseline + if lhs_below >= rhs_below { lhs_below } else { rhs_below };
    if dot {
        let width = l.width + 3 + r.width;
        let mut layout = Layout::new(width, height, baseline);
        layout.blit(&l, 0, baseline - l.baseline);
        layout.set(baseline, l.width + 1, '·');
        layout.blit(&r, l.width + 3, baseline - r.baseline);
        layout
    } else {
        let width = l.width + r.width;
        let mut layout = Layout::new(width, height, baseline);
        layout.blit(&l, 0, baseline - l.baseline);
        layout.blit(&r, l.width, baseline - r.baseline);
        layout
    }
}

fn render_fraction(n: Layout, d: Layout, depth: usize) -> (res: Layout)
    requires
        shaped(n@),
        shaped(d@),
        fits(frac_pic(n@, d@, depth as nat)),
    ensures
        res@ == frac_pic(n@, d@, depth as nat),
        shaped(res@),
{
    let height = n.height + d.height + 1;
    let side_padding: usize = if depth == 0 { 1 } else { 0 };
    let width = (if n.width >= d.width { n.width } else { d.width }) + side_padding * 2;
    let baseline = n.height;
    let numerator_x_offset = (width - n.width) / 2;
    let denominator_x_offset = (width - d.width) / 2;
    let mut layout = Layout::new(width, height, baseline);
    layout.blit(&n, numerator_x_offset, 0);
    layout.blit(&d, denominator_x_offset, baseline + 1);
    layout.fill_row(baseline, 0, width, '─');
    layout
}

fn render_sqrt(a: Layout, compact: bool) -> (res: Layout)
    requires
        shaped(a@),
        compact ==> a@.height == 1,
        fits(sqrt_pic(a@, compact)),
    ensures
        res@ == sqrt_pic(a@, compact),
        shaped(res@),
{
    if compact {
        let width = a.width + 1;
        let mut lay = Layout::new(width, 1, 0);
        lay.set(0, 0, '√');
        lay.blit(&a, 1, 0);
        lay
    } else {
        let height = a.height + 1;
        let width = a.width + 2;
        let baseline = a.baseline + 1;
        let mut lay = Layout::new(width, height, baseline);
        lay.blit(&a, 2, 1);
        lay.set(0, 1, '┌');
        lay.fill_row(0, 2, width, '─');
        lay.fill_col(1, 1, height, '│');
        lay.set(height - 1, 0, '╲');
        lay
    }
}

fn render_apply(n: Layout, a: Layout) -> (res: Layout)
    requires
        shaped(n@),
        shaped(a@),
        fits(apply_pic(n@, a@)),
        apply_pic(n@, a@).baseline - n@.baseline + n@.height <= apply_pic(n@, a@).height,
        apply_pic(n@, a@).baseline - a@.baseline + a@.height <= apply_pic(n@, a@).height,
    ensures
        res@ == apply_pic(n@, a@),
        shaped(res@),
{
    let final_height = if n.height >= a.height { n.height } else { a.height };
    let final_baseline = if n.baseline >= a.baseline { n.baseline } else { a.baseline };
    let final_width = n.width + a.width;
    let mut final_layout = Layout::new(final_width, final_height, final_baseline);
    final_layout.blit(&n, 0, final_baseline - n.baseline);
    final_layout.blit(&a, n.width, final_baseline - a.baseline);
    final_layout
}


/// A name or a number: its characters on one row, as wide as its UTF-8 encoding.
fn render_text(x: &String) -> (r: Layout)
    requires
        utf8_len(x@) <= usize::MAX,
    ensures
        r@ == text_pic(x@, utf8_len(x@)),
        shaped(r@),
{
    let layout = Layout::from_text(x, 0);
    assert(x@ + primes(0) =~= x@);
    layout
}

proof fn lemma_stripped(t: Term, depth: nat)
    ensures
        match t {
            Term::Parens(inner) => stripped_layout(t, depth) == spec_layout(*inner, depth)
                && stripped_ok(t, depth) == layout_ok(*inner, depth),
            _ => stripped_layout(t, depth) == spec_layout(t, depth) && stripped_ok(t, depth)
                == layout_ok(t, depth),
        },
{
}

proof fn lemma_stripped_power(base: Picture, t: Term, depth: nat)
    ensures
        match t {
            Term::Parens(inner) => stripped_power_pic(base, t, depth) == power_pic(base, *inner, depth)
                && stripped_power_ok(base, t, depth) == power_ok(base, *inner, depth),
            _ => stripped_power_pic(base, t, depth) == power_pic(base, t, depth)
                && stripped_power_ok(base, t, depth) == power_ok(base, t, depth),
        },
{
}

/// `base_layout` raised to `exponent`.
fn render_power(base_layout: Layout, exponent: &Expr, depth: usize) -> (res: Layout)
    requires
        shaped(base_layout@),
        power_ok(base_layout@, exponent@, depth as nat),
    ensures
        res@ == power_pic(base_layout@, exponent@, depth as nat),
        shaped(res@),
    decreases exponent, 2int,
{
    match single_digit(exponent) {
        Some(ch) => {
            let width = base_layout.width + 1;
            let mut layout = Layout::new(width, base_layout.height, base_layout.baseline);
            layout.blit(&base_layout, 0, 0);
            layout.set(0, width - 1, superscript(ch));
            layout
        },
        None => {
            let exponent_layout = Layout::compute_layout(exponent, depth + 1);
            let height = exponent_layout.height + base_layout.height;
            let width = exponent_layout.width + base_layout.width;
            let baseline = base_layout.baseline + exponent_layout.height;
            let mut layout = Layout::new(width, height, baseline);
            layout.blit(&base_layout, 0, exponent_layout.height);
            layout.blit(&exponent_layout, base_layout.width, 0);
            layout
        },
    }
}

impl Layout {
    /// The layout engine: lays out `expr` at nesting depth `depth`.
    #[verifier::rlimit(60)]
    #[verifier::spinoff_prover]
    pub fn compute_layout(expr: &Expr, depth: usize) -> (r: Layout)
        requires
            layout_ok(expr@, depth as nat),
        ensures
            r@ == spec_layout(expr@, depth as nat),
            shaped(r@),
        decreases expr, 1int,
    {
        match expr {
            Expr::VarNum(x) => render_text(x),
            Expr::Power(base, exponent) => {
                let b = Layout::compute_layout(base, depth);
                let e = strip_parenthesis(exponent);
                proof {
                    lemma_stripped_power(b@, (**exponent)@, depth as nat);
                }
                render_power(b, e, depth)
            },
            Expr::Add(lhs, rhs) => {
                let l = Layout::compute_layout(lhs, depth);
                let r = Layout::compute_layout(rhs, depth);
                render_infix(l, '+', r)
            },
            Expr::Sub(lhs, rhs) => {
                let l = Layout::compute_layout(lhs, depth);
                let r = Layout::compute_layout(rhs, depth);
                render_infix(l, '-', r)
            },
            Expr::Eq(lhs, rhs) => {
                let l = Layout::compute_layout(lhs, depth);
                let r = Layout::compute_layout(rhs, depth);
                render_infix(l, '=', r)
            },
            Expr::Mul(lhs, rhs) => {
                let l = Layout::compute_layout(lhs, depth);
                let r = Layout::compute_layout(rhs, depth);
                let dot = if is_num_expr(lhs) && is_num_expr(rhs) {
                    true
                } else if match &**lhs {
                    Expr::Power(_, exp) => is_num_expr(exp) && is_num_expr(rhs),
                    _ => false,
                } {
                    true
                } else if match &**lhs {
                    Expr::VarNum(s) => !all_ascii_digits(s) && is_num_expr(rhs),
                    _ => false,
                } {
                    true
                } else if match &**lhs {
                    Expr::Fraction(_, _) => true,
                    _ => false,
                } {
                    true
                } else {
                    false
                };
                render_mul(l, r, dot)
            },
            Expr::Fraction(numerator, denominator) => {
                let sn = strip_parenthesis(numerator);
                let sd = strip_parenthesis(denominator);
                proof {
                    lemma_stripped((**numerator)@, depth as nat + 1);
                    lemma_stripped((**denominator)@, depth as nat + 1);
                }
                let n = Layout::compute_layout(sn, depth + 1);
                let d = Layout::compute_layout(sd, depth + 1);
                render_fraction(n, d, depth)
            },
            Expr::Parens(e) => render_parens(Layout::compute_layout(e, depth)),
            Expr::Brackets(e) => render_brackets(Layout::compute_layout(e, depth)),
            Expr::Braces(e) => render_braces(Layout::compute_layout(e, depth)),
            Expr::Fn { name, power, derivatives, args } => {
                if is_sqrt_name(name) && *derivatives == 0 {
                    let a = Layout::compute_layout(args, depth);
                    let compact = a.height == 1 && match &**args {
                        Expr::VarNum(_) => true,
                        _ => false,
                    };
                    let core = render_sqrt(a, compact);
                    match power {
                        Some(p) => render_power(render_parens(core), p, depth),
                        None => core,
                    }
                } else {
                    let n0 = Layout::from_text(name, *derivatives);
                    let n = match power {
                        Some(p) => render_power(n0, p, depth),
                        None => n0,
                    };
                    let a = render_parens(Layout::compute_layout(args, depth));
                    render_apply(n, a)
                }
            },
        }
    }
}


// ---------------------------------------------------------------------------
// Deciding in advance whether a layout can be computed.
// ---------------------------------------------------------------------------

proof fn lemma_power_shape(base: Picture, e: Term, depth: nat)
    requires
        base.baseline < base.height,
        power_ok(base, e, depth),
    ensures
        power_pic(base, e, depth).baseline < power_pic(base, e, depth).height,
        power_pic(base, e, depth).width >= base.width,
        power_pic(base, e, depth).height >= base.height,
    decreases e, 2int,
{
    if !is_single_digit(e) {
        lemma_shape(e, depth + 1);
    }
}

/// A fraction is its numerator over its denominator, each centred, with a rule
/// across the whole width on the baseline row between them; it is padded one column
/// each side at the outermost level only.
pub proof fn lemma_fraction_layout(n: Term, d: Term, depth: nat)
    ensures
        ({
            let f = spec_layout(Term::Fraction(Box::new(n), Box::new(d)), depth);
            let top = stripped_layout(n, depth + 1);
            let bottom = stripped_layout(d, depth + 1);
            let pad: nat = if depth == 0 { 1 } else { 0 };
            let inner: nat = if top.width >= bottom.width { top.width } else { bottom.width };
            &&& f.wf()
            &&& f.width == inner + 2 * pad
            &&& f.height == top.height + bottom.height + 1
            &&& f.baseline == top.height
            &&& forall|x: int| 0 <= x < f.width ==> #[trigger] f.rows[f.baseline as int][x] == '─'
            &&& forall|y: int, x: int|
                0 <= y < top.height && 0 <= x < top.width ==> #[trigger] f.rows[y][(f.width - top.width) / 2
                    + x] == top.rows[y][x]
            &&& forall|y: int, x: int|
                0 <= y < bottom.height && 0 <= x < bottom.width ==> #[trigger] f.rows[top.height + 1 + y][(
                f.width - bottom.width) / 2 + x] == bottom.rows[y][x]
        }),
{
    let f = spec_layout(Term::Fraction(Box::new(n), Box::new(d)), depth);
    let top = stripped_layout(n, depth + 1);
    let bottom = stripped_layout(d, depth + 1);
    assert(f == frac_pic(top, bottom, depth));
    let w = f.width;
    assert forall|y: int, x: int|
        0 <= y < top.height && 0 <= x < top.width implies #[trigger] f.rows[y][(f.width - top.width) / 2 + x]
        == top.rows[y][x] by {
        let xo = (w - top.width) / 2;
        assert(f.rows[y][xo + x] == top.rows[y][(xo + x) - xo]);
    }
    assert forall|y: int, x: int|
        0 <= y < bottom.height && 0 <= x < bottom.width implies #[trigger] f.rows[top.height + 1 + y][(f.width
        - bottom.width) / 2 + x] == bottom.rows[y][x] by {
        let xo = (w - bottom.width) / 2;
        let yo = top.height + 1;
        assert(f.rows[yo + y][xo + x] == bottom.rows[(yo + y) - yo][(xo + x) - xo]);
    }
}

/// A power whose exponent is one ASCII digit `d` is its base followed, on its top
/// row, by the superscript form of that same digit: one column wider than the base,
/// as high, on the same baseline.
pub proof fn lemma_digit_power_layout(base: Term, d: char, depth: nat)
    requires
        '0' <= d <= '9',
        layout_ok(Term::Power(Box::new(base), Box::new(Term::VarNum(seq![d]))), depth),
    ensures
        ({
            let b = spec_layout(base, depth);
            let p = spec_layout(Term::Power(Box::new(base), Box::new(Term::VarNum(seq![d]))), depth);
            &&& p.width == b.width + 1
            &&& p.height == b.height
            &&& p.baseline == b.baseline
            &&& p.rows[0][p.width - 1] as u32 == superscript_code(d)
            &&& forall|y: int, x: int| 0 <= y < b.height && 0 <= x < b.width && b.rows[y].len() == b.width
                ==> #[trigger] p.rows[y][x] == b.rows[y][x]
        }),
{
    let e = Term::VarNum(seq![d]);
    let t = Term::Power(Box::new(base), Box::new(e));
    lemma_shape(t, depth);
    lemma_shape(base, depth);
    lemma_superscript_digits();
    assert(is_single_digit(e));
    assert(e->VarNum_0[0] == d);
    let b = spec_layout(base, depth);
    let p = spec_layout(t, depth);
    assert(p == stripped_power_pic(b, e, depth));
    assert(stripped_power_pic(b, e, depth) == power_pic(b, e, depth));
    assert(superscript_digit(d) as u32 == superscript_code(d));
}

/// What can be laid out has its baseline on one of its rows.
pub proof fn lemma_shape(t: Term, depth: nat)
    requires
        layout_ok(t, depth),
    ensures
        spec_layout(t, depth).baseline < spec_layout(t, depth).height,
    decreases t, 1int,
{
    match t {
        Term::VarNum(s) => {},
        Term::Power(base, exponent) => {
            lemma_shape(*base, depth);
            lemma_stripped_power(spec_layout(*base, depth), *exponent, depth);
            match *exponent {
                Term::Parens(inner) => lemma_power_shape(spec_layout(*base, depth), *inner, depth),
                _ => lemma_power_shape(spec_layout(*base, depth), *exponent, depth),
            }
        },
        Term::Add(l, r) => {
            lemma_shape(*l, depth);
            lemma_shape(*r, depth);
        },
        Term::Sub(l, r) => {
            lemma_shape(*l, depth);
            lemma_shape(*r, depth);
        },
        Term::Eq(l, r) => {
            lemma_shape(*l, depth);
            lemma_shape(*r, depth);
        },
        Term::Mul(l, r) => {
            lemma_shape(*l, depth);
            lemma_shape(*r, depth);
        },
        Term::Fraction(n, d) => {},
        Term::Parens(e) => {
            lemma_shape(*e, depth);
        },
        Term::Brackets(e) => {
            lemma_shape(*e, depth);
        },
        Term::Braces(e) => {
            lemma_shape(*e, depth);
        },
        Term::Fn { name, power, derivatives, args } => {
            lemma_shape(*args, depth);
            if name == sqrt_name() && derivatives == 0 {
                let a = spec_layout(*args, depth);
                let core = sqrt_pic(a, a.height == 1 && (*args) is VarNum);
                match power {
                    Some(p) => lemma_power_shape(parens_pic(core), *p, depth),
                    None => {},
                }
            } else {
                let n0 = text_pic(name + primes(derivatives), utf8_len(name) + derivatives);
                match power {
                    Some(p) => lemma_power_shape(n0, *p, depth),
                    None => {},
                }
            }
        },
    }
}

/// The number of bytes of the UTF-8 encoding of `s`, if it fits in a `usize`.
fn utf8_byte_len(s: &String) -> (r: Option<usize>)
    ensures
        r is Some <==> utf8_len(s@) <= usize::MAX,
        r matches Some(n) ==> n == utf8_len(s@),
{
    let n = s.as_str().unicode_len();
    let mut total: usize = 0;
    let mut k: usize = n;
    assert(s@.skip(n as int) =~= Seq::<char>::empty());
    while k > 0
        invariant
            n == s@.len(),
            k <= n,
            total == utf8_len(s@.skip(k as int)),
        decreases k,
    {
        k = k - 1;
        let c = s.as_str().get_char(k);
        let v = c as u32;
        proof {
            vstd::utf8::char_is_scalar(c);
            assert(s@.skip(k as int).drop_first() =~= s@.skip(k + 1));
            assert(s@.skip(k as int)[0] == c);
        }
        let w: usize = if v <= 0x7F {
            1
        } else if v <= 0x7FF {
            2
        } else if v <= 0xFFFF {
            3
        } else {
            4
        };
        assert(w == vstd::utf8::encode_scalar(v).len());
        assert(utf8_len(s@.skip(k as int)) == w + total);
        match total.checked_add(w) {
            Some(t) => total = t,
            None => {
                proof {
                    lemma_utf8_len_skip_mono(s@, 0, k as int);
                    assert(s@.skip(0) =~= s@);
                }
                return None;
            },
        }
    }
    assert(s@.skip(0) =~= s@);
    Some(total)
}

proof fn lemma_utf8_len_skip_mono(s: Seq<char>, i: int, k: int)
    requires
        0 <= i <= k <= s.len(),
    ensures
        utf8_len(s.skip(i)) >= utf8_len(s.skip(k)),
    decreases k - i,
{
    if i < k {
        assert(s.skip(i).drop_first() =~= s.skip(i + 1));
        lemma_utf8_len_skip_mono(s, i + 1, k);
    }
    assert(s.skip(0) =~= s);
}

/// The size of `p`, as `(width, height, baseline)`.
pub open spec fn dims(p: Picture) -> (nat, nat, nat) {
    (p.width, p.height, p.baseline)
}

spec fn same_dims(r: Option<(usize, usize, usize)>, ok: bool, p: Picture) -> bool {
    &&& (r is Some <==> ok)
    &&& (r matches Some((w, h, b)) ==> w == p.width && h == p.height && b == p.baseline)
}

fn delim_dims(d: (usize, usize, usize)) -> (r: Option<(usize, usize, usize)>)
    ensures
        forall|e: Picture| #![auto] dims(e) == (d.0 as nat, d.1 as nat, d.2 as nat) ==> {
            &&& (r is Some <==> fits(parens_pic(e)))
            &&& (r matches Some((w, h, b)) ==> (w, h, b) == (parens_pic(e).width as usize, parens_pic(e).height as usize, parens_pic(e).baseline as usize))
            &&& dims(brackets_pic(e)) == dims(parens_pic(e))
            &&& dims(braces_pic(e)) == dims(parens_pic(e))
        },
{
    let pad: usize = if d.1 > 1 { 4 } else { 2 };
    match d.0.checked_add(pad) {
        Some(w) => Some((w, d.1, d.2)),
        None => None,
    }
}

fn measure_power(base: (usize, usize, usize), Ghost(bp): Ghost<Picture>, exponent: &Expr, depth: usize) -> (r: Option<(usize, usize, usize)>)
    requires
        dims(bp) == (base.0 as nat, base.1 as nat, base.2 as nat),
        bp.baseline < bp.height,
    ensures
        same_dims(r, power_ok(bp, exponent@, depth as nat), power_pic(bp, exponent@, depth as nat)),
    decreases exponent, 2int,
{
    match single_digit(exponent) {
        Some(_) => match base.0.checked_add(1) {
            Some(w) => Some((w, base.1, base.2)),
            None => None,
        },
        None => {
            if depth == usize::MAX {
                return None;
            }
            match measure(exponent, depth + 1) {
                Some((ew, eh, eb)) => {
                    proof {
                        lemma_shape(exponent@, depth as nat + 1);
                    }
                    match (ew.checked_add(base.0), eh.checked_add(base.1)) {
                        (Some(w), Some(h)) => Some((w, h, base.2 + eh)),
                        _ => None,
                    }
                },
                None => None,
            }
        },
    }
}

/// The size `(width, height, baseline)` of the layout of `expr` at `depth`, or `None`
/// exactly when laying it out would overflow a `usize` or copy a piece out of bounds.
#[verifier::rlimit(100)]
#[verifier::spinoff_prover]
pub fn measure(expr: &Expr, depth: usize) -> (r: Option<(usize, usize, usize)>)
    ensures
        r is Some <==> layout_ok(expr@, depth as nat),
        r matches Some((w, h, b)) ==> w == spec_layout(expr@, depth as nat).width && h == spec_layout(
            expr@,
            depth as nat,
        ).height && b == spec_layout(expr@, depth as nat).baseline,
    decreases expr, 1int,
{
    match expr {
        Expr::VarNum(x) => match utf8_byte_len(x) {
            Some(n) => Some((n, 1, 0)),
            None => None,
        },
        Expr::Power(base, exponent) => match measure(base, depth) {
            Some(bd) => {
                proof {
                    lemma_shape(base@, depth as nat);
                    lemma_stripped_power(spec_layout(base@, depth as nat), (**exponent)@, depth as nat);
                }
                measure_power(bd, Ghost(spec_layout(base@, depth as nat)), strip_parenthesis(exponent), depth)
            },
            None => None,
        },
        Expr::Add(l, r) | Expr::Sub(l, r) | Expr::Eq(l, r) => {
            match (measure(l, depth), measure(r, depth)) {
                (Some(ld), Some(rd)) => {
                    proof {
                        lemma_shape(l@, depth as nat);
                        lemma_shape(r@, depth as nat);
                    }
                    let b = if ld.2 >= rd.2 { ld.2 } else { rd.2 };
                    let ly = b - ld.2;
                    let ry = b - rd.2;
                    let w = match ld.0.checked_add(rd.0) {
                        Some(x) => x.checked_add(3),
                        None => None,
                    };
                    let hl = ly.checked_add(ld.1);
                    let hr = ry.checked_add(rd.1);
                    match (w, hl, hr) {
                        (Some(w), Some(hl), Some(hr)) => Some((w, if hl >= hr { hl } else { hr }, b)),
                        _ => None,
                    }
                },
                _ => None,
            }
        },
        Expr::Mul(l, r) => {
            match (measure(l, depth), measure(r, depth)) {
                (Some(ld), Some(rd)) => {
                    proof {
                        lemma_shape(l@, depth as nat);
                        lemma_shape(r@, depth as nat);
                    }
                    let dot = needs_dot_expr(l, r);
                    let b = if ld.2 >= rd.2 { ld.2 } else { rd.2 };
                    let lb = ld.1 - ld.2;
                    let rb = rd.1 - rd.2;
                    let h = b.checked_add(if lb >= rb { lb } else { rb });
                    let w = match ld.0.checked_add(rd.0) {
                        Some(x) => if dot { x.checked_add(3) } else { Some(x) },
                        None => None,
                    };
                    match (w, h) {
                        (Some(w), Some(h)) => Some((w, h, b)),
                        _ => None,
                    }
                },
                _ => None,
            }
        },
        Expr::Fraction(numerator, denominator) => {
            if depth == usize::MAX {
                return None;
            }
            proof {
                lemma_stripped((**numerator)@, depth as nat + 1);
                lemma_stripped((**denominator)@, depth as nat + 1);
            }
            match (
                measure(strip_parenthesis(numerator), depth + 1),
                measure(strip_parenthesis(denominator), depth + 1),
            ) {
                (Some(nd), Some(dd)) => {
                    let pad: usize = if depth == 0 { 2 } else { 0 };
                    let w = (if nd.0 >= dd.0 { nd.0 } else { dd.0 }).checked_add(pad);
                    let h = match nd.1.checked_add(dd.1) {
                        Some(x) => x.checked_add(1),
                        None => None,
                    };
                    match (w, h) {
                        (Some(w), Some(h)) => Some((w, h, nd.1)),
                        _ => None,
                    }
                },
                _ => None,
            }
        },
        Expr::Parens(e) | Expr::Brackets(e) | Expr::Braces(e) => match measure(e, depth) {
            Some(d) => {
                proof {
                    lemma_shape(e@, depth as nat);
                }
                delim_dims(d)
            },
            None => None,
        },
        Expr::Fn { name, power, derivatives, args } => {
            match measure(args, depth) {
                Some(ad) => {
                    proof {
                        lemma_shape(args@, depth as nat);
                    }
                    if is_sqrt_name(name) && *derivatives == 0 {
                        let compact = ad.1 == 1 && match &**args {
                            Expr::VarNum(_) => true,
                            _ => false,
                        };
                        let core = if compact {
                            match ad.0.checked_add(1) {
                                Some(w) => Some((w, 1, 0)),
                                None => None,
                            }
                        } else {
                            match (ad.0.checked_add(2), ad.1.checked_add(1)) {
                                (Some(w), Some(h)) => Some((w, h, ad.2 + 1)),
                                _ => None,
                            }
                        };
                        match core {
                            Some(cd) => match power {
                                Some(p) => {
                                    let ghost a = spec_layout(args@, depth as nat);
                                    let ghost cp = sqrt_pic(a, compact);
                                    match delim_dims(cd) {
                                        Some(pd) => measure_power(pd, Ghost(parens_pic(cp)), p, depth),
                                        None => None,
                                    }
                                },
                                None => Some(cd),
                            },
                            None => None,
                        }
                    } else {
                        let nw = match utf8_byte_len(name) {
                            Some(n) => n.checked_add(*derivatives),
                            None => None,
                        };
                        match nw {
                            Some(nw) => {
                                let ghost n0 = text_pic(name@ + primes(*derivatives as nat), utf8_len(name@) + *derivatives as nat);
                                let nd = match power {
                                    Some(p) => measure_power((nw, 1, 0), Ghost(n0), p, depth),
                                    None => Some((nw, 1, 0)),
                                };
                                match (nd, delim_dims(ad)) {
                                    (Some(nd), Some(a)) => {
                                        let fh = if nd.1 >= a.1 { nd.1 } else { a.1 };
                                        let fb = if nd.2 >= a.2 { nd.2 } else { a.2 };
                                        match nd.0.checked_add(a.0) {
                                            Some(fw) => {
                                                if (fb - nd.2) as u128 + nd.1 as u128 <= fh as u128
                                                    && (fb - a.2) as u128 + a.1 as u128 <= fh as u128 {
                                                    Some((fw, fh, fb))
                                                } else {
                                                    None
                                                }
                                            },
                                            None => None,
                                        }
                                    },
                                    _ => None,
                                }
                            },
                            None => None,
                        }
                    }
                },
                None => None,
            }
        },
    }
}

fn needs_dot_expr(lhs: &Expr, rhs: &Expr) -> (r: bool)
    ensures
        r == needs_dot(lhs@, rhs@),
{
    if is_num_expr(lhs) && is_num_expr(rhs) {
        true
    } else if match lhs {
        Expr::Power(_, exp) => is_num_expr(exp) && is_num_expr(rhs),
        _ => false,
    } {
        true
    } else if match lhs {
        Expr::VarNum(s) => !all_ascii_digits(s) && is_num_expr(rhs),
        _ => false,
    } {
        true
    } else {
        match lhs {
            Expr::Fraction(_, _) => true,
            _ => false,
        }
    }
}

impl Layout {
    /// Lays out `expr` when that is possible, and says so otherwise (`None`): where
    /// a size would overflow, or a piece would be copied outside its rectangle.
    pub fn try_compute_layout(expr: &Expr, depth: usize) -> (r: Option<Layout>)
        ensures
            r is Some <==> layout_ok(expr@, depth as nat),
            r matches Some(l) ==> l@ == spec_layout(expr@, depth as nat) && shaped(l@),
    {
        match measure(expr, depth) {
            Some(_) => Some(Layout::compute_layout(expr, depth)),
            None => None,
        }
    }
}


// ---------------------------------------------------------------------------
// Output.
// ---------------------------------------------------------------------------

/// `p` inside a box drawn with line characters, with one blank row and column of
/// padding between the box and `p`.
pub open spec fn framed_pic(p: Picture) -> Picture {
    let w = p.width + 4;
    let h = p.height + 4;
    let q = blank(w, h, 0);
    let q = put(q, 0, 0, '┌');
    let q = put(q, h - 1, 0, '└');
    let q = put(q, 0, w - 1, '┐');
    let q = put(q, h - 1, w - 1, '┘');
    let q = hline(q, 0, 1, w - 1, '─');
    let q = hline(q, h - 1, 1, w - 1, '─');
    let q = vline(q, 0, 1, h - 1, '│');
    let q = vline(q, w - 1, 1, h - 1, '│');
    paste(q, p, 2, 2)
}

/// A framed picture is four columns wider and four rows taller than the picture: a
/// box of line characters around its edge, the picture itself two rows down and two
/// columns in, and spaces between the two.
pub proof fn lemma_framed_contents(p: Picture)
    requires
        p.wf(),
    ensures
        ({
            let f = framed_pic(p);
            let w = p.width + 4;
            let h = p.height + 4;
            &&& f.wf()
            &&& f.width == w
            &&& f.height == h
            &&& f.rows[0][0] == '┌' && f.rows[0][w - 1] == '┐'
            &&& f.rows[h - 1][0] == '└' && f.rows[h - 1][w - 1] == '┘'
            &&& forall|x: int| 1 <= x < w - 1 ==> #[trigger] f.rows[0][x] == '─' && f.rows[h - 1][x] == '─'
            &&& forall|y: int| 1 <= y < h - 1 ==> #[trigger] f.rows[y][0] == '│' && f.rows[y][w - 1] == '│'
            &&& forall|y: int, x: int|
                0 <= y < p.height && 0 <= x < p.width ==> #[trigger] f.rows[y + 2][x + 2] == p.rows[y][x]
            &&& forall|y: int, x: int|
                1 <= y < h - 1 && 1 <= x < w - 1 && !(2 <= y < h - 2 && 2 <= x < w - 2)
                    ==> #[trigger] f.rows[y][x] == ' '
        }),
{
    let f = framed_pic(p);
    let w = p.width + 4;
    let h = p.height + 4;
    assert(f.wf());
    assert forall|y: int, x: int|
        0 <= y < p.height && 0 <= x < p.width implies #[trigger] f.rows[y + 2][x + 2] == p.rows[y][x] by {
        assert(f.rows[y + 2][x + 2] == p.rows[(y + 2) - 2][(x + 2) - 2]);
    }
}

/// The rows of a picture one after another, each ended by a newline.
pub open spec fn text_of(rows: Seq<Seq<char>>) -> Seq<char>
    decreases rows.len(),
{
    if rows.len() == 0 {
        Seq::empty()
    } else {
        text_of(rows.drop_last()) + rows.last() + seq!['\n']
    }
}

impl Layout {
    /// This layout inside a box.
    pub fn framed(&self) -> (r: Layout)
        requires
            self@.wf(),
            self@.width + 4 <= usize::MAX,
            self@.height + 4 <= usize::MAX,
        ensures
            r@ == framed_pic(self@),
            r@.wf(),
    {
        let mut box_layout = Layout::new(self.width + 4, self.height + 4, 0);
        let w = box_layout.width;
        let h = box_layout.height;
        box_layout.set(0, 0, '┌');
        box_layout.set(h - 1, 0, '└');
        box_layout.set(0, w - 1, '┐');
        box_layout.set(h - 1, w - 1, '┘');
        box_layout.fill_row(0, 1, w - 1, '─');
        box_layout.fill_row(h - 1, 1, w - 1, '─');
        box_layout.fill_col(0, 1, h - 1, '│');
        box_layout.fill_col(w - 1, 1, h - 1, '│');
        box_layout.blit(self, 2, 2);
        box_layout
    }

    /// The characters of this layout, row by row, each row ended by a newline.
    pub fn to_string(&self) -> (r: String)
        requires
            self@.wf(),
        ensures
            r@ == text_of(self@.rows),
    {
        let mut out = String::new();
        let mut y: usize = 0;
        while y < self.height
            invariant
                self@.wf(),
                y <= self@.height,
                out@ == text_of(self@.rows.take(y as int)),
            decreases self@.height - y,
        {
            let mut x: usize = 0;
            let ghost before = out@;
            assert(self@.rows[y as int] == self.grid@[y as int]@);
            while x < self.width
                invariant
                    self@.wf(),
                    y < self@.height,
                    x <= self@.width,
                    self@.rows[y as int] == self.grid@[y as int]@,
                    out@ == before + self@.rows[y as int].take(x as int),
                decreases self@.width - x,
            {
                push_char(&mut out, self.grid[y][x]);
                x = x + 1;
                assert(out@ =~= before + self@.rows[y as int].take(x as int));
            }
            push_char(&mut out, '\n');
            assert(self@.rows.take(y + 1).drop_last() =~= self@.rows.take(y as int));
            assert(self@.rows[y as int].take(x as int) =~= self@.rows[y as int]);
            y = y + 1;
        }
        assert(self@.rows.take(y as int) =~= self@.rows);
        out
    }
}

/// Calls std's `String::push`, which appends `c` to the end of the string.
#[verifier::external_body]
pub(crate) fn push_char(s: &mut String, c: char)
    ensures
        final(s)@ == old(s)@.push(c),
{
    s.push(c);
}

/// Parses `input` and lays it out at the outermost level; `None` where the input
/// is not an expression, or its layout cannot be computed (see [`layout_ok`]).
pub fn render(input: &str) -> (r: Option<Layout>)
    ensures
        r is Some <==> (crate::parser::spec_parse(input@) matches Some(t) && layout_ok(t, 0)),
        r matches Some(l) ==> crate::parser::spec_parse(input@) matches Some(t) && l@ == spec_layout(t, 0)
            && shaped(l@),
        crate::parser::ascii_classes(input@),
{
    match crate::parser::parse(input) {
        Some(expr) => Layout::try_compute_layout(&expr, 0),
        None => None,
    }
}

/// Parses `input`, lays it out, and frames the layout in a box; `None` where
/// [`render`] gives none or the box would not fit in a `usize`.
pub fn render_boxed(input: &str) -> (r: Option<Layout>)
    ensures
        r is Some <==> (crate::parser::spec_parse(input@) matches Some(t) && layout_ok(t, 0)
            && spec_layout(t, 0).width + 4 <= usize::MAX && spec_layout(t, 0).height + 4
            <= usize::MAX),
        r matches Some(l) ==> crate::parser::spec_parse(input@) matches Some(t) && l@ == framed_pic(
            spec_layout(t, 0),
        ),
        crate::parser::ascii_classes(input@),
{
    match render(input) {
        Some(layout) => {
            if layout.width() <= usize::MAX - 4 && layout.height() <= usize::MAX - 4 {
                Some(layout.framed())
            } else {
                None
            }
        },
        None => None,
    }
}

} // verus!
