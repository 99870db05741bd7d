use vstd::prelude::*;
use crate::engine::Layout;

verus! {

// ---------------------------------------------------------------------------
// Character widths, from unicode-width.
// ---------------------------------------------------------------------------

/// The display width of `c` by unicode-width's `UnicodeWidthChar::width`: `None`
/// for a control character.
pub uninterp spec fn unicode_char_width(c: char) -> Option<usize>;

/// The display width by unicode-width's `UnicodeWidthStr::width` of the string
/// that holds the one character `c`.
pub uninterp spec fn unicode_str_width(c: char) -> usize;

/// Calls `UnicodeWidthChar::width`. The contract names the result and states what
/// the crate's source gives outright: printable ASCII characters are one column
/// wide, the control characters below U+00A0 have no width, and every character
/// from U+00A0 on has one; the width tables themselves are not stated.
#[verifier::external_body]
fn char_width(c: char) -> (r: Option<usize>)
    ensures
        r == unicode_char_width(c),
        ' ' <= c < '\u{7F}' ==> r == Some(1usize),
        c < ' ' || ('\u{7F}' <= c < '\u{A0}') ==> r is None,
        c >= '\u{A0}' ==> r is Some,
{
    unicode_width::UnicodeWidthChar::width(c)
}

/// Calls `UnicodeWidthStr::width` on the one-character string of `c`. The contract
/// names the result and states what the crate's source gives outright: a string of
/// one character up to U+00A0, control characters included, is one column wide; the
/// width tables for the other characters are not stated.
#[verifier::external_body]
fn cell_width(c: char) -> (r: usize)
    ensures
        r == unicode_str_width(c),
        c <= '\u{A0}' ==> r == 1,
{
    unicode_width::UnicodeWidthStr::width(c.to_string().as_str())
}

// ---------------------------------------------------------------------------
// Alignment of a rendered formula in an area.
// ---------------------------------------------------------------------------

#[derive(Debug, Clone, Copy)]
pub enum HorizontalAlignment {
    Left,
    Center,
    Right,
}

#[derive(Debug, Clone, Copy)]
pub enum VerticalAlignment {
    Top,
    Center,
    Bottom,
}

/// Where content goes: 0 at the start, 1 in the middle, 2 at the end.
pub open spec fn h_place(a: HorizontalAlignment) -> int {
    match a {
        HorizontalAlignment::Left => 0,
        HorizontalAlignment::Center => 1,
        HorizontalAlignment::Right => 2,
    }
}

pub open spec fn v_place(a: VerticalAlignment) -> int {
    match a {
        VerticalAlignment::Top => 0,
        VerticalAlignment::Center => 1,
        VerticalAlignment::Bottom => 2,
    }
}

/// How `content` cells fit in `area` cells placed at `place`: the first content cell
/// shown, the first area cell drawn, and how many are shown. Content that fits is
/// placed in the area; content that does not is cropped at the other side.
pub open spec fn span(content: int, area: int, place: int) -> (int, int, int) {
    let visible = if content <= area { content } else { area };
    if content <= area {
        let draw = if place == 0 {
            0
        } else if place == 1 {
            (area - content) / 2
        } else {
            area - content
        };
        (0, draw, visible)
    } else {
        let start = if place == 0 {
            0
        } else if place == 1 {
            (content - area) / 2
        } else {
            content - area
        };
        (start, 0, visible)
    }
}

/// The shown part of the content lies in the content and in the area, and is as
/// large as both allow.
pub proof fn lemma_span_fits(content: int, area: int, place: int)
    requires
        0 <= content,
        0 <= area,
    ensures
        ({
            let (start, draw, visible) = span(content, area, place);
            &&& 0 <= start && start + visible <= content
            &&& 0 <= draw && draw + visible <= area
            &&& visible == if content <= area { content } else { area }
        }),
{
}

fn span_exec(content: u16, area: u16, place: u8) -> (r: (u16, u16, u16))
    ensures
        (r.0 as int, r.1 as int, r.2 as int) == span(content as int, area as int, place as int),
{
    let visible = if content <= area { content } else { area };
    if content <= area {
        let draw = if place == 0 {
            0
        } else if place == 1 {
            (area - content) / 2
        } else {
            area - content
        };
        (0, draw, visible)
    } else {
        let start = if place == 0 {
            0
        } else if place == 1 {
            (content - area) / 2
        } else {
            content - area
        };
        (start, 0, visible)
    }
}

pub fn align_horizontal_span(content: u16, area: u16, alignment: HorizontalAlignment) -> (r: (
    u16,
    u16,
    u16,
))
    ensures
        (r.0 as int, r.1 as int, r.2 as int) == span(content as int, area as int, h_place(alignment)),
{
    let place: u8 = match alignment {
        HorizontalAlignment::Left => 0,
        HorizontalAlignment::Center => 1,
        HorizontalAlignment::Right => 2,
    };
    span_exec(content, area, place)
}

pub fn align_vertical_span(content: u16, area: u16, alignment: VerticalAlignment) -> (r: (
    u16,
    u16,
    u16,
))
    ensures
        (r.0 as int, r.1 as int, r.2 as int) == span(content as int, area as int, v_place(alignment)),
{
    let place: u8 = match alignment {
        VerticalAlignment::Top => 0,
        VerticalAlignment::Center => 1,
        VerticalAlignment::Bottom => 2,
    };
    span_exec(content, area, place)
}

// ---------------------------------------------------------------------------
// Cutting a line by display columns.
// ---------------------------------------------------------------------------

/// The width that a character advances the column by: its display width, 0 for a
/// control character.
pub open spec fn advance(c: char) -> usize {
    match unicode_char_width(c) {
        Some(w) => w,
        None => 0,
    }
}

/// The advances of the characters of `line`.
pub open spec fn advances(line: Seq<char>) -> Seq<usize> {
    line.map_values(|c: char| advance(c))
}

/// `a + b`, held at `usize::MAX`.
pub open spec fn sat_add(a: nat, b: nat) -> nat {
    if a + b > usize::MAX {
        usize::MAX as nat
    } else {
        a + b
    }
}

/// The scan over characters that advance the column by `adv`, from character `k` at
/// column `col`, with `s` the start found so far, that finds the characters `s..e`
/// of the columns `start..end`: a character that ends at or before `start`, or starts
/// before it, moves the start past it; the scan stops before a character that starts
/// at or after `end` or runs past it, and after one that ends exactly at `end`.
pub open spec fn slice_scan(adv: Seq<usize>, start: nat, end: nat, k: nat, col: nat, s: nat) -> (
    nat,
    nat,
)
    decreases adv.len() - k,
{
    if k >= adv.len() {
        (s, adv.len())
    } else {
        let next = sat_add(col, adv[k as int] as nat);
        let s2 = if next <= start || col < start {
            k + 1
        } else {
            s
        };
        if col >= end {
            (s2, k)
        } else if next > end {
            (s2, k)
        } else if next == end {
            (s2, k + 1)
        } else {
            slice_scan(adv, start, end, k + 1, next, s2)
        }
    }
}

/// The characters `s..e`, of characters that advance the column by `adv`, that lie in
/// the display columns `start..start + width`; `(0, 0)` when there are none.
pub open spec fn column_span(adv: Seq<usize>, start: nat, width: nat) -> (nat, nat) {
    if width == 0 {
        (0, 0)
    } else {
        let (s, e) = slice_scan(adv, start, start + width, 0, 0, 0);
        if s >= e {
            (0, 0)
        } else {
            (s, e)
        }
    }
}

/// The characters of `line` that lie in the display columns `start..start + width`.
pub open spec fn spec_slice_by_width(line: Seq<char>, start: nat, width: nat) -> Seq<char> {
    let (s, e) = column_span(advances(line), start, width);
    line.subrange(s as int, e as int)
}

proof fn lemma_slice_scan_bounds(adv: Seq<usize>, start: nat, end: nat, k: nat, col: nat, s: nat)
    requires
        k <= adv.len(),
        s <= k,
    ensures
        slice_scan(adv, start, end, k, col, s).0 <= adv.len(),
        slice_scan(adv, start, end, k, col, s).1 <= adv.len(),
    decreases adv.len() - k,
{
    if k < adv.len() {
        let next = sat_add(col, adv[k as int] as nat);
        let s2 = if next <= start || col < start {
            k + 1
        } else {
            s
        };
        if !(col >= end) && !(next > end) && !(next == end) {
            lemma_slice_scan_bounds(adv, start, end, k + 1, next, s2);
        }
    }
}

/// The number of display columns that characters advancing by `adv` take.
pub open spec fn columns(adv: Seq<usize>) -> int
    decreases adv.len(),
{
    if adv.len() == 0 {
        0
    } else {
        columns(adv.drop_last()) + adv.last()
    }
}

proof fn lemma_columns_step(adv: Seq<usize>, k: int)
    requires
        0 <= k < adv.len(),
    ensures
        columns(adv.take(k + 1)) == columns(adv.take(k)) + adv[k],
{
    assert(adv.take(k + 1).drop_last() =~= adv.take(k));
}

proof fn lemma_columns_split(adv: Seq<usize>, a: int, b: int)
    requires
        0 <= a <= b <= adv.len(),
    ensures
        columns(adv.subrange(a, b)) == columns(adv.take(b)) - columns(adv.take(a)),
    decreases b - a,
{
    if a == b {
        assert(adv.subrange(a, b) =~= Seq::<usize>::empty());
    } else {
        lemma_columns_split(adv, a, b - 1);
        assert(adv.subrange(a, b).drop_last() =~= adv.subrange(a, b - 1));
        lemma_columns_step(adv, b - 1);
    }
}

proof fn lemma_slice_scan_fits(adv: Seq<usize>, start: nat, end: nat, k: nat, col: nat, s: nat)
    requires
        k <= adv.len(),
        s <= k,
        col == columns(adv.take(k as int)),
        col < end,
        end < usize::MAX,
        s == k || columns(adv.take(s as int)) >= start,
    ensures
        ({
            let (s2, e2) = slice_scan(adv, start, end, k, col, s);
            s2 < e2 ==> e2 <= adv.len() && columns(adv.take(s2 as int)) >= start && columns(
                adv.take(e2 as int),
            ) <= end
        }),
    decreases adv.len() - k,
{
    if k < adv.len() {
        let next = sat_add(col, adv[k as int] as nat);
        let s2 = if next <= start || col < start {
            k + 1
        } else {
            s
        };
        lemma_columns_step(adv, k as int);
        if col >= end {
        } else if next > end {
        } else if next == end {
        } else {
            lemma_slice_scan_fits(adv, start, end, k + 1, next, s2);
        }
    }
}

/// What is cut out is one run of the characters, and that run lies within the display
/// columns `start..start + width`: it begins at or after column `start` and ends by
/// column `start + width`, so it takes at most `width` columns.
pub proof fn lemma_slice_fits(adv: Seq<usize>, start: nat, width: nat)
    requires
        start + width < usize::MAX,
    ensures
        ({
            let (a, b) = column_span(adv, start, width);
            &&& 0 <= a <= b <= adv.len()
            &&& a < b ==> columns(adv.take(a as int)) >= start && columns(adv.take(b as int)) <= start
                + width
            &&& columns(adv.subrange(a as int, b as int)) <= width
        }),
{
    assert(adv.subrange(0, 0) =~= Seq::<usize>::empty());
    if width > 0 {
        let end = start + width;
        assert(adv.take(0) =~= Seq::<usize>::empty());
        lemma_slice_scan_bounds(adv, start, end, 0, 0, 0);
        lemma_slice_scan_fits(adv, start, end, 0, 0, 0);
        let (s, e) = slice_scan(adv, start, end, 0, 0, 0);
        if s < e {
            lemma_columns_split(adv, s as int, e as int);
        }
    }
}

/// Where the display columns `start..start + width` begin and end among characters
/// that advance the column by `adv`: the indices of the first character in them and
/// of the first after them, `(0, 0)` when there is none.
pub fn column_span_of(adv: &Vec<usize>, start: u16, width: u16) -> (r: (usize, usize))
    ensures
        (r.0 as nat, r.1 as nat) == column_span(adv@, start as nat, width as nat),
        r.0 <= r.1 <= adv@.len(),
{
    proof {
        lemma_slice_fits(adv@, start as nat, width as nat);
    }
    if width == 0 {
        return (0, 0);
    }
    let start = start as usize;
    let end = start + width as usize;
    let mut col: usize = 0;
    let mut start_idx: usize = 0;
    let mut end_idx: usize = adv.len();
    let mut k: usize = 0;
    let ghost target = slice_scan(adv@, start as nat, end as nat, 0, 0, 0);
    loop
        invariant_except_break
            k <= adv@.len(),
            start_idx <= k,
            slice_scan(adv@, start as nat, end as nat, k as nat, col as nat, start_idx as nat) == target,
        ensures
            (start_idx as nat, end_idx as nat) == target,
        decreases adv@.len() - k,
    {
        if k >= adv.len() {
            end_idx = adv.len();
            break;
        }
        let next_col = col.saturating_add(adv[k]);
        if next_col <= start {
            start_idx = k + 1;
        } else if col < start {
            start_idx = k + 1;
        }
        if col >= end {
            end_idx = k;
            break;
        }
        if next_col > end {
            end_idx = k;
            break;
        }
        if next_col == end {
            end_idx = k + 1;
            break;
        }
        col = next_col;
        k = k + 1;
    }
    if start_idx >= end_idx {
        (0, 0)
    } else {
        (start_idx, end_idx)
    }
}

/// How far a character below U+00A0 advances the column: one for printable ASCII,
/// none for a control character.
pub open spec fn low_advance(c: char) -> usize {
    if c >= ' ' && '\u{7F}' > c {
        1
    } else {
        0
    }
}

/// Every character of `line` below U+00A0 advances the column as unicode-width has
/// it: a printable ASCII character by one, a control character by none.
pub open spec fn ascii_advances(line: Seq<char>) -> bool {
    forall|i: int| 0 <= i < line.len() && line[i] < '\u{A0}' ==> #[trigger] advance(line[i]) == low_advance(line[i])
}

/// The part of `line` that lies in the display columns `start..start + width`.
pub fn slice_by_width<'a>(line: &'a str, start: u16, width: u16) -> (r: &'a str)
    ensures
        r@ == spec_slice_by_width(line@, start as nat, width as nat),
        ascii_advances(line@),
{
    let n = line.unicode_len();
    let mut adv: Vec<usize> = Vec::new();
    let mut k: usize = 0;
    while k < n
        invariant
            n == line@.len(),
            k <= n,
            adv@ == advances(line@.take(k as int)),
            ascii_advances(line@.take(k as int)),
        decreases n - k,
    {
        let ghost before = line@.take(k as int);
        let w = match char_width(line.get_char(k)) {
            Some(w) => w,
            None => 0,
        };
        adv.push(w);
        k = k + 1;
        assert(adv@ =~= advances(line@.take(k as int)));
        assert forall|i: int|
            0 <= i < line@.take(k as int).len() && line@.take(k as int)[i] < '\u{A0}' implies #[trigger] advance(
            line@.take(k as int)[i],
        ) == low_advance(line@.take(k as int)[i]) by {
            if i < k - 1 {
                assert(line@.take(k as int)[i] == before[i]);
            }
        }
    }
    assert(line@.take(k as int) =~= line@);
    let (s, e) = column_span_of(&adv, start, width);
    line.substring_char(s, e)
}

// ---------------------------------------------------------------------------
// Drawing a rendered formula into an area of a terminal buffer.
// ---------------------------------------------------------------------------

/// A rectangle of terminal cells.
#[derive(Debug, Clone, Copy)]
pub struct Area {
    pub x: u16,
    pub y: u16,
    pub width: u16,
    pub height: u16,
}

/// One character to write: at column `x`, row `y`, `width` columns wide.
#[derive(Debug, Clone, Copy)]
pub struct Draw {
    pub x: u16,
    pub y: u16,
    pub ch: char,
    pub width: u16,
}

/// A character of a rendered formula and the number of columns it takes.
#[derive(Debug, Clone, Copy)]
pub struct WideChar {
    pub ch: char,
    pub cols: u16,
}

/// `c` with the columns it takes by unicode-width, taken as a `u16`.
pub open spec fn wide(c: char) -> WideChar {
    WideChar { ch: c, cols: unicode_str_width(c) as u16 }
}

/// The rows of characters, each with the columns it takes.
pub open spec fn measured(rows: Seq<Seq<char>>) -> Seq<Seq<WideChar>> {
    rows.map_values(|r: Seq<char>| r.map_values(|c: char| wide(c)))
}

/// The character `c`, `w` columns wide, written at column `x` of row `y`.
pub open spec fn draw_at(x: int, y: int, c: char, w: int) -> Draw {
    Draw { x: x as u16, y: y as u16, ch: c, width: w as u16 }
}

/// `a + b` held at `u16::MAX`.
pub open spec fn sat16(a: int, b: int) -> int {
    if a + b > u16::MAX {
        u16::MAX as int
    } else {
        a + b
    }
}

/// The characters of one row, from index `k` on, written from column `x0 + col` on
/// row `y` until one would start at or pass `right`.
pub open spec fn row_draws(cells: Seq<WideChar>, k: nat, col: int, x0: int, y: int, right: int) -> Seq<Draw>
    decreases cells.len() - k,
{
    if k >= cells.len() {
        Seq::empty()
    } else {
        let x = sat16(x0, col);
        let w = cells[k as int].cols as int;
        if x >= right || x + w > right {
            Seq::empty()
        } else {
            seq![draw_at(x, y, cells[k as int].ch, w)] + row_draws(
                cells,
                k + 1,
                col + w,
                x0,
                y,
                right,
            )
        }
    }
}

/// The rows from the `row`-th visible one on: row `content_y + row` of the cells goes to
/// area row `draw_y + row`, while both exist.
pub open spec fn rows_draws(
    cells: Seq<Seq<WideChar>>,
    row: nat,
    visible: nat,
    content_y: nat,
    draw_y: nat,
    area: Area,
    x0: int,
) -> Seq<Draw>
    decreases visible - row,
{
    if row >= visible || content_y + row >= cells.len() || draw_y + row >= area.height {
        Seq::empty()
    } else {
        row_draws(
            cells[(content_y + row) as int],
            0,
            0,
            x0,
            sat16(area.y as int, ((draw_y + row) as int) as u16 as int),
            area.x + area.width,
        ) + rows_draws(cells, row + 1, visible, content_y, draw_y, area, x0)
    }
}

/// What drawing `cells` (a grid `width` columns wide, each character with the columns
/// it takes) into `area` does: nothing (`None`) when the area or the grid is empty;
/// otherwise clear the area and write the characters (`Some`), aligned as asked, each
/// row from its first character on.
pub open spec fn spec_draw_cells(
    cells: Seq<Seq<WideChar>>,
    width: usize,
    area: Area,
    h: HorizontalAlignment,
    v: VerticalAlignment,
) -> Option<Seq<Draw>> {
    let render_width = width as u16;
    let render_height = cells.len() as u16;
    if area.width == 0 || area.height == 0 || render_width == 0 || render_height == 0 {
        None
    } else {
        let (content_x, draw_x, visible_w) = span(render_width as int, area.width as int, h_place(h));
        let (content_y, draw_y, visible_h) = span(render_height as int, area.height as int, v_place(v));
        Some(
            rows_draws(
                cells,
                0,
                visible_h as nat,
                content_y as nat,
                draw_y as nat,
                area,
                sat16(area.x as int, draw_x),
            ),
        )
    }
}

/// The draw `d` starts in `area` and lies wholly inside it.
pub open spec fn inside(d: Draw, area: Area) -> bool {
    &&& area.x <= d.x < area.x + area.width
    &&& d.x + d.width <= area.x + area.width
    &&& area.y <= d.y < area.y + area.height
}

proof fn lemma_row_draws_inside(cells: Seq<WideChar>, k: nat, col: int, x0: int, y: int, right: int, lo: int)
    requires
        lo <= x0,
        0 <= x0,
        0 <= col,
        right <= u16::MAX,
        0 <= y <= u16::MAX,
    ensures
        forall|i: int|
            0 <= i < row_draws(cells, k, col, x0, y, right).len() ==> {
                let d = #[trigger] row_draws(cells, k, col, x0, y, right)[i];
                lo <= d.x && d.x < right && d.x + d.width <= right && d.y == y
            },
    decreases cells.len() - k,
{
    if k < cells.len() {
        let x = sat16(x0, col);
        let w = cells[k as int].cols as int;
        if !(x >= right || x + w > right) {
            lemma_row_draws_inside(cells, k + 1, col + w, x0, y, right, lo);
            let d = draw_at(x, y, cells[k as int].ch, w);
            assert(d.x == x && d.width == w && d.y == y);
            let rest = row_draws(cells, k + 1, col + w, x0, y, right);
            assert(row_draws(cells, k, col, x0, y, right) == seq![d] + rest);
            assert forall|i: int| 0 <= i < row_draws(cells, k, col, x0, y, right).len() implies {
                let e = #[trigger] row_draws(cells, k, col, x0, y, right)[i];
                lo <= e.x && e.x < right && e.x + e.width <= right && e.y == y
            } by {
                if i > 0 {
                    assert(row_draws(cells, k, col, x0, y, right)[i] == rest[i - 1]);
                }
            }
        }
    }
}

proof fn lemma_rows_draws_inside(
    cells: Seq<Seq<WideChar>>,
    row: nat,
    visible: nat,
    content_y: nat,
    draw_y: nat,
    area: Area,
    x0: int,
)
    requires
        area.x <= x0 <= u16::MAX,
        area.x + area.width <= u16::MAX,
    ensures
        forall|i: int|
            0 <= i < rows_draws(cells, row, visible, content_y, draw_y, area, x0).len() ==> inside(
                #[trigger] rows_draws(cells, row, visible, content_y, draw_y, area, x0)[i],
                area,
            ),
    decreases visible - row,
{
    if !(row >= visible || content_y + row >= cells.len() || draw_y + row >= area.height) {
        let t = ((draw_y + row) as int) as u16 as int;
        assert(t == draw_y + row);
        let y = sat16(area.y as int, t);
        let right = area.x + area.width;
        let first = row_draws(cells[(content_y + row) as int], 0, 0, x0, y, right);
        let rest = rows_draws(cells, row + 1, visible, content_y, draw_y, area, x0);
        lemma_row_draws_inside(cells[(content_y + row) as int], 0, 0, x0, y, right, area.x as int);
        lemma_rows_draws_inside(cells, row + 1, visible, content_y, draw_y, area, x0);
        assert(rows_draws(cells, row, visible, content_y, draw_y, area, x0) == first + rest);
        assert forall|i: int|
            0 <= i < rows_draws(cells, row, visible, content_y, draw_y, area, x0).len() implies inside(
            #[trigger] rows_draws(cells, row, visible, content_y, draw_y, area, x0)[i],
            area,
        ) by {
            if i < first.len() {
                assert(rows_draws(cells, row, visible, content_y, draw_y, area, x0)[i] == first[i]);
            } else {
                assert(rows_draws(cells, row, visible, content_y, draw_y, area, x0)[i] == rest[i
                    - first.len()]);
            }
        }
    }
}

/// Whatever the grid, the widths of its characters and the alignment, every
/// character that a plan writes lies wholly inside the area it was planned for.
pub proof fn lemma_draws_inside_area(
    cells: Seq<Seq<WideChar>>,
    width: usize,
    area: Area,
    h: HorizontalAlignment,
    v: VerticalAlignment,
)
    requires
        area.x + area.width <= u16::MAX,
    ensures
        spec_draw_cells(cells, width, area, h, v) matches Some(ds) ==> forall|i: int|
            0 <= i < ds.len() ==> inside(#[trigger] ds[i], area),
{
    let render_width = width as u16;
    let render_height = cells.len() as u16;
    if !(area.width == 0 || area.height == 0 || render_width == 0 || render_height == 0) {
        lemma_span_fits(render_width as int, area.width as int, h_place(h));
        lemma_span_fits(render_height as int, area.height as int, v_place(v));
        let (content_x, draw_x, visible_w) = span(render_width as int, area.width as int, h_place(h));
        let (content_y, draw_y, visible_h) = span(render_height as int, area.height as int, v_place(v));
        lemma_rows_draws_inside(
            cells,
            0,
            visible_h as nat,
            content_y as nat,
            draw_y as nat,
            area,
            sat16(area.x as int, draw_x),
        );
    }
}

/// Whether the cell at column `p.0`, row `p.1` lies in `area`.
pub open spec fn in_area(p: (int, int), area: Area) -> bool {
    area.x <= p.0 < area.x + area.width && area.y <= p.1 < area.y + area.height
}

/// The character that the last of `ds` written at cell `p` puts there, if any does.
pub open spec fn drawn_at(ds: Seq<Draw>, p: (int, int)) -> Option<char>
    decreases ds.len(),
{
    if ds.len() == 0 {
        None
    } else if ds.last().x == p.0 && ds.last().y == p.1 {
        Some(ds.last().ch)
    } else {
        drawn_at(ds.drop_last(), p)
    }
}

/// A screen of characters after a plan is carried out on it: with no plan it is as it
/// was; otherwise every cell of the area is reset to a blank, and then each planned
/// character is written at its cell.
pub open spec fn painted(old: Map<(int, int), char>, area: Area, plan: Option<Seq<Draw>>) -> Map<
    (int, int),
    char,
> {
    match plan {
        None => old,
        Some(ds) => Map::new(
            |p: (int, int)| old.dom().contains(p),
            |p: (int, int)|
                match drawn_at(ds, p) {
                    Some(c) => c,
                    None => if in_area(p, area) {
                        ' '
                    } else {
                        old[p]
                    },
                },
        ),
    }
}

proof fn lemma_drawn_at(ds: Seq<Draw>, p: (int, int))
    ensures
        drawn_at(ds, p) matches Some(c) ==> exists|i: int|
            0 <= i < ds.len() && (#[trigger] ds[i]).x == p.0 && ds[i].y == p.1 && ds[i].ch == c,
    decreases ds.len(),
{
    if ds.len() > 0 {
        lemma_drawn_at(ds.drop_last(), p);
        if !(ds.last().x == p.0 && ds.last().y == p.1) {
            if let Some(c) = drawn_at(ds, p) {
                let i = choose|i: int|
                    0 <= i < ds.drop_last().len() && (#[trigger] ds.drop_last()[i]).x == p.0 && ds.drop_last()[i].y
                        == p.1 && ds.drop_last()[i].ch == c;
                assert(ds[i] == ds.drop_last()[i]);
            }
        } else {
            assert(ds[ds.len() - 1] == ds.last());
        }
    }
}

/// What carrying out a plan does to a screen: cells outside the area keep what they
/// held; with no plan (an empty area or formula) nothing changes at all; otherwise
/// each cell of the area is either reset to a blank or holds a planned character.
pub proof fn lemma_painted(
    old: Map<(int, int), char>,
    cells: Seq<Seq<WideChar>>,
    width: usize,
    area: Area,
    h: HorizontalAlignment,
    v: VerticalAlignment,
)
    requires
        area.x + area.width <= u16::MAX,
        area.y + area.height <= u16::MAX,
    ensures
        ({
            let plan = spec_draw_cells(cells, width, area, h, v);
            let new = painted(old, area, plan);
            &&& new.dom() == old.dom()
            &&& plan is None ==> new == old
            &&& forall|p: (int, int)|
                old.dom().contains(p) && !in_area(p, area) ==> #[trigger] new[p] == old[p]
            &&& plan matches Some(ds) ==> forall|p: (int, int)|
                old.dom().contains(p) && in_area(p, area) ==> #[trigger] new[p] == ' ' || exists|i: int|
                    0 <= i < ds.len() && (#[trigger] ds[i]).x == p.0 && ds[i].y == p.1 && new[p] == ds[i].ch
        }),
{
    let plan = spec_draw_cells(cells, width, area, h, v);
    let new = painted(old, area, plan);
    lemma_draws_inside_area(cells, width, area, h, v);
    if let Some(ds) = plan {
        assert(new.dom() =~= old.dom());
        assert forall|p: (int, int)| old.dom().contains(p) && !in_area(p, area) implies #[trigger] new[p] == old[p] by {
            lemma_drawn_at(ds, p);
            if let Some(c) = drawn_at(ds, p) {
                let i = choose|i: int| 0 <= i < ds.len() && (#[trigger] ds[i]).x == p.0 && ds[i].y == p.1 && ds[i].ch == c;
                assert(inside(ds[i], area));
            }
        }
        assert forall|p: (int, int)| old.dom().contains(p) && in_area(p, area) implies #[trigger] new[p] == ' ' || exists|i: int|
            0 <= i < ds.len() && (#[trigger] ds[i]).x == p.0 && ds[i].y == p.1 && new[p] == ds[i].ch by {
            lemma_drawn_at(ds, p);
        }
    }
}

/// Plans drawing the grid `cells`, `width` columns wide, each character with the
/// columns it takes, into `area`: `None` when nothing is to be done, otherwise the
/// characters to write after clearing the area.
pub fn draw_cells(
    cells: &Vec<Vec<WideChar>>,
    width: usize,
    area: Area,
    h: HorizontalAlignment,
    v: VerticalAlignment,
) -> (r: Option<Vec<Draw>>)
    requires
        area.x + area.width <= u16::MAX,
    ensures
        match r {
            Some(d) => spec_draw_cells(deep_wide(cells@), width, area, h, v) == Some(d@),
            None => spec_draw_cells(deep_wide(cells@), width, area, h, v) is None,
        },
{
    if area.width == 0 || area.height == 0 {
        return None;
    }
    let render_width = width as u16;
    let render_height = cells.len() as u16;
    if render_width == 0 || render_height == 0 {
        return None;
    }
    let (_content_x, draw_x, _visible_width) = align_horizontal_span(render_width, area.width, h);
    let (content_y, draw_y, visible_height) = align_vertical_span(render_height, area.height, v);
    proof {
        lemma_span_fits(render_width as int, area.width as int, h_place(h));
        lemma_span_fits(render_height as int, area.height as int, v_place(v));
    }
    let ghost g = deep_wide(cells@);
    let x0 = area.x.saturating_add(draw_x);
    let right: u16 = area.x + area.width;
    let ghost target = rows_draws(g, 0, visible_height as nat, content_y as nat, draw_y as nat, area, x0 as int);
    let mut draws: Vec<Draw> = Vec::new();
    let mut row: usize = 0;
    loop
        invariant_except_break
            g == deep_wide(cells@),
            row <= visible_height,
            x0 as int == sat16(area.x as int, draw_x as int),
            x0 <= right,
            right == area.x + area.width,
            draws@ + rows_draws(g, row as nat, visible_height as nat, content_y as nat, draw_y as nat, area, x0 as int)
                == target,
        ensures
            draws@ == target,
        decreases visible_height - row,
    {
        if row >= visible_height as usize {
            break;
        }
        let src_y = content_y as usize + row;
        if src_y >= cells.len() {
            break;
        }
        let target_row = draw_y as usize + row;
        if target_row >= area.height as usize {
            break;
        }
        let y = area.y.saturating_add(target_row as u16);
        let line = &cells[src_y];
        let ghost before = draws@;
        let ghost row_target = row_draws(g[src_y as int], 0, 0, x0 as int, y as int, right as int);
        let mut col: u16 = 0;
        let mut k: usize = 0;
        loop
            invariant_except_break
                g == deep_wide(cells@),
                line@ == g[src_y as int],
                k <= line@.len(),
                x0 <= right,
                x0 as int + col as int <= right,
                draws@ + row_draws(line@, k as nat, col as int, x0 as int, y as int, right as int) == before
                    + row_target,
            ensures
                draws@ == before + row_target,
            decreases line@.len() - k,
        {
            if k >= line.len() {
                break;
            }
            let x = x0.saturating_add(col);
            if x >= right {
                break;
            }
            let cw = line[k].cols;
            if x as u32 + cw as u32 > right as u32 {
                break;
            }
            let d = Draw { x, y, ch: line[k].ch, width: cw };
            assert(d == draw_at(x as int, y as int, line@[k as int].ch, cw as int));
            assert(row_draws(line@, k as nat, col as int, x0 as int, y as int, right as int) == seq![d]
                + row_draws(line@, k as nat + 1, col as int + cw as int, x0 as int, y as int, right as int));
            draws.push(d);
            col = col + cw;
            k = k + 1;
            assert(draws@ + row_draws(line@, k as nat, col as int, x0 as int, y as int, right as int) =~= before
                + row_target);
        }
        row = row + 1;
        assert(draws@ + rows_draws(g, row as nat, visible_height as nat, content_y as nat, draw_y as nat, area, x0 as int)
            =~= target);
    }
    Some(draws)
}

/// The rows of a grid as sequences of characters.
pub open spec fn deep(rows: Seq<Vec<char>>) -> Seq<Seq<char>> {
    rows.map_values(|r: Vec<char>| r@)
}

/// The rows of a grid of measured characters as sequences.
pub open spec fn deep_wide(rows: Seq<Vec<WideChar>>) -> Seq<Seq<WideChar>> {
    rows.map_values(|r: Vec<WideChar>| r@)
}

/// What drawing the grid of characters `cells`, `width` columns wide, into `area`
/// does, each character taking the columns that unicode-width gives it.
pub open spec fn spec_draw_plan(
    cells: Seq<Seq<char>>,
    width: usize,
    area: Area,
    h: HorizontalAlignment,
    v: VerticalAlignment,
) -> Option<Seq<Draw>> {
    spec_draw_cells(measured(cells), width, area, h, v)
}

fn wide_of(c: char) -> (r: WideChar)
    ensures
        r == wide(c),
        c <= '\u{A0}' ==> unicode_str_width(c) == 1,
{
    WideChar { ch: c, cols: cell_width(c) as u16 }
}

/// Every character of `cells` up to U+00A0 takes one column, as unicode-width has it
/// for a string of one such character.
pub open spec fn narrow_cells(cells: Seq<Seq<char>>) -> bool {
    forall|i: int, j: int|
        0 <= i < cells.len() && 0 <= j < cells[i].len() && cells[i][j] <= '\u{A0}'
            ==> #[trigger] unicode_str_width(cells[i][j]) == 1
}

/// The characters of `cells`, each with the columns it takes.
fn measure_cells(cells: &Vec<Vec<char>>) -> (r: Vec<Vec<WideChar>>)
    ensures
        deep_wide(r@) == measured(deep(cells@)),
        narrow_cells(deep(cells@)),
{
    let mut out: Vec<Vec<WideChar>> = Vec::new();
    let mut y: usize = 0;
    while y < cells.len()
        invariant
            y <= cells@.len(),
            out@.len() == y,
            forall|i: int| 0 <= i < y ==> (#[trigger] out@[i])@ == measured(deep(cells@))[i],
            forall|i: int, j: int|
                0 <= i < y && 0 <= j < cells@[i]@.len() && cells@[i]@[j] <= '\u{A0}'
                    ==> #[trigger] unicode_str_width(cells@[i]@[j]) == 1,
        decreases cells@.len() - y,
    {
        let line = &cells[y];
        let mut row: Vec<WideChar> = Vec::new();
        let mut k: usize = 0;
        while k < line.len()
            invariant
                k <= line@.len(),
                row@ =~= line@.take(k as int).map_values(|c: char| wide(c)),
                forall|j: int|
                    0 <= j < k && line@[j] <= '\u{A0}' ==> #[trigger] unicode_str_width(line@[j]) == 1,
            decreases line@.len() - k,
        {
            let c = line[k];
            let w = wide_of(c);
            row.push(w);
            proof {
                assert(line@[k as int] == c);
            }
            k = k + 1;
            assert(row@ =~= line@.take(k as int).map_values(|c: char| wide(c)));
        }
        assert(line@.take(k as int) =~= line@);
        assert(measured(deep(cells@))[y as int] == line@.map_values(|c: char| wide(c)));
        out.push(row);
        y = y + 1;
    }
    assert(deep_wide(out@) =~= measured(deep(cells@)));
    assert forall|i: int, j: int|
        0 <= i < deep(cells@).len() && 0 <= j < deep(cells@)[i].len() && deep(cells@)[i][j] <= '\u{A0}'
            implies #[trigger] unicode_str_width(deep(cells@)[i][j]) == 1 by {
        assert(deep(cells@)[i] == cells@[i]@);
    }
    out
}

/// Plans drawing the grid `cells`, `width` columns wide, into `area`: `None` when
/// nothing is to be done, otherwise the characters to write after clearing the area,
/// each taking the columns that unicode-width gives it.
pub fn draw_plan(
    cells: &Vec<Vec<char>>,
    width: usize,
    area: Area,
    h: HorizontalAlignment,
    v: VerticalAlignment,
) -> (r: Option<Vec<Draw>>)
    requires
        area.x + area.width <= u16::MAX,
    ensures
        match r {
            Some(d) => spec_draw_plan(deep(cells@), width, area, h, v) == Some(d@),
            None => spec_draw_plan(deep(cells@), width, area, h, v) is None,
        },
        narrow_cells(deep(cells@)),
{
    let measured_cells = measure_cells(cells);
    draw_cells(&measured_cells, width, area, h, v)
}

// ---------------------------------------------------------------------------
// A rendered formula, ready to be drawn.
// ---------------------------------------------------------------------------

/// The characters of a rendered formula, `width` columns by `height` rows, and where
/// it goes in the area it is drawn into.
#[derive(Debug, Clone)]
pub struct Math {
    cells: Vec<Vec<char>>,
    width: usize,
    height: usize,
    horizontal_alignment: HorizontalAlignment,
    vertical_alignment: VerticalAlignment,
}

/// The model of a [`Math`]: its rows of characters, its size and its alignment.
pub struct MathModel {
    pub cells: Seq<Seq<char>>,
    pub width: usize,
    pub height: usize,
    pub horizontal_alignment: HorizontalAlignment,
    pub vertical_alignment: VerticalAlignment,
}

impl View for Math {
    type V = MathModel;

    closed spec fn view(&self) -> MathModel {
        MathModel {
            cells: deep(self.cells@),
            width: self.width,
            height: self.height,
            horizontal_alignment: self.horizontal_alignment,
            vertical_alignment: self.vertical_alignment,
        }
    }
}

impl Math {
    /// The characters of `layout`, placed at the top left.
    pub fn from_layout(layout: &Layout) -> (r: Math)
        requires
            layout@.wf(),
        ensures
            r@.cells == layout@.rows,
            r@.width == layout@.width,
            r@.height == layout@.height,
            r@.horizontal_alignment == HorizontalAlignment::Left,
            r@.vertical_alignment == VerticalAlignment::Top,
    {
        let width = layout.width();
        let height = layout.height();
        let mut cells: Vec<Vec<char>> = Vec::new();
        let mut y: usize = 0;
        while y < height
            invariant
                layout@.wf(),
                width == layout@.width,
                height == layout@.height,
                y <= height,
                cells@.len() == y,
                forall|i: int| 0 <= i < y ==> (#[trigger] cells@[i])@ == layout@.rows[i],
            decreases height - y,
        {
            let mut row: Vec<char> = Vec::new();
            let mut x: usize = 0;
            while x < width
                invariant
                    layout@.wf(),
                    width == layout@.width,
                    y < layout@.height,
                    x <= width,
                    row@ =~= layout@.rows[y as int].take(x as int),
                decreases width - x,
            {
                row.push(layout.get(y, x));
                x = x + 1;
                assert(row@ =~= layout@.rows[y as int].take(x as int));
            }
            assert(row@ =~= layout@.rows[y as int]);
            cells.push(row);
            y = y + 1;
        }
        assert(deep(cells@) =~= layout@.rows);
        Math {
            cells,
            width,
            height,
            horizontal_alignment: HorizontalAlignment::Left,
            vertical_alignment: VerticalAlignment::Top,
        }
    }

    /// The size in terminal cells, each count taken as a `u16`.
    pub fn size(&self) -> (r: (u16, u16))
        ensures
            r == (self@.width as u16, self@.height as u16),
    {
        (self.width as u16, self.height as u16)
    }

    /// This formula, aligned across its area as `alignment` says.
    pub fn horizontal_alignment(self, alignment: HorizontalAlignment) -> (r: Math)
        ensures
            r@ == (MathModel { horizontal_alignment: alignment, ..self@ }),
    {
        Math { horizontal_alignment: alignment, ..self }
    }

    /// This formula, aligned down its area as `alignment` says.
    pub fn vertical_alignment(self, alignment: VerticalAlignment) -> (r: Math)
        ensures
            r@ == (MathModel { vertical_alignment: alignment, ..self@ }),
    {
        Math { vertical_alignment: alignment, ..self }
    }

    /// What drawing this formula into `area` does: see [`draw_plan`].
    pub fn plan(&self, area: Area) -> (r: Option<Vec<Draw>>)
        requires
            area.x + area.width <= u16::MAX,
        ensures
            match r {
                Some(d) => spec_draw_plan(
                    self@.cells,
                    self@.width,
                    area,
                    self@.horizontal_alignment,
                    self@.vertical_alignment,
                ) == Some(d@),
                None => spec_draw_plan(
                    self@.cells,
                    self@.width,
                    area,
                    self@.horizontal_alignment,
                    self@.vertical_alignment,
                ) is None,
            },
        narrow_cells(self@.cells),
    {
        draw_plan(&self.cells, self.width, area, self.horizontal_alignment, self.vertical_alignment)
    }
}

} // verus!
