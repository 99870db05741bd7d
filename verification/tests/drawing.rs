use ratatui_core::buffer::Buffer;
use ratatui_core::layout::Rect;
use ratatui_core::style::Style;
use txm::engine::{render, Layout};
use txm::widget::{
    align_horizontal_span, align_vertical_span, column_span_of, draw_cells, draw_plan,
    slice_by_width, Area, Draw, HorizontalAlignment, Math, VerticalAlignment, WideChar,
};

fn grid(rows: &[&str]) -> Vec<Vec<char>> {
    rows.iter().map(|r| r.chars().collect()).collect()
}

fn plain(draws: &[Draw]) -> Vec<(u16, u16, char, u16)> {
    draws.iter().map(|d| (d.x, d.y, d.ch, d.width)).collect()
}

fn area(x: u16, y: u16, width: u16, height: u16) -> Area {
    Area { x, y, width, height }
}

/// Carries out a plan on a buffer: clear the area, then write each character.
fn apply(plan: Option<Vec<Draw>>, a: Area, buf: &mut Buffer) {
    if let Some(draws) = plan {
        for y in a.y..a.y.saturating_add(a.height) {
            for x in a.x..a.x.saturating_add(a.width) {
                buf[(x, y)].reset();
            }
        }
        for d in draws {
            buf.set_stringn(d.x, d.y, d.ch.to_string(), d.width as usize, Style::default());
        }
    }
}

fn filled(r: Rect) -> Buffer {
    let mut buffer = Buffer::empty(r);
    for y in 0..r.height {
        for x in 0..r.width {
            buffer[(x, y)].set_symbol("x");
        }
    }
    buffer
}

#[test]
fn render_clears_short_rows_before_writing() {
    let mut layout = Layout::new(2, 2, 0);
    layout.blit(&render("ab").unwrap(), 0, 0);
    let math = Math::from_layout(&layout);
    let a = area(0, 0, 2, 2);
    let plan = math.plan(a);
    assert_eq!(
        plain(plan.as_ref().unwrap()),
        vec![(0, 0, 'a', 1), (1, 0, 'b', 1), (0, 1, ' ', 1), (1, 1, ' ', 1)]
    );
    let mut buffer = filled(Rect::new(0, 0, 2, 2));
    apply(plan, a, &mut buffer);
    assert_eq!(buffer[(0, 0)].symbol(), "a");
    assert_eq!(buffer[(1, 0)].symbol(), "b");
}

#[test]
fn render_clears_alignment_padding() {
    let math = Math::from_layout(&render("a").unwrap())
        .horizontal_alignment(HorizontalAlignment::Center)
        .vertical_alignment(VerticalAlignment::Center);
    let a = area(0, 0, 3, 3);
    let plan = math.plan(a);
    assert_eq!(plain(plan.as_ref().unwrap()), vec![(1, 1, 'a', 1)]);
    let mut buffer = filled(Rect::new(0, 0, 3, 3));
    apply(plan, a, &mut buffer);
    assert_eq!(buffer[(0, 0)].symbol(), " ");
    assert_eq!(buffer[(1, 1)].symbol(), "a");
    assert_eq!(buffer[(2, 2)].symbol(), " ");
}

#[test]
fn math_size_is_that_of_its_layout() {
    let math = Math::from_layout(&render("a/b").unwrap());
    assert_eq!(math.size(), (3, 3));
    let plan = math.plan(area(0, 0, 3, 3)).unwrap();
    assert_eq!(
        plain(&plan)[3..6].to_vec(),
        vec![(0, 1, '─', 1), (1, 1, '─', 1), (2, 1, '─', 1)]
    );
}

#[test]
fn draw_plan_writes_every_cell_of_a_grid_that_fits() {
    let cells = grid(&["ab", "  "]);
    let plan = draw_plan(&cells, 2, area(0, 0, 2, 2), HorizontalAlignment::Left, VerticalAlignment::Top);
    assert_eq!(
        plain(&plan.unwrap()),
        vec![(0, 0, 'a', 1), (1, 0, 'b', 1), (0, 1, ' ', 1), (1, 1, ' ', 1)]
    );
}

#[test]
fn empty_area_or_grid_is_left_alone() {
    let cells = grid(&["ab"]);
    assert!(draw_plan(&cells, 2, area(0, 0, 0, 3), HorizontalAlignment::Left, VerticalAlignment::Top).is_none());
    assert!(draw_plan(&cells, 2, area(0, 0, 3, 0), HorizontalAlignment::Left, VerticalAlignment::Top).is_none());
    assert!(draw_plan(&cells, 0, area(0, 0, 3, 3), HorizontalAlignment::Left, VerticalAlignment::Top).is_none());
    let none: Vec<Vec<char>> = Vec::new();
    assert!(draw_plan(&none, 2, area(0, 0, 3, 3), HorizontalAlignment::Left, VerticalAlignment::Top).is_none());
}

#[test]
fn wide_content_is_cut_at_the_right_edge() {
    let cells = grid(&["abcd"]);
    let plan = draw_plan(&cells, 4, area(2, 1, 2, 1), HorizontalAlignment::Left, VerticalAlignment::Top);
    assert_eq!(plain(&plan.unwrap()), vec![(2, 1, 'a', 1), (3, 1, 'b', 1)]);
}

#[test]
fn right_aligned_content_moves_over() {
    let cells = grid(&["ab"]);
    let plan = draw_plan(&cells, 2, area(0, 0, 5, 1), HorizontalAlignment::Right, VerticalAlignment::Top);
    assert_eq!(plain(&plan.unwrap()), vec![(3, 0, 'a', 1), (4, 0, 'b', 1)]);
}

#[test]
fn bottom_aligned_tall_content_shows_its_last_rows() {
    let cells = grid(&["a", "b", "c"]);
    let plan = draw_plan(&cells, 1, area(0, 0, 1, 2), HorizontalAlignment::Left, VerticalAlignment::Bottom);
    assert_eq!(plain(&plan.unwrap()), vec![(0, 0, 'b', 1), (0, 1, 'c', 1)]);
}

#[test]
fn double_width_characters_take_two_columns() {
    let cells = grid(&["中a"]);
    let plan = draw_plan(&cells, 3, area(0, 0, 3, 1), HorizontalAlignment::Left, VerticalAlignment::Top);
    assert_eq!(plain(&plan.unwrap()), vec![(0, 0, '中', 2), (2, 0, 'a', 1)]);
    let cut = draw_plan(&cells, 3, area(0, 0, 1, 1), HorizontalAlignment::Left, VerticalAlignment::Top);
    assert_eq!(plain(&cut.unwrap()), vec![]);
}

#[test]
fn horizontal_spans() {
    assert_eq!(align_horizontal_span(3, 10, HorizontalAlignment::Left), (0, 0, 3));
    assert_eq!(align_horizontal_span(3, 10, HorizontalAlignment::Center), (0, 3, 3));
    assert_eq!(align_horizontal_span(3, 10, HorizontalAlignment::Right), (0, 7, 3));
    assert_eq!(align_horizontal_span(10, 4, HorizontalAlignment::Left), (0, 0, 4));
    assert_eq!(align_horizontal_span(10, 4, HorizontalAlignment::Center), (3, 0, 4));
    assert_eq!(align_horizontal_span(10, 4, HorizontalAlignment::Right), (6, 0, 4));
    assert_eq!(align_horizontal_span(4, 4, HorizontalAlignment::Center), (0, 0, 4));
}

#[test]
fn vertical_spans() {
    assert_eq!(align_vertical_span(1, 3, VerticalAlignment::Top), (0, 0, 1));
    assert_eq!(align_vertical_span(1, 3, VerticalAlignment::Center), (0, 1, 1));
    assert_eq!(align_vertical_span(1, 3, VerticalAlignment::Bottom), (0, 2, 1));
    assert_eq!(align_vertical_span(7, 2, VerticalAlignment::Top), (0, 0, 2));
    assert_eq!(align_vertical_span(7, 2, VerticalAlignment::Center), (2, 0, 2));
    assert_eq!(align_vertical_span(7, 2, VerticalAlignment::Bottom), (5, 0, 2));
}

#[test]
fn slicing_by_columns() {
    let line = "abcdef";
    assert_eq!(slice_by_width(line, 2, 3), "cde");
    assert_eq!(slice_by_width(line, 0, 6), "abcdef");
    assert_eq!(slice_by_width(line, 4, 10), "ef");
    assert_eq!(slice_by_width(line, 2, 0), "");
    assert_eq!(slice_by_width(line, 9, 2), "");
}

#[test]
fn slicing_skips_half_covered_wide_characters() {
    let line = "a中b";
    assert_eq!(slice_by_width(line, 1, 2), "中");
    assert_eq!(slice_by_width(line, 2, 2), "b");
    assert_eq!(slice_by_width(line, 0, 2), "a");
}

#[test]
fn control_characters_take_one_cell_when_drawn() {
    let cells = grid(&["a\tb"]);
    let plan = draw_plan(&cells, 3, area(0, 0, 3, 1), HorizontalAlignment::Left, VerticalAlignment::Top);
    assert_eq!(plain(&plan.unwrap()), vec![(0, 0, 'a', 1), (1, 0, '\t', 1), (2, 0, 'b', 1)]);
}

#[test]
fn control_characters_take_no_columns_when_sliced() {
    let line = "a\tb";
    assert_eq!(slice_by_width(line, 1, 1), "b");
    assert_eq!(slice_by_width(line, 0, 1), "a");
    assert_eq!(slice_by_width(line, 0, 2), "a\tb");
}

#[test]
fn draw_cells_takes_the_widths_it_is_given() {
    let cells = vec![vec![
        WideChar { ch: 'a', cols: 3 },
        WideChar { ch: 'b', cols: 0 },
        WideChar { ch: 'c', cols: 1 },
        WideChar { ch: 'd', cols: 1 },
    ]];
    let plan = draw_cells(&cells, 5, area(1, 0, 5, 1), HorizontalAlignment::Left, VerticalAlignment::Top);
    assert_eq!(plain(&plan.unwrap()), vec![(1, 0, 'a', 3), (4, 0, 'b', 0), (4, 0, 'c', 1), (5, 0, 'd', 1)]);
    let cut = draw_cells(&cells, 5, area(1, 0, 4, 1), HorizontalAlignment::Left, VerticalAlignment::Top);
    assert_eq!(plain(&cut.unwrap()), vec![(1, 0, 'a', 3), (4, 0, 'b', 0), (4, 0, 'c', 1)]);
}

#[test]
fn column_spans_follow_the_given_advances() {
    let adv = vec![1, 2, 0, 1];
    assert_eq!(column_span_of(&adv, 0, 1), (0, 1));
    assert_eq!(column_span_of(&adv, 1, 2), (1, 2));
    assert_eq!(column_span_of(&adv, 2, 1), (0, 0));
    assert_eq!(column_span_of(&adv, 1, 3), (1, 4));
    assert_eq!(column_span_of(&adv, 0, 0), (0, 0));
}
