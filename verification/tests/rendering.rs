use txm::engine::{measure, render, render_boxed, Layout};
use txm::expr::Expr;
use txm::parser::parse;

fn rows(l: &Layout) -> Vec<String> {
    let text: String = l.to_string();
    text.lines().map(|s| s.to_string()).collect()
}

fn rendered(input: &str) -> Vec<String> {
    let l = render(input).expect("the input renders");
    rows(&l)
}

fn var(s: &str) -> Box<Expr> {
    Box::new(Expr::VarNum(s.to_string()))
}

#[test]
fn single_variable_is_one_row() {
    let l = render("x").unwrap();
    assert_eq!((l.width(), l.height(), l.baseline()), (1, 1, 0));
    assert_eq!(rows(&l), vec!["x"]);
}

#[test]
fn fraction_at_top_level_is_padded_and_ruled() {
    let l = render("a/b").unwrap();
    assert_eq!((l.width(), l.height(), l.baseline()), (3, 3, 1));
    assert_eq!(rows(&l), vec![" a ", "───", " b "]);
}

#[test]
fn nested_fraction_has_no_padding() {
    assert_eq!(rendered("(a/b)/c"), vec![" a ", " ─ ", " b ", "───", " c "]);
}

#[test]
fn single_digit_exponent_becomes_superscript() {
    assert_eq!(rendered("x^2"), vec!["x²"]);
    assert_eq!(rendered("y^0"), vec!["y⁰"]);
    assert_eq!(rendered("z^9"), vec!["z⁹"]);
}

#[test]
fn other_exponents_are_raised_a_row() {
    let l = render("x^y").unwrap();
    assert_eq!((l.width(), l.height(), l.baseline()), (2, 2, 1));
    assert_eq!(rows(&l), vec![" y", "x "]);
    assert_eq!(rendered("x^10"), vec![" 10", "x  "]);
}

#[test]
fn powers_group_to_the_right() {
    assert_eq!(rendered("a^b^c"), vec!["  c", " b ", "a  "]);
}

#[test]
fn product_of_numbers_is_dotted() {
    assert_eq!(rendered("2*3"), vec!["2 · 3"]);
}

#[test]
fn number_times_variable_is_juxtaposed() {
    assert_eq!(rendered("2*x"), vec!["2x"]);
}

#[test]
fn variable_times_number_is_dotted() {
    assert_eq!(rendered("x*2"), vec!["x · 2"]);
}

#[test]
fn variables_side_by_side_are_juxtaposed() {
    assert_eq!(rendered("a+b*c"), vec!["a + bc"]);
}

#[test]
fn fraction_times_variable_is_dotted() {
    assert_eq!(rendered("a/b*x"), vec![" a     ", "─── · x", " b     "]);
}

#[test]
fn power_with_digit_exponent_times_number_is_dotted() {
    assert_eq!(rendered("x^2*3"), vec!["x² · 3"]);
}

#[test]
fn infix_operators_are_spaced() {
    assert_eq!(rendered("a+b"), vec!["a + b"]);
    assert_eq!(rendered("a-b"), vec!["a - b"]);
    assert_eq!(rendered("a=b"), vec!["a = b"]);
    assert_eq!(rendered(" a +  b "), vec!["a + b"]);
}

#[test]
fn infix_aligns_baselines() {
    let l = render("a/b+c").unwrap();
    assert_eq!((l.width(), l.height(), l.baseline()), (7, 3, 1));
    assert_eq!(rows(&l), vec![" a     ", "─── + c", " b     "]);
}

#[test]
fn short_parentheses_brackets_and_braces() {
    assert_eq!(rendered("(a)"), vec!["(a)"]);
    assert_eq!(rendered("[a]"), vec!["[a]"]);
    assert_eq!(rendered("{a}"), vec!["{a}"]);
}

#[test]
fn tall_parentheses_stretch() {
    assert_eq!(rendered("(a/b)"), vec!["⎛  a  ⎞", "⎟ ─── ⎟", "⎝  b  ⎠"]);
}

#[test]
fn tall_brackets_stretch() {
    assert_eq!(rendered("[a/b]"), vec!["⎡  a  ⎤", "⎢ ─── ⎢", "⎣  b  ⎦"]);
}

#[test]
fn tall_braces_mark_the_baseline() {
    assert_eq!(rendered("{a/b}"), vec!["⎧  a  ⎫", "⎨ ─── ⎬", "⎩  b  ⎭"]);
}

#[test]
fn square_root_of_a_variable_is_compact() {
    assert_eq!(rendered("sqrt(x)"), vec!["√x"]);
    assert_eq!(rendered("sqrt(42)"), vec!["√42"]);
}

#[test]
fn square_root_of_an_expression_has_a_radical_sign() {
    let l = render("sqrt(x+1)").unwrap();
    assert_eq!((l.width(), l.height(), l.baseline()), (7, 2, 1));
    assert_eq!(rows(&l), vec![" ┌─────", "╲│x + 1"]);
}

#[test]
fn square_root_with_a_power_is_parenthesised() {
    assert_eq!(rendered("sqrt^2(x)"), vec!["(√x)²"]);
}

#[test]
fn function_call_with_power_and_primes() {
    assert_eq!(rendered("sin^2(x)"), vec!["sin²(x)"]);
    assert_eq!(rendered("f'(x)"), vec!["f'(x)"]);
    assert_eq!(rendered("f''(a)"), vec!["f''(a)"]);
}

#[test]
fn identifiers_are_as_wide_as_their_bytes() {
    let l = render("π").unwrap();
    assert_eq!(l.width(), 2);
    assert_eq!(rows(&l), vec!["π "]);
}

#[test]
fn euler_identity() {
    assert_eq!(rendered("e^iπ + 1 = 0"), vec![" iπ         ", "e    + 1 = 0"]);
}

#[test]
fn inputs_that_are_not_expressions_render_nothing() {
    assert!(render("1 +").is_none());
    assert!(render("").is_none());
    assert!(render("(a").is_none());
    assert!(render("a b").is_none());
    assert!(render_boxed("1 +").is_none());
}

#[test]
fn layout_that_would_copy_out_of_bounds_renders_nothing() {
    assert!(render("f^(a/b)(x/2)").is_none());
}

#[test]
fn boxed_layout_has_a_frame_and_margin() {
    let l = render_boxed("a").unwrap();
    assert_eq!((l.width(), l.height(), l.baseline()), (5, 5, 0));
    assert_eq!(rows(&l), vec!["┌───┐", "│   │", "│ a │", "│   │", "└───┘"]);
}

#[test]
fn boxed_fraction() {
    let l = render_boxed("a/b").unwrap();
    assert_eq!(
        rows(&l),
        vec!["┌─────┐", "│     │", "│  a  │", "│ ─── │", "│  b  │", "│     │", "└─────┘"]
    );
}

#[test]
fn to_string_ends_every_row_with_a_newline() {
    let l = render("x^y").unwrap();
    let text: String = l.to_string();
    assert_eq!(text, " y\nx \n");
}

#[test]
fn new_layout_is_blank() {
    let l = Layout::new(3, 2, 1);
    assert_eq!((l.width(), l.height(), l.baseline()), (3, 2, 1));
    assert_eq!(rows(&l), vec!["   ", "   "]);
}

#[test]
fn blit_copies_at_the_offset() {
    let mut big = Layout::new(4, 3, 0);
    let small = render("x^y").unwrap();
    big.blit(&small, 1, 1);
    assert_eq!(rows(&big), vec!["    ", "  y ", " x  "]);
    assert_eq!(big.get(2, 1), 'x');
    assert_eq!(big.get(1, 2), 'y');
}

#[test]
fn compute_layout_matches_render() {
    let e = parse("a/b").unwrap();
    let l = Layout::compute_layout(&e, 0);
    assert_eq!(rows(&l), vec![" a ", "───", " b "]);
    let deep = Layout::compute_layout(&e, 1);
    assert_eq!(rows(&deep), vec!["a", "─", "b"]);
}

#[test]
fn measure_gives_the_size_of_the_layout() {
    let e = Expr::Fraction(var("a"), Box::new(Expr::Add(var("x"), var("yz"))));
    assert_eq!(measure(&e, 0), Some((8, 3, 1)));
    let l = Layout::try_compute_layout(&e, 0).unwrap();
    assert_eq!((l.width(), l.height(), l.baseline()), (8, 3, 1));
    assert_eq!(rows(&l), vec!["   a    ", "────────", " x + yz "]);
}

#[test]
fn measure_refuses_a_layout_that_does_not_fit() {
    let e = parse("f^(a/b)(x/2)").unwrap();
    assert_eq!(measure(&e, 0), None);
    assert!(Layout::try_compute_layout(&e, 0).is_none());
}

#[test]
fn derivative_of_a_quotient() {
    assert_eq!(
        rendered("dy/dx = (x^2 + 1) / (y + 1)"),
        vec![" dy     x² + 1 ", "──── = ────────", " dx     y + 1  "]
    );
}

#[test]
fn sine_of_a_fraction_of_pi() {
    assert_eq!(
        rendered("sin(π/10) = (sqrt(5) - 1)/4"),
        vec!["   ⎛  π   ⎞    √5 - 1 ", "sin⎟ ──── ⎟ = ────────", "   ⎝  10  ⎠      4    "]
    );
}

#[test]
fn fraction_padding_depends_on_depth() {
    let e = Expr::Fraction(var("1"), var("22"));
    assert_eq!(rows(&Layout::compute_layout(&e, 0)), vec![" 1  ", "────", " 22 "]);
    assert_eq!(rows(&Layout::compute_layout(&e, 1)), vec!["1 ", "──", "22"]);
}
