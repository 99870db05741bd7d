use txm::glyph::{
    to_bb, to_bold, to_italic, to_sans, to_upright, AbsGlyph, AccentGlyph, Alphabet, AlphabetGlyph,
    BinomGlyph, FracGlyph, Glyph, IntegralGlyph, LimitGlyph, ProductGlyph, RenderCtx, SqrtGlyph,
    SummationGlyph, TextColorGlyph, TextGlyph, UnicodeGlyph,
};
use txm::layout_tree::{LayoutNode, LineStyle, NodeKind};
use txm::style::Style;

fn size(n: &LayoutNode) -> (usize, usize, usize) {
    (n.width, n.height, n.baseline)
}

fn ch(c: char) -> LayoutNode {
    LayoutNode::from_char(c)
}

fn code(u: u32) -> char {
    char::from_u32(u).unwrap()
}

fn text_of(n: &LayoutNode) -> Vec<char> {
    match &n.kind {
        NodeKind::Text { content } => content.clone(),
        _ => panic!("not text"),
    }
}

#[test]
fn bold_letters_and_digits() {
    assert_eq!(to_bold('A'), code(0x1D400));
    assert_eq!(to_bold('Z'), code(0x1D419));
    assert_eq!(to_bold('a'), code(0x1D41A));
    assert_eq!(to_bold('0'), code(0x1D7CE));
    assert_eq!(to_bold('9'), code(0x1D7D7));
    assert_eq!(to_bold('+'), '+');
    assert_eq!(to_bold('α'), 'α');
}

#[test]
fn blackboard_uses_letterlike_forms() {
    assert_eq!(to_bb('C'), 'ℂ');
    assert_eq!(to_bb('H'), 'ℍ');
    assert_eq!(to_bb('N'), 'ℕ');
    assert_eq!(to_bb('P'), 'ℙ');
    assert_eq!(to_bb('Q'), 'ℚ');
    assert_eq!(to_bb('R'), 'ℝ');
    assert_eq!(to_bb('Z'), 'ℤ');
    assert_eq!(to_bb('A'), code(0x1D538));
    assert_eq!(to_bb('a'), code(0x1D552));
    assert_eq!(to_bb('1'), code(0x1D7D9));
    assert_eq!(to_bb('-'), '-');
}

#[test]
fn upright_leaves_characters_alone() {
    assert_eq!(to_upright('x'), 'x');
    assert_eq!(to_upright('Ω'), 'Ω');
}

#[test]
fn italic_letters() {
    assert_eq!(to_italic('h'), 'ℎ');
    assert_eq!(to_italic('a'), code(0x1D44E));
    assert_eq!(to_italic('A'), code(0x1D434));
    assert_eq!(to_italic('1'), '1');
}

#[test]
fn sans_letters_and_digits() {
    assert_eq!(to_sans('A'), code(0x1D5A0));
    assert_eq!(to_sans('a'), code(0x1D5BA));
    assert_eq!(to_sans('0'), code(0x1D7E2));
    assert_eq!(to_sans('_'), '_');
}

#[test]
fn alphabet_applies_its_mapping() {
    assert_eq!(Alphabet::Bold.apply('x'), to_bold('x'));
    assert_eq!(Alphabet::Blackboard.apply('R'), 'ℝ');
    assert_eq!(Alphabet::Upright.apply('x'), 'x');
    assert_eq!(Alphabet::Italic.apply('h'), 'ℎ');
    assert_eq!(Alphabet::Sans.apply('a'), code(0x1D5BA));
}

#[test]
fn symbol_glyphs_take_no_arguments() {
    let mut ctx = RenderCtx::default();
    let lim = LimitGlyph.render(&[], &[], &mut ctx);
    assert_eq!(text_of(&lim), vec!['l', 'i', 'm']);
    assert!(LimitGlyph.has_limits());
    assert_eq!(LimitGlyph.required_args(), 0);

    let alpha = UnicodeGlyph('α').render(&[], &[], &mut ctx);
    assert_eq!(size(&alpha), (1, 1, 0));
    assert_eq!(text_of(&alpha), vec!['α']);
    assert!(!UnicodeGlyph('α').has_limits());

    let sin = TextGlyph("sin").render(&[], &[], &mut ctx);
    assert_eq!(size(&sin), (3, 1, 0));
    assert_eq!(TextGlyph("sin").required_args(), 0);
}

#[test]
fn fraction_glyph_stacks_with_a_rule() {
    let mut ctx = RenderCtx::default();
    let n = FracGlyph.render(&[ch('a'), LayoutNode::text_str("bc")], &[], &mut ctx);
    assert_eq!(size(&n), (4, 3, 1));
    assert!(matches!(n.kind, NodeKind::VStack { line: LineStyle::Solid, .. }));
    assert_eq!(FracGlyph.required_args(), 2);
}

#[test]
fn binomial_glyph_stacks_in_parentheses() {
    let mut ctx = RenderCtx::default();
    let n = BinomGlyph.render(&[ch('n'), ch('k')], &[], &mut ctx);
    assert_eq!(size(&n), (7, 3, 1));
    match &n.kind {
        NodeKind::StretchyDelim { inner, left, right, fill } => {
            assert_eq!((*left, *right, *fill), ('(', ')', false));
            assert!(matches!(inner.kind, NodeKind::VStack { line: LineStyle::Blank, .. }));
        }
        _ => panic!("not delimited"),
    }
    assert_eq!(BinomGlyph.required_args(), 2);
}

#[test]
fn square_root_glyph_takes_an_optional_index() {
    let mut ctx = RenderCtx::default();
    let plain = SqrtGlyph.render(&[ch('x')], &[], &mut ctx);
    assert_eq!(size(&plain), (4, 2, 1));
    assert!(matches!(plain.kind, NodeKind::Sqrt { index: None, .. }));
    let cube = SqrtGlyph.render(&[ch('x')], &[ch('3')], &mut ctx);
    assert!(matches!(cube.kind, NodeKind::Sqrt { index: Some(_), .. }));
    assert!(SqrtGlyph.has_optional());
    assert_eq!(SqrtGlyph.required_args(), 1);
}

#[test]
fn big_operator_glyphs() {
    let mut ctx = RenderCtx::default();
    assert_eq!(size(&SummationGlyph.render(&[], &[], &mut ctx)), (4, 3, 1));
    assert_eq!(size(&SummationGlyph.render(&[ch('a')], &[], &mut ctx)), (5, 3, 1));
    assert!(SummationGlyph.has_limits() && SummationGlyph.has_optional());
    assert_eq!(size(&ProductGlyph.render(&[], &[], &mut ctx)), (4, 2, 1));
    assert_eq!(size(&ProductGlyph.render(&[ch('a')], &[], &mut ctx)), (5, 2, 1));
    assert!(ProductGlyph.has_limits() && !ProductGlyph.has_optional());
    assert_eq!(size(&IntegralGlyph.render(&[], &[], &mut ctx)), (2, 3, 1));
}

#[test]
fn integral_glyph_takes_the_style_in_force() {
    let mut ctx = RenderCtx { depth: 2, current_style: Style::new().fg(5) };
    let n = IntegralGlyph.render(&[ch('x')], &[], &mut ctx);
    assert_eq!(size(&n), (2, 3, 1));
    assert_eq!(n.style.fg, Some(5));
    assert_eq!(ctx.depth, 2);
    assert_eq!(ctx.current_style.fg, Some(5));
}

#[test]
fn alphabet_glyph_maps_text() {
    let mut ctx = RenderCtx::default();
    let arg = LayoutNode::text_with_style(vec!['R', 'x', '1'], Style::new().fg(1));
    let n = AlphabetGlyph(Alphabet::Blackboard).render(&[arg], &[], &mut ctx);
    assert_eq!(size(&n), (3, 1, 0));
    assert_eq!(text_of(&n), vec!['ℝ', code(0x1D569), code(0x1D7D9)]);
    assert_eq!(n.style.fg, Some(1));
}

#[test]
fn alphabet_glyph_leaves_other_nodes() {
    let mut ctx = RenderCtx::default();
    let arg = LayoutNode::vstack(ch('a'), ch('b'), LineStyle::Solid);
    let n = AlphabetGlyph(Alphabet::Bold).render(&[arg], &[], &mut ctx);
    assert_eq!(size(&n), (3, 3, 1));
    assert!(matches!(n.kind, NodeKind::VStack { .. }));
}

#[test]
fn absolute_value_and_accent_glyphs() {
    let mut ctx = RenderCtx::default();
    let abs = AbsGlyph.render(&[ch('x')], &[], &mut ctx);
    assert_eq!(size(&abs), (3, 1, 0));
    assert!(matches!(abs.kind, NodeKind::StretchyDelim { left: '|', right: '|', fill: false, .. }));
    let hat = AccentGlyph { mark: '^', stretch: false }.render(&[ch('x')], &[], &mut ctx);
    assert_eq!(size(&hat), (1, 2, 1));
    assert!(matches!(hat.kind, NodeKind::Accent { mark: '^', stretch: false, .. }));
}

#[test]
fn text_color_glyph_renders_nothing_by_itself() {
    let mut ctx = RenderCtx::default();
    let n = TextColorGlyph.render(&[ch('x'), ch('y')], &[], &mut ctx);
    assert_eq!(size(&n), (0, 0, 0));
    assert!(matches!(n.kind, NodeKind::Empty));
    assert_eq!(TextColorGlyph.required_args(), 2);
}

#[test]
fn nested_fraction_glyph_has_no_padding() {
    let mut ctx = RenderCtx { depth: 1, current_style: Style::new() };
    let n = FracGlyph.render(&[LayoutNode::text(vec!['α']), LayoutNode::text(vec!['β'])], &[], &mut ctx);
    assert_eq!(size(&n), (1, 3, 1));
    assert!(matches!(n.kind, NodeKind::VStack { line: LineStyle::Solid, .. }));
    assert_eq!(ctx.depth, 1);
}

#[test]
fn nested_binomial_glyph_has_no_padding() {
    let mut ctx = RenderCtx { depth: 2, current_style: Style::new() };
    let n = BinomGlyph.render(&[ch('n'), ch('k')], &[], &mut ctx);
    // inner stack 1 wide, stretchy parentheses add four columns
    assert_eq!(size(&n), (5, 3, 1));
}
