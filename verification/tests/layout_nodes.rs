use txm::layout_tree::{BinOp, LayoutNode, LineStyle, NodeKind};
use txm::style::Style;

fn size(n: &LayoutNode) -> (usize, usize, usize) {
    (n.width, n.height, n.baseline)
}

fn ch(c: char) -> LayoutNode {
    LayoutNode::from_char(c)
}

fn frac(a: char, b: char) -> LayoutNode {
    LayoutNode::vstack(ch(a), ch(b), LineStyle::Solid)
}

#[test]
fn empty_node_has_no_size() {
    let n = LayoutNode::empty();
    assert_eq!(size(&n), (0, 0, 0));
    assert!(matches!(n.kind, NodeKind::Empty));
    assert!(n.style.is_empty());
}

#[test]
fn text_is_one_row_as_wide_as_its_characters() {
    let n = LayoutNode::text(vec!['a', 'b', 'c']);
    assert_eq!(size(&n), (3, 1, 0));
    match &n.kind {
        NodeKind::Text { content } => assert_eq!(content, &vec!['a', 'b', 'c']),
        _ => panic!("not text"),
    }
    assert_eq!(size(&LayoutNode::text_str("sin")), (3, 1, 0));
    assert_eq!(size(&LayoutNode::text_str("αβ")), (2, 1, 0));
    assert_eq!(size(&ch('x')), (1, 1, 0));
    assert_eq!(size(&LayoutNode::text(vec![])), (0, 1, 0));
}

#[test]
fn text_with_style_keeps_the_style() {
    let n = LayoutNode::text_with_style(vec!['x'], Style::new().fg(3));
    assert_eq!(size(&n), (1, 1, 0));
    assert_eq!(n.style.fg, Some(3));
}

#[test]
fn hstack_of_nothing_is_empty() {
    let n = LayoutNode::hstack(&[], 2);
    assert_eq!(size(&n), (0, 0, 0));
    assert!(matches!(n.kind, NodeKind::Empty));
}

#[test]
fn hstack_of_one_node_is_that_node() {
    let n = LayoutNode::hstack(&[frac('a', 'b')], 5);
    assert_eq!(size(&n), (3, 3, 1));
    assert!(matches!(n.kind, NodeKind::VStack { line: LineStyle::Solid, .. }));
}

#[test]
fn hstack_aligns_baselines_and_adds_spacing() {
    let n = LayoutNode::hstack(&[ch('a'), frac('x', 'y'), ch('b')], 1);
    assert_eq!(size(&n), (7, 3, 1));
    match &n.kind {
        NodeKind::HStack { children, spacing } => {
            assert_eq!(children.len(), 3);
            assert_eq!(*spacing, 1);
        }
        _ => panic!("not a row"),
    }
}

#[test]
fn vstack_pads_and_adds_a_row() {
    let n = LayoutNode::vstack(LayoutNode::text_str("abc"), ch('d'), LineStyle::Blank);
    assert_eq!(size(&n), (5, 3, 1));
}

#[test]
fn infix_node_aligns_baselines() {
    let n = LayoutNode::infix(ch('a'), BinOp::Add, frac('x', 'y'));
    assert_eq!(size(&n), (7, 3, 1));
    assert!(matches!(n.kind, NodeKind::Infix { op: BinOp::Add, .. }));
}

#[test]
fn scripts() {
    assert_eq!(size(&LayoutNode::superscript(ch('x'), ch('2'))), (2, 2, 1));
    assert_eq!(size(&LayoutNode::subscript(ch('x'), ch('i'))), (2, 2, 0));
    assert_eq!(size(&LayoutNode::subscript(frac('a', 'b'), ch('i'))), (4, 3, 1));
    assert_eq!(size(&LayoutNode::both_scripts(ch('x'), ch('i'), LayoutNode::text_str("10"))), (3, 3, 1));
}

#[test]
fn stretchy_delimiters() {
    let short = LayoutNode::stretchy_delim(ch('a'), '(', ')', false);
    assert_eq!(size(&short), (3, 1, 0));
    let tall = LayoutNode::stretchy_delim(frac('a', 'b'), '[', ']', true);
    assert_eq!(size(&tall), (7, 3, 1));
    assert!(matches!(tall.kind, NodeKind::StretchyDelim { left: '[', right: ']', fill: true, .. }));
}

#[test]
fn accents_add_a_row() {
    assert_eq!(size(&LayoutNode::accent(ch('a'), '^', false)), (1, 2, 1));
    assert_eq!(size(&LayoutNode::accent(LayoutNode::empty(), '~', true)), (1, 1, 1));
}

#[test]
fn limits_add_room_above_and_below() {
    let n = LayoutNode::limits(LayoutNode::text_str("lim"), LayoutNode::text_str("x→0"), LayoutNode::empty());
    assert_eq!(size(&n), (4, 3, 1));
}

#[test]
fn square_root_sizes() {
    assert_eq!(size(&LayoutNode::sqrt(ch('x'), None)), (4, 2, 1));
    let n = LayoutNode::sqrt(frac('a', 'b'), Some(ch('3')));
    assert_eq!(size(&n), (6, 4, 2));
    assert!(matches!(n.kind, NodeKind::Sqrt { index: Some(_), .. }));
}

#[test]
fn summation_sizes() {
    assert_eq!(size(&LayoutNode::summation(None)), (4, 3, 1));
    assert_eq!(size(&LayoutNode::summation(Some(ch('a')))), (5, 3, 1));
    assert_eq!(size(&LayoutNode::summation(Some(frac('a', 'b')))), (8, 3, 1));
    let tall = LayoutNode::vstack(ch('a'), frac('b', 'c'), LineStyle::Solid);
    assert_eq!(size(&tall), (5, 5, 1));
    assert_eq!(size(&LayoutNode::summation(Some(tall))), (13, 5, 1));
}

#[test]
fn product_sizes() {
    assert_eq!(size(&LayoutNode::product(None)), (4, 2, 1));
    assert_eq!(size(&LayoutNode::product(Some(ch('a')))), (5, 2, 1));
    assert_eq!(size(&LayoutNode::product(Some(frac('a', 'b')))), (7, 4, 2));
}

#[test]
fn integral_sizes() {
    assert_eq!(size(&LayoutNode::integral(None)), (2, 3, 1));
    assert_eq!(size(&LayoutNode::integral(Some(ch('a')))), (2, 3, 1));
    let tall = LayoutNode::vstack(ch('a'), frac('b', 'c'), LineStyle::Solid);
    assert_eq!(size(&LayoutNode::integral(Some(tall))), (7, 5, 1));
}

#[test]
fn negation_and_primes_widen() {
    assert_eq!(size(&LayoutNode::negate(frac('a', 'b'))), (4, 3, 1));
    let p = LayoutNode::prime(ch('f'), 2);
    assert_eq!(size(&p), (3, 1, 0));
    assert!(matches!(p.kind, NodeKind::Prime { count: 2, .. }));
}

#[test]
fn matrix_of_nothing_is_empty() {
    let n = LayoutNode::matrix("bmatrix", &[]).unwrap();
    assert_eq!(size(&n), (0, 0, 0));
    let n = LayoutNode::matrix("bmatrix", &[vec![]]).unwrap();
    assert!(matches!(n.kind, NodeKind::Empty));
}

#[test]
fn bracketed_two_by_two_matrix() {
    let rows = vec![vec![ch('a'), ch('b')], vec![ch('c'), ch('d')]];
    let n = LayoutNode::matrix("bmatrix", &rows).unwrap();
    assert_eq!(size(&n), (10, 3, 1));
    match &n.kind {
        NodeKind::StretchyDelim { inner, left, right, fill } => {
            assert_eq!((*left, *right, *fill), ('[', ']', true));
            assert_eq!(size(inner), (6, 3, 1));
            assert!(matches!(inner.kind, NodeKind::Matrix { .. }));
        }
        _ => panic!("not delimited"),
    }
}

#[test]
fn matrix_height_is_made_odd() {
    let rows = vec![vec![frac('a', 'b')], vec![ch('c')]];
    let n = LayoutNode::matrix("pmatrix", &rows).unwrap();
    // two cells of height 3 with one row between them: 7 rows, centre row 3
    assert_eq!(size(&n), (7, 7, 3));
    let one = vec![vec![LayoutNode::superscript(ch('x'), ch('2'))]];
    let n = LayoutNode::matrix("matrix", &one).unwrap();
    // a cell of height 2 is made 3 high
    assert_eq!(size(&n), (6, 3, 1));
    assert!(matches!(n.kind, NodeKind::StretchyDelim { left: ' ', right: ' ', .. }));
}

#[test]
fn single_row_matrix_keeps_short_delimiters() {
    let n = LayoutNode::matrix("pmatrix", &[vec![ch('a'), ch('b'), ch('c')]]).unwrap();
    assert_eq!(size(&n), (13, 1, 0));
}

#[test]
fn unknown_matrix_environment_is_an_error() {
    let err = LayoutNode::matrix("vmatrix", &[vec![ch('a')]]).unwrap_err();
    assert_eq!(err.0, "unknown matrix environment: vmatrix");
}

#[test]
fn clone_keeps_everything() {
    let n = LayoutNode::infix(ch('a'), BinOp::Eq, frac('x', 'y'));
    let c = n.clone();
    assert_eq!(size(&c), size(&n));
    assert_eq!(format!("{:?}", c), format!("{:?}", n));
}

#[test]
fn vstack_padded_takes_its_padding() {
    assert_eq!(size(&LayoutNode::vstack_padded(ch('a'), LayoutNode::text_str("bc"), LineStyle::Solid, 0)), (2, 3, 1));
    assert_eq!(size(&LayoutNode::vstack_padded(ch('a'), ch('b'), LineStyle::Blank, 2)), (5, 3, 1));
}

#[test]
fn matrix_with_tall_and_wide_items() {
    // widest item 3, highest row 3: two columns 3 + 4 + 3, two rows 3 + 1 + 3 = 7
    let rows = vec![vec![frac('a', 'b'), ch('c')], vec![ch('d'), ch('e')]];
    let n = LayoutNode::matrix("bmatrix", &rows).unwrap();
    match &n.kind {
        NodeKind::StretchyDelim { inner, .. } => assert_eq!(size(inner), (10, 7, 3)),
        _ => panic!("not delimited"),
    }
    assert_eq!(size(&n), (14, 7, 3));
}
