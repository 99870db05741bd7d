use vstd::prelude::*;
use crate::style::{ParseError, Style};

verus! {

/// A binary operator written between its operands.
#[derive(Debug, Clone, Copy, PartialEq, Eq)]
pub enum BinOp {
    Add,
    Sub,
    Mul,
    Eq,
}

/// Whether a stack of two nodes has a rule between them.
#[derive(Debug, Clone, Copy, PartialEq, Eq)]
pub enum LineStyle {
    Solid,
    Blank,
}

/// A node of the layout tree: its size, the row of its baseline, its style and what it is.
#[derive(Debug)]
pub struct LayoutNode {
    pub width: usize,
    pub height: usize,
    pub baseline: usize,
    pub style: Style,
    pub kind: NodeKind,
}

#[derive(Debug)]
#[allow(inconsistent_fields)]
pub enum NodeKind {
    Text { content: Vec<char> },
    HStack { children: Vec<LayoutNode>, spacing: usize },
    VStack { top: Box<LayoutNode>, bottom: Box<LayoutNode>, line: LineStyle },
    Infix { lhs: Box<LayoutNode>, op: BinOp, rhs: Box<LayoutNode> },
    Superscript { base: Box<LayoutNode>, exp: Box<LayoutNode> },
    Subscript { base: Box<LayoutNode>, sub: Box<LayoutNode> },
    BothScripts { base: Box<LayoutNode>, sub: Box<LayoutNode>, sup: Box<LayoutNode> },
    StretchyDelim { inner: Box<LayoutNode>, left: char, right: char, fill: bool },
    Accent { inner: Box<LayoutNode>, mark: char, stretch: bool },
    Limits { base: Box<LayoutNode>, lower: Box<LayoutNode>, upper: Box<LayoutNode> },
    Sqrt { inner: Box<LayoutNode>, index: Option<Box<LayoutNode>> },
    Matrix { name: String, rows: Vec<Vec<LayoutNode>> },
    Summation { inner: Option<Box<LayoutNode>> },
    Product { inner: Option<Box<LayoutNode>> },
    Integral { inner: Option<Box<LayoutNode>> },
    Neg { inner: Box<LayoutNode> },
    Prime { base: Box<LayoutNode>, count: usize },
    Empty,
}

/// The mathematical model of a [`LayoutNode`].
pub struct Node {
    pub width: nat,
    pub height: nat,
    pub baseline: nat,
    pub style: Style,
    pub kind: Shape,
}

/// The mathematical model of a [`NodeKind`].
#[allow(inconsistent_fields)]
pub enum Shape {
    Text { content: Seq<char> },
    HStack { children: Seq<Node>, spacing: nat },
    VStack { top: Box<Node>, bottom: Box<Node>, line: LineStyle },
    Infix { lhs: Box<Node>, op: BinOp, rhs: Box<Node> },
    Superscript { base: Box<Node>, exp: Box<Node> },
    Subscript { base: Box<Node>, sub: Box<Node> },
    BothScripts { base: Box<Node>, sub: Box<Node>, sup: Box<Node> },
    StretchyDelim { inner: Box<Node>, left: char, right: char, fill: bool },
    Accent { inner: Box<Node>, mark: char, stretch: bool },
    Limits { base: Box<Node>, lower: Box<Node>, upper: Box<Node> },
    Sqrt { inner: Box<Node>, index: Option<Box<Node>> },
    Matrix { name: Seq<char>, rows: Seq<Seq<Node>> },
    Summation { inner: Option<Box<Node>> },
    Product { inner: Option<Box<Node>> },
    Integral { inner: Option<Box<Node>> },
    Neg { inner: Box<Node> },
    Prime { base: Box<Node>, count: nat },
    Empty,
}

/// The models of a sequence of nodes.
pub open spec fn models(s: Seq<LayoutNode>) -> Seq<Node>
    decreases s,
{
    if s.len() == 0 {
        Seq::empty()
    } else {
        seq![s[0].model()] + models(s.subrange(1, s.len() as int))
    }
}

/// The models of a sequence of rows of nodes.
pub open spec fn row_models(s: Seq<Vec<LayoutNode>>) -> Seq<Seq<Node>>
    decreases s,
{
    if s.len() == 0 {
        Seq::empty()
    } else {
        seq![models(s[0]@)] + row_models(s.subrange(1, s.len() as int))
    }
}

impl LayoutNode {
    pub open spec fn model(&self) -> Node
        decreases self,
    {
        Node {
            width: self.width as nat,
            height: self.height as nat,
            baseline: self.baseline as nat,
            style: self.style,
            kind: self.kind.model(),
        }
    }
}

impl NodeKind {
    pub open spec fn model(&self) -> Shape
        decreases self,
    {
        match self {
        NodeKind::Text { content } => Shape::Text { content: content@ },
        NodeKind::HStack { children, spacing } => Shape::HStack {
            children: models(children@),
            spacing: *spacing as nat,
        },
        NodeKind::VStack { top, bottom, line } => Shape::VStack {
            top: Box::new(top.model()),
            bottom: Box::new(bottom.model()),
            line: *line,
        },
        NodeKind::Infix { lhs, op, rhs } => Shape::Infix {
            lhs: Box::new(lhs.model()),
            op: *op,
            rhs: Box::new(rhs.model()),
        },
        NodeKind::Superscript { base, exp } => Shape::Superscript {
            base: Box::new(base.model()),
            exp: Box::new(exp.model()),
        },
        NodeKind::Subscript { base, sub } => Shape::Subscript {
            base: Box::new(base.model()),
            sub: Box::new(sub.model()),
        },
        NodeKind::BothScripts { base, sub, sup } => Shape::BothScripts {
            base: Box::new(base.model()),
            sub: Box::new(sub.model()),
            sup: Box::new(sup.model()),
        },
        NodeKind::StretchyDelim { inner, left, right, fill } => Shape::StretchyDelim {
            inner: Box::new(inner.model()),
            left: *left,
            right: *right,
            fill: *fill,
        },
        NodeKind::Accent { inner, mark, stretch } => Shape::Accent {
            inner: Box::new(inner.model()),
            mark: *mark,
            stretch: *stretch,
        },
        NodeKind::Limits { base, lower, upper } => Shape::Limits {
            base: Box::new(base.model()),
            lower: Box::new(lower.model()),
            upper: Box::new(upper.model()),
        },
        NodeKind::Sqrt { inner, index } => Shape::Sqrt {
            inner: Box::new(inner.model()),
            index: match index {
                Some(b) => Some(Box::new(b.model())),
                None => None,
            },
        },
        NodeKind::Matrix { name, rows } => Shape::Matrix {
            name: name@,
            rows: row_models(rows@),
        },
        NodeKind::Summation { inner } => Shape::Summation {
                inner: match inner {
                    Some(b) => Some(Box::new(b.model())),
                    None => None,
                },
            },
        NodeKind::Product { inner } => Shape::Product {
                inner: match inner {
                    Some(b) => Some(Box::new(b.model())),
                    None => None,
                },
            },
        NodeKind::Integral { inner } => Shape::Integral {
                inner: match inner {
                    Some(b) => Some(Box::new(b.model())),
                    None => None,
                },
            },
        NodeKind::Neg { inner } => Shape::Neg { inner: Box::new(inner.model()) },
        NodeKind::Prime { base, count } => Shape::Prime {
            base: Box::new(base.model()),
            count: *count as nat,
        },
        NodeKind::Empty => Shape::Empty,
    }
    }
}

impl View for LayoutNode {
    type V = Node;

    open spec fn view(&self) -> Node {
        self.model()
    }
}

impl View for NodeKind {
    type V = Shape;

    open spec fn view(&self) -> Shape {
        self.model()
    }
}

pub proof fn lemma_models(s: Seq<LayoutNode>)
    ensures
        models(s).len() == s.len(),
        forall|i: int| 0 <= i < s.len() ==> #[trigger] models(s)[i] == s[i].model(),
    decreases s.len(),
{
    if s.len() > 0 {
        lemma_models(s.subrange(1, s.len() as int));
    }
}

pub proof fn lemma_row_models(s: Seq<Vec<LayoutNode>>)
    ensures
        row_models(s).len() == s.len(),
        forall|i: int| 0 <= i < s.len() ==> #[trigger] row_models(s)[i] == models(s[i]@),
    decreases s.len(),
{
    if s.len() > 0 {
        lemma_row_models(s.subrange(1, s.len() as int));
    }
}

/// Two sequences of nodes with equal models elementwise have equal models.
proof fn lemma_models_eq(a: Seq<LayoutNode>, b: Seq<LayoutNode>)
    requires
        a.len() == b.len(),
        forall|i: int| 0 <= i < a.len() ==> #[trigger] a[i].model() == b[i].model(),
    ensures
        models(a) == models(b),
{
    lemma_models(a);
    lemma_models(b);
    assert(models(a) =~= models(b));
}

fn clone_chars(v: &Vec<char>) -> (r: Vec<char>)
    ensures
        r@ == v@,
{
    let mut r: Vec<char> = Vec::new();
    let mut i: usize = 0;
    while i < v.len()
        invariant
            i <= v@.len(),
            r@ == v@.take(i as int),
        decreases v@.len() - i,
    {
        r.push(v[i]);
        i = i + 1;
        assert(r@ =~= v@.take(i as int));
    }
    assert(v@.take(i as int) =~= v@);
    r
}

fn clone_nodes(v: &Vec<LayoutNode>) -> (r: Vec<LayoutNode>)
    ensures
        models(r@) == models(v@),
    decreases v,
{
    let mut r: Vec<LayoutNode> = Vec::new();
    let mut i: usize = 0;
    while i < v.len()
        invariant
            i <= v@.len(),
            r@.len() == i,
            forall|j: int| 0 <= j < i ==> #[trigger] r@[j].model() == v@[j].model(),
        decreases v@.len() - i,
    {
        assert(decreases_to!(v => v@[i as int]));
        r.push(v[i].deep_clone());
        i = i + 1;
    }
    proof {
        lemma_models_eq(r@, v@);
    }
    r
}

fn clone_rows(v: &Vec<Vec<LayoutNode>>) -> (r: Vec<Vec<LayoutNode>>)
    ensures
        row_models(r@) == row_models(v@),
    decreases v,
{
    let mut r: Vec<Vec<LayoutNode>> = Vec::new();
    let mut i: usize = 0;
    while i < v.len()
        invariant
            i <= v@.len(),
            r@.len() == i,
            forall|j: int| 0 <= j < i ==> #[trigger] models(r@[j]@) == models(v@[j]@),
        decreases v@.len() - i,
    {
        assert(decreases_to!(v => v@[i as int]));
        r.push(clone_nodes(&v[i]));
        i = i + 1;
    }
    proof {
        lemma_row_models(r@);
        lemma_row_models(v@);
        assert(row_models(r@) =~= row_models(v@));
    }
    r
}

fn clone_opt(o: &Option<Box<LayoutNode>>) -> (r: Option<Box<LayoutNode>>)
    ensures
        match (r, *o) {
            (Some(a), Some(b)) => a.model() == b.model(),
            (None, None) => true,
            _ => false,
        },
    decreases o,
{
    match o {
        Some(b) => Some(Box::new(b.deep_clone())),
        None => None,
    }
}

impl LayoutNode {
    fn deep_clone(&self) -> (r: LayoutNode)
        ensures
            r@ == self@,
        decreases self,
    {
        LayoutNode {
            width: self.width,
            height: self.height,
            baseline: self.baseline,
            style: self.style,
            kind: self.kind.deep_clone(),
        }
    }
}

impl NodeKind {
    fn deep_clone(&self) -> (r: NodeKind)
        ensures
            r@ == self@,
        decreases self,
    {
        match self {
            NodeKind::Text { content } => NodeKind::Text { content: clone_chars(content) },
            NodeKind::HStack { children, spacing } => NodeKind::HStack {
                children: clone_nodes(children),
                spacing: *spacing,
            },
            NodeKind::VStack { top, bottom, line } => NodeKind::VStack {
                top: Box::new(top.deep_clone()),
                bottom: Box::new(bottom.deep_clone()),
                line: *line,
            },
            NodeKind::Infix { lhs, op, rhs } => NodeKind::Infix {
                lhs: Box::new(lhs.deep_clone()),
                op: *op,
                rhs: Box::new(rhs.deep_clone()),
            },
            NodeKind::Superscript { base, exp } => NodeKind::Superscript {
                base: Box::new(base.deep_clone()),
                exp: Box::new(exp.deep_clone()),
            },
            NodeKind::Subscript { base, sub } => NodeKind::Subscript {
                base: Box::new(base.deep_clone()),
                sub: Box::new(sub.deep_clone()),
            },
            NodeKind::BothScripts { base, sub, sup } => NodeKind::BothScripts {
                base: Box::new(base.deep_clone()),
                sub: Box::new(sub.deep_clone()),
                sup: Box::new(sup.deep_clone()),
            },
            NodeKind::StretchyDelim { inner, left, right, fill } => NodeKind::StretchyDelim {
                inner: Box::new(inner.deep_clone()),
                left: *left,
                right: *right,
                fill: *fill,
            },
            NodeKind::Accent { inner, mark, stretch } => NodeKind::Accent {
                inner: Box::new(inner.deep_clone()),
                mark: *mark,
                stretch: *stretch,
            },
            NodeKind::Limits { base, lower, upper } => NodeKind::Limits {
                base: Box::new(base.deep_clone()),
                lower: Box::new(lower.deep_clone()),
                upper: Box::new(upper.deep_clone()),
            },
            NodeKind::Sqrt { inner, index } => NodeKind::Sqrt {
                inner: Box::new(inner.deep_clone()),
                index: clone_opt(index),
            },
            NodeKind::Matrix { name, rows } => NodeKind::Matrix {
                name: name.clone(),
                rows: clone_rows(rows),
            },
            NodeKind::Summation { inner } => NodeKind::Summation { inner: clone_opt(inner) },
            NodeKind::Product { inner } => NodeKind::Product { inner: clone_opt(inner) },
            NodeKind::Integral { inner } => NodeKind::Integral { inner: clone_opt(inner) },
            NodeKind::Neg { inner } => NodeKind::Neg { inner: Box::new(inner.deep_clone()) },
            NodeKind::Prime { base, count } => NodeKind::Prime {
                base: Box::new(base.deep_clone()),
                count: *count,
            },
            NodeKind::Empty => NodeKind::Empty,
        }
    }
}

impl Clone for LayoutNode {
    /// A copy of the whole tree.
    fn clone(&self) -> (r: Self)
        ensures
            r@ == self@,
    {
        self.deep_clone()
    }
}

impl Clone for NodeKind {
    /// A copy of the whole tree.
    fn clone(&self) -> (r: Self)
        ensures
            r@ == self@,
    {
        self.deep_clone()
    }
}


// ---------------------------------------------------------------------------
// Sizes of the nodes that the constructors build.
// ---------------------------------------------------------------------------

pub open spec fn maxn(a: nat, b: nat) -> nat {
    if a >= b {
        a
    } else {
        b
    }
}

pub open spec fn plain_style() -> Style {
    Style { fg: None }
}

/// A node of the given size and kind, in the plain style.
pub open spec fn plain(w: nat, h: nat, b: nat, kind: Shape) -> Node {
    Node { width: w, height: h, baseline: b, style: plain_style(), kind }
}

/// How far `n` reaches below its baseline (nothing when the baseline is below it).
pub open spec fn depth_below(n: Node) -> nat {
    if n.height >= n.baseline {
        (n.height - n.baseline) as nat
    } else {
        0
    }
}

/// The greatest baseline in `s`; 0 for none.
pub open spec fn max_baseline(s: Seq<Node>) -> nat
    decreases s.len(),
{
    if s.len() == 0 {
        0
    } else {
        maxn(max_baseline(s.drop_last()), s.last().baseline)
    }
}

/// The greatest depth below the baseline in `s`; 0 for none.
pub open spec fn max_depth(s: Seq<Node>) -> nat
    decreases s.len(),
{
    if s.len() == 0 {
        0
    } else {
        maxn(max_depth(s.drop_last()), depth_below(s.last()))
    }
}

/// The greatest width in `s`; 0 for none.
pub open spec fn max_width(s: Seq<Node>) -> nat
    decreases s.len(),
{
    if s.len() == 0 {
        0
    } else {
        maxn(max_width(s.drop_last()), s.last().width)
    }
}

/// The sum of the widths in `s`.
pub open spec fn sum_width(s: Seq<Node>) -> nat
    decreases s.len(),
{
    if s.len() == 0 {
        0
    } else {
        sum_width(s.drop_last()) + s.last().width
    }
}

/// Nodes side by side on a common baseline, `spacing` columns apart.
pub open spec fn hstack_node(cs: Seq<Node>, spacing: nat) -> Node {
    if cs.len() == 0 {
        plain(0, 0, 0, Shape::Empty)
    } else if cs.len() == 1 {
        cs[0]
    } else {
        let b = max_baseline(cs);
        plain(
            sum_width(cs) + spacing * (cs.len() - 1) as nat,
            b + max_depth(cs),
            b,
            Shape::HStack { children: cs, spacing },
        )
    }
}

/// A row of no nodes is the empty node, and a row of one node is that node itself,
/// whatever the spacing.
pub proof fn lemma_hstack_trivial(n: Node, spacing: nat)
    ensures
        hstack_node(Seq::empty(), spacing) == plain(0, 0, 0, Shape::Empty),
        hstack_node(seq![n], spacing) == n,
{
}

proof fn lemma_max_baseline_bounds(s: Seq<Node>)
    ensures
        forall|i: int| 0 <= i < s.len() ==> #[trigger] s[i].baseline <= max_baseline(s),
        s.len() > 0 ==> exists|i: int| 0 <= i < s.len() && #[trigger] s[i].baseline == max_baseline(s),
    decreases s.len(),
{
    if s.len() > 0 {
        let t = s.drop_last();
        lemma_max_baseline_bounds(t);
        assert forall|i: int| 0 <= i < s.len() implies #[trigger] s[i].baseline <= max_baseline(s) by {
            if i < t.len() {
                assert(s[i] == t[i]);
            }
        }
        if max_baseline(s) == s.last().baseline {
            assert(s[s.len() - 1].baseline == max_baseline(s));
        } else {
            let i = choose|i: int| 0 <= i < t.len() && #[trigger] t[i].baseline == max_baseline(t);
            assert(s[i] == t[i]);
        }
    }
}

proof fn lemma_max_depth_bounds(s: Seq<Node>)
    ensures
        forall|i: int| 0 <= i < s.len() ==> #[trigger] depth_below(s[i]) <= max_depth(s),
        s.len() > 0 ==> exists|i: int| 0 <= i < s.len() && #[trigger] depth_below(s[i]) == max_depth(s),
    decreases s.len(),
{
    if s.len() > 0 {
        let t = s.drop_last();
        lemma_max_depth_bounds(t);
        assert forall|i: int| 0 <= i < s.len() implies #[trigger] depth_below(s[i]) <= max_depth(s) by {
            if i < t.len() {
                assert(s[i] == t[i]);
            }
        }
        if max_depth(s) == depth_below(s.last()) {
            assert(depth_below(s[s.len() - 1]) == max_depth(s));
        } else {
            let i = choose|i: int| 0 <= i < t.len() && #[trigger] depth_below(t[i]) == max_depth(t);
            assert(s[i] == t[i]);
        }
    }
}

/// In a row of two or more nodes, each with its baseline on one of its rows, every
/// node placed with its baseline on the row's baseline lies inside the row; some node
/// reaches the row's top and some its bottom, and the row's baseline is on one of its
/// rows.
pub proof fn lemma_hstack_fits(cs: Seq<Node>, spacing: nat)
    requires
        cs.len() >= 2,
        forall|i: int| 0 <= i < cs.len() ==> #[trigger] cs[i].baseline < cs[i].height,
    ensures
        ({
            let r = hstack_node(cs, spacing);
            &&& r.baseline < r.height
            &&& forall|i: int|
                0 <= i < cs.len() ==> #[trigger] cs[i].baseline <= r.baseline && r.baseline - cs[i].baseline
                    + cs[i].height <= r.height
            &&& exists|i: int| 0 <= i < cs.len() && #[trigger] cs[i].baseline == r.baseline
            &&& exists|j: int|
                0 <= j < cs.len() && r.baseline - (#[trigger] cs[j]).baseline + cs[j].height == r.height
        }),
{
    lemma_max_baseline_bounds(cs);
    lemma_max_depth_bounds(cs);
    let j = choose|j: int| 0 <= j < cs.len() && #[trigger] depth_below(cs[j]) == max_depth(cs);
    assert(depth_below(cs[j]) >= 1);
    assert(max_baseline(cs) - cs[j].baseline + cs[j].height == max_baseline(cs) + max_depth(cs));
    assert forall|i: int| 0 <= i < cs.len() implies #[trigger] cs[i].baseline <= max_baseline(cs)
        && max_baseline(cs) - cs[i].baseline + cs[i].height <= max_baseline(cs) + max_depth(cs) by {
        assert(depth_below(cs[i]) <= max_depth(cs));
    }
}

/// The sizes of an hstack of `cs` fit in a `usize`.
pub open spec fn hstack_fits(cs: Seq<Node>, spacing: nat) -> bool {
    cs.len() >= 2 ==> sum_width(cs) + spacing * (cs.len() - 1) as nat <= usize::MAX
        && max_baseline(cs) + max_depth(cs) <= usize::MAX
}

/// `top` over `bottom` with `pad` columns of padding each side and a row between them.
pub open spec fn vstack_pad_node(top: Node, bottom: Node, line: LineStyle, pad: nat) -> Node {
    plain(
        maxn(top.width, bottom.width) + 2 * pad,
        top.height + bottom.height + 1,
        top.height,
        Shape::VStack { top: Box::new(top), bottom: Box::new(bottom), line },
    )
}

/// `top` over `bottom` with one column of padding each side.
pub open spec fn vstack_node(top: Node, bottom: Node, line: LineStyle) -> Node {
    vstack_pad_node(top, bottom, line, 1)
}

pub open spec fn infix_node(lhs: Node, op: BinOp, rhs: Node) -> Node {
    let b = maxn(lhs.baseline, rhs.baseline);
    plain(
        lhs.width + 3 + rhs.width,
        maxn((b - lhs.baseline + lhs.height) as nat, (b - rhs.baseline + rhs.height) as nat),
        b,
        Shape::Infix { lhs: Box::new(lhs), op, rhs: Box::new(rhs) },
    )
}

pub open spec fn superscript_node(base: Node, exp: Node) -> Node {
    plain(
        exp.width + base.width,
        exp.height + base.height,
        base.baseline + exp.height,
        Shape::Superscript { base: Box::new(base), exp: Box::new(exp) },
    )
}

pub open spec fn subscript_node(base: Node, sub: Node) -> Node {
    plain(
        base.width + sub.width,
        maxn(base.baseline + 1 + sub.height, base.height),
        base.baseline,
        Shape::Subscript { base: Box::new(base), sub: Box::new(sub) },
    )
}

pub open spec fn both_scripts_node(base: Node, sub: Node, sup: Node) -> Node {
    plain(
        base.width + maxn(sub.width, sup.width),
        sup.height + sub.height + base.height,
        base.baseline + sup.height,
        Shape::BothScripts { base: Box::new(base), sub: Box::new(sub), sup: Box::new(sup) },
    )
}

/// `inner` between stretchy delimiters: one column each side for a single row,
/// two columns each side for taller content.
pub open spec fn stretchy_delim_node(inner: Node, left: char, right: char, fill: bool) -> Node {
    let kind = Shape::StretchyDelim { inner: Box::new(inner), left, right, fill };
    if inner.height <= 1 {
        plain(inner.width + 2, 1, 0, kind)
    } else {
        plain(inner.width + 4, inner.height, inner.baseline, kind)
    }
}

pub open spec fn stretchy_fits(inner: Node) -> bool {
    if inner.height <= 1 {
        inner.width + 2 <= usize::MAX
    } else {
        inner.width + 4 <= usize::MAX
    }
}

pub open spec fn accent_node(inner: Node, mark: char, stretch: bool) -> Node {
    plain(
        maxn(inner.width, 1),
        inner.height + 1,
        inner.baseline + 1,
        Shape::Accent { inner: Box::new(inner), mark, stretch },
    )
}

pub open spec fn limits_node(base: Node, lower: Node, upper: Node) -> Node {
    let max_h = maxn(upper.height, lower.height);
    plain(
        maxn(maxn(base.width, lower.width), upper.width) + 1,
        base.height + 2 * max_h,
        max_h + base.baseline,
        Shape::Limits { base: Box::new(base), lower: Box::new(lower), upper: Box::new(upper) },
    )
}

pub open spec fn sqrt_node(inner: Node, index: Option<Node>) -> Node {
    plain(
        inner.width + 3,
        inner.height + 1,
        inner.baseline + 1,
        Shape::Sqrt {
            inner: Box::new(inner),
            index: match index {
                Some(i) => Some(Box::new(i)),
                None => None,
            },
        },
    )
}

/// The model of an optional node.
pub open spec fn opt_view(o: Option<LayoutNode>) -> Option<Node> {
    match o {
        Some(n) => Some(n@),
        None => None,
    }
}

pub open spec fn boxed(inner: Option<Node>) -> Option<Box<Node>> {
    match inner {
        Some(i) => Some(Box::new(i)),
        None => None,
    }
}

/// The width of a summation sign as tall as `h` rows: one and a half times `h`,
/// rounded down, and at least `h / 2 + 2`.
pub open spec fn sigma_width(h: nat) -> nat {
    maxn(h + h / 2, h / 2 + 2)
}

pub open spec fn summation_node(inner: Option<Node>) -> Node {
    let kind = Shape::Summation { inner: boxed(inner) };
    match inner {
        None => plain(4, 3, 1, kind),
        Some(i) => if i.height <= 2 {
            plain(i.width + 4, 3, 1, kind)
        } else {
            plain(sigma_width(i.height) + 1 + i.width, i.height, i.baseline, kind)
        },
    }
}

pub open spec fn product_node(inner: Option<Node>) -> Node {
    let kind = Shape::Product { inner: boxed(inner) };
    match inner {
        None => plain(4, 2, 1, kind),
        Some(i) => plain(i.width + 4, maxn(i.height, 1) + 1, i.baseline + 1, kind),
    }
}

pub open spec fn integral_node(inner: Option<Node>) -> Node {
    let kind = Shape::Integral { inner: boxed(inner) };
    match inner {
        None => plain(2, 3, 1, kind),
        Some(i) => if i.height <= 3 {
            plain(i.width + 1, 3, 1, kind)
        } else {
            plain(i.width + 2, i.height, i.baseline, kind)
        },
    }
}

/// A node with both scripts has room for each script beside its base, exactly as much
/// as the wider one needs, and is as high as the base with the superscript above and
/// the subscript below.
pub proof fn lemma_both_scripts_room(base: Node, sub: Node, sup: Node)
    ensures
        ({
            let n = both_scripts_node(base, sub, sup);
            &&& n.width >= base.width + sub.width
            &&& n.width >= base.width + sup.width
            &&& (n.width == base.width + sub.width || n.width == base.width + sup.width)
            &&& n.height == sup.height + base.height + sub.height
            &&& n.baseline == sup.height + base.baseline
        }),
{
}

/// A big operator's node holds its argument: it is wider than the argument and at
/// least as high. An integral or summation taller than its sign takes the argument's
/// height and baseline; a product puts the argument one row below its top, and the
/// argument then fits inside it whenever its baseline is on one of its rows.
pub proof fn lemma_big_operators_hold(i: Node)
    ensures
        ({
            let s = summation_node(Some(i));
            let p = product_node(Some(i));
            let g = integral_node(Some(i));
            &&& s.width > i.width && s.height >= i.height
            &&& p.width > i.width && p.height >= i.height && p.baseline == i.baseline + 1
            &&& g.width > i.width && g.height >= i.height
            &&& i.height > 3 ==> g.baseline == i.baseline && g.height == i.height
            &&& i.height > 2 ==> s.baseline == i.baseline && s.height == i.height
            &&& i.baseline < i.height ==> p.baseline - i.baseline + i.height <= p.height
        }),
{
}

pub open spec fn negate_node(inner: Node) -> Node {
    plain(inner.width + 1, inner.height, inner.baseline, Shape::Neg { inner: Box::new(inner) })
}

pub open spec fn prime_node(base: Node, count: nat) -> Node {
    plain(base.width + count, base.height, base.baseline, Shape::Prime { base: Box::new(base), count })
}

// ---------------------------------------------------------------------------
// Constructors.
// ---------------------------------------------------------------------------

fn max_usize(a: usize, b: usize) -> (r: usize)
    ensures
        r == maxn(a as nat, b as nat),
{
    if a >= b {
        a
    } else {
        b
    }
}

fn clone_slice(v: &[LayoutNode]) -> (r: Vec<LayoutNode>)
    ensures
        models(r@) == models(v@),
{
    let mut r: Vec<LayoutNode> = Vec::new();
    let mut i: usize = 0;
    while i < v.len()
        invariant
            i <= v@.len(),
            r@.len() == i,
            forall|j: int| 0 <= j < i ==> #[trigger] r@[j].model() == v@[j].model(),
        decreases v@.len() - i,
    {
        r.push(v[i].clone());
        i = i + 1;
    }
    proof {
        lemma_models_eq(r@, v@);
    }
    r
}

impl LayoutNode {
    pub fn empty() -> (r: Self)
        ensures
            r@ == plain(0, 0, 0, Shape::Empty),
    {
        Self { width: 0, height: 0, baseline: 0, style: Style::new(), kind: NodeKind::Empty }
    }

    /// One row of text, as wide as it has characters.
    pub fn text(content: Vec<char>) -> (r: Self)
        ensures
            r@ == plain(content@.len(), 1, 0, Shape::Text { content: content@ }),
    {
        let width = content.len();
        Self { width, height: 1, baseline: 0, style: Style::new(), kind: NodeKind::Text { content } }
    }

    pub fn text_with_style(content: Vec<char>, style: Style) -> (r: Self)
        ensures
            r@ == (Node {
                width: content@.len(),
                height: 1,
                baseline: 0,
                style,
                kind: Shape::Text { content: content@ },
            }),
    {
        let width = content.len();
        Self { width, height: 1, baseline: 0, style, kind: NodeKind::Text { content } }
    }

    pub fn from_char(c: char) -> (r: Self)
        ensures
            r@ == plain(1, 1, 0, Shape::Text { content: seq![c] }),
    {
        let mut v: Vec<char> = Vec::new();
        v.push(c);
        assert(v@ =~= seq![c]);
        Self::text(v)
    }

    /// The characters of `s` as one row of text.
    pub fn text_str(s: &str) -> (r: Self)
        ensures
            r@ == plain(s@.len(), 1, 0, Shape::Text { content: s@ }),
    {
        let n = s.unicode_len();
        let mut v: Vec<char> = Vec::new();
        let mut k: usize = 0;
        while k < n
            invariant
                n == s@.len(),
                k <= n,
                v@ == s@.take(k as int),
            decreases n - k,
        {
            v.push(s.get_char(k));
            k = k + 1;
            assert(v@ =~= s@.take(k as int));
        }
        assert(v@ =~= s@);
        Self::text(v)
    }

    /// Nodes side by side, aligned on their baselines, `spacing` columns apart.
    pub fn hstack(children: &[LayoutNode], spacing: usize) -> (r: Self)
        requires
            hstack_fits(models(children@), spacing as nat),
        ensures
            r@ == hstack_node(models(children@), spacing as nat),
    {
        proof {
            lemma_models(children@);
        }
        if children.len() == 0 {
            return Self::empty();
        }
        if children.len() == 1 {
            return children[0].clone();
        }
        let ghost cs = models(children@);
        let n = children.len();
        let mut baseline: usize = 0;
        let mut i: usize = 0;
        while i < n
            invariant
                n == children@.len(),
                cs == models(children@),
                cs.len() == n,
                forall|j: int| 0 <= j < n ==> #[trigger] cs[j] == children@[j].model(),
                i <= n,
                baseline == max_baseline(cs.take(i as int)),
            decreases n - i,
        {
            assert(cs.take(i + 1).drop_last() =~= cs.take(i as int));
            baseline = max_usize(baseline, children[i].baseline);
            i = i + 1;
        }
        assert(cs.take(n as int) =~= cs);
        let mut height: usize = 0;
        let mut total_width: usize = 0;
        let mut i: usize = 0;
        proof {
            lemma_max_depth_prefix(cs, n as int);
            lemma_sum_width_prefix(cs, n as int);
        }
        while i < n
            invariant
                n == children@.len(),
                n >= 2,
                cs == models(children@),
                cs.len() == n,
                forall|j: int| 0 <= j < n ==> #[trigger] cs[j] == children@[j].model(),
                i <= n,
                baseline == max_baseline(cs),
                hstack_fits(cs, spacing as nat),
                forall|k: int| 0 <= k <= n ==> #[trigger] max_depth(cs.take(k)) <= max_depth(cs),
                forall|k: int| 0 <= k <= n ==> #[trigger] sum_width(cs.take(k)) <= sum_width(cs),
                i == 0 ==> height == 0,
                i > 0 ==> height == baseline + max_depth(cs.take(i as int)),
                total_width == sum_width(cs.take(i as int)),
            decreases n - i,
        {
            assert(cs.take(i + 1).drop_last() =~= cs.take(i as int));
            assert(cs.take(i + 1).last() == cs[i as int]);
            assert(max_depth(cs.take(i + 1)) <= max_depth(cs));
            assert(sum_width(cs.take(i + 1)) <= sum_width(cs));
            let c = &children[i];
            let below = c.height.saturating_sub(c.baseline);
            height = max_usize(height, baseline + below);
            total_width = total_width + c.width;
            i = i + 1;
        }
        assert(cs.take(n as int) =~= cs);
        let total_width = total_width + spacing * (n - 1);
        Self {
            width: total_width,
            height,
            baseline,
            style: Style::new(),
            kind: NodeKind::HStack { children: clone_slice(children), spacing },
        }
    }

    /// `top` over `bottom`, with one column of padding each side and a row between them.
    pub fn vstack(top: LayoutNode, bottom: LayoutNode, line: LineStyle) -> (r: Self)
        requires
            maxn(top@.width, bottom@.width) + 2 <= usize::MAX,
            top@.height + bottom@.height + 1 <= usize::MAX,
        ensures
            r@ == vstack_node(top@, bottom@, line),
    {
        Self::vstack_padded(top, bottom, line, 1)
    }

    /// `top` over `bottom`, with `pad` columns of padding each side and a row between them.
    pub fn vstack_padded(top: LayoutNode, bottom: LayoutNode, line: LineStyle, pad: usize) -> (r: Self)
        requires
            maxn(top@.width, bottom@.width) + 2 * pad <= usize::MAX,
            top@.height + bottom@.height + 1 <= usize::MAX,
        ensures
            r@ == vstack_pad_node(top@, bottom@, line, pad as nat),
    {
        let inner_w = max_usize(top.width, bottom.width);
        let w = inner_w + 2 * pad;
        let h = top.height + bottom.height + 1;
        let baseline = top.height;
        Self {
            width: w,
            height: h,
            baseline,
            style: Style::new(),
            kind: NodeKind::VStack { top: Box::new(top), bottom: Box::new(bottom), line },
        }
    }

    /// `lhs op rhs` on a common baseline.
    pub fn infix(lhs: LayoutNode, op: BinOp, rhs: LayoutNode) -> (r: Self)
        requires
            lhs@.width + 3 + rhs@.width <= usize::MAX,
            maxn(lhs@.baseline, rhs@.baseline) - lhs@.baseline + lhs@.height <= usize::MAX,
            maxn(lhs@.baseline, rhs@.baseline) - rhs@.baseline + rhs@.height <= usize::MAX,
        ensures
            r@ == infix_node(lhs@, op, rhs@),
    {
        let baseline = max_usize(lhs.baseline, rhs.baseline);
        let lhs_y = baseline - lhs.baseline;
        let rhs_y = baseline - rhs.baseline;
        let width = lhs.width + 3 + rhs.width;
        let height = max_usize(lhs_y + lhs.height, rhs_y + rhs.height);
        Self {
            width,
            height,
            baseline,
            style: Style::new(),
            kind: NodeKind::Infix { lhs: Box::new(lhs), op, rhs: Box::new(rhs) },
        }
    }

    pub fn superscript(base: LayoutNode, exp: LayoutNode) -> (r: Self)
        requires
            exp@.height + base@.height <= usize::MAX,
            exp@.width + base@.width <= usize::MAX,
            base@.baseline + exp@.height <= usize::MAX,
        ensures
            r@ == superscript_node(base@, exp@),
    {
        let height = exp.height + base.height;
        let width = exp.width + base.width;
        let baseline = base.baseline + exp.height;
        Self {
            width,
            height,
            baseline,
            style: Style::new(),
            kind: NodeKind::Superscript { base: Box::new(base), exp: Box::new(exp) },
        }
    }

    pub fn subscript(base: LayoutNode, sub: LayoutNode) -> (r: Self)
        requires
            base@.baseline + 1 + sub@.height <= usize::MAX,
            base@.width + sub@.width <= usize::MAX,
        ensures
            r@ == subscript_node(base@, sub@),
    {
        let height = max_usize(base.baseline + 1 + sub.height, base.height);
        let width = base.width + sub.width;
        Self {
            width,
            height,
            baseline: base.baseline,
            style: Style::new(),
            kind: NodeKind::Subscript { base: Box::new(base), sub: Box::new(sub) },
        }
    }

    pub fn both_scripts(base: LayoutNode, sub: LayoutNode, sup: LayoutNode) -> (r: LayoutNode)
        requires
            sup@.height + sub@.height + base@.height <= usize::MAX,
            base@.width + maxn(sub@.width, sup@.width) <= usize::MAX,
            base@.baseline + sup@.height <= usize::MAX,
        ensures
            r@ == both_scripts_node(base@, sub@, sup@),
    {
        let sup_h = sup.height;
        let height = sup_h + sub.height + base.height;
        let width = base.width + max_usize(sub.width, sup.width);
        let baseline = base.baseline + sup_h;
        Self {
            width,
            height,
            baseline,
            style: Style::new(),
            kind: NodeKind::BothScripts { base: Box::new(base), sub: Box::new(sub), sup: Box::new(sup) },
        }
    }

    /// `inner` between the delimiters `left` and `right`, which stretch to its height.
    pub fn stretchy_delim(inner: LayoutNode, left: char, right: char, fill: bool) -> (r: Self)
        requires
            stretchy_fits(inner@),
        ensures
            r@ == stretchy_delim_node(inner@, left, right, fill),
    {
        if inner.height <= 1 {
            let w = inner.width + 2;
            return Self {
                width: w,
                height: 1,
                baseline: 0,
                style: Style::new(),
                kind: NodeKind::StretchyDelim { inner: Box::new(inner), left, right, fill },
            };
        }
        let h = inner.height;
        let w = inner.width + 4;
        let b = inner.baseline;
        Self {
            width: w,
            height: h,
            baseline: b,
            style: Style::new(),
            kind: NodeKind::StretchyDelim { inner: Box::new(inner), left, right, fill },
        }
    }

    /// `inner` with `mark` above it.
    pub fn accent(inner: LayoutNode, mark: char, stretch: bool) -> (r: Self)
        requires
            inner@.height + 1 <= usize::MAX,
            inner@.baseline + 1 <= usize::MAX,
        ensures
            r@ == accent_node(inner@, mark, stretch),
    {
        let width = max_usize(inner.width, 1);
        let height = inner.height + 1;
        let baseline = inner.baseline + 1;
        Self {
            width,
            height,
            baseline,
            style: Style::new(),
            kind: NodeKind::Accent { inner: Box::new(inner), mark, stretch },
        }
    }

    /// `base` with `lower` below and `upper` above it.
    pub fn limits(base: LayoutNode, lower: LayoutNode, upper: LayoutNode) -> (r: Self)
        requires
            maxn(maxn(base@.width, lower@.width), upper@.width) + 1 <= usize::MAX,
            base@.height + 2 * maxn(upper@.height, lower@.height) <= usize::MAX,
            maxn(upper@.height, lower@.height) + base@.baseline <= usize::MAX,
        ensures
            r@ == limits_node(base@, lower@, upper@),
    {
        let max_h = max_usize(upper.height, lower.height);
        let w = max_usize(max_usize(base.width, lower.width), upper.width) + 1;
        let h = base.height + 2 * max_h;
        let baseline = max_h + base.baseline;
        Self {
            width: w,
            height: h,
            baseline,
            style: Style::new(),
            kind: NodeKind::Limits { base: Box::new(base), lower: Box::new(lower), upper: Box::new(upper) },
        }
    }

    /// A root sign over `inner`, with an optional `index`.
    pub fn sqrt(inner: LayoutNode, index: Option<LayoutNode>) -> (r: Self)
        requires
            inner@.width + 3 <= usize::MAX,
            inner@.height + 1 <= usize::MAX,
            inner@.baseline + 1 <= usize::MAX,
        ensures
            r@ == sqrt_node(inner@, opt_view(index)),
    {
        let h = inner.height + 1;
        let w = inner.width + 3;
        let baseline = inner.baseline + 1;
        let index = match index {
            Some(i) => Some(Box::new(i)),
            None => None,
        };
        Self {
            width: w,
            height: h,
            baseline,
            style: Style::new(),
            kind: NodeKind::Sqrt { inner: Box::new(inner), index },
        }
    }

    /// A summation sign, before `inner` when there is one.
    pub fn summation(inner: Option<LayoutNode>) -> (r: Self)
        requires
            inner matches Some(i) ==> if i@.height <= 2 {
                i@.width + 4 <= usize::MAX
            } else {
                sigma_width(i@.height) + 1 + i@.width <= usize::MAX
            },
        ensures
            r@ == summation_node(opt_view(inner)),
    {
        match inner {
            None => {
                let r = Self {
                    width: 4,
                    height: 3,
                    baseline: 1,
                    style: Style::new(),
                    kind: NodeKind::Summation { inner: None },
                };
                r
            },
            Some(inner) => {
                if inner.height <= 2 {
                    let w = inner.width + 4;
                    Self {
                        width: w,
                        height: 3,
                        baseline: 1,
                        style: Style::new(),
                        kind: NodeKind::Summation { inner: Some(Box::new(inner)) },
                    }
                } else {
                    let h = inner.height;
                    let w_sigma = max_usize(h + h / 2, h / 2 + 2);
                    let w = w_sigma + 1 + inner.width;
                    let b = inner.baseline;
                    Self {
                        width: w,
                        height: h,
                        baseline: b,
                        style: Style::new(),
                        kind: NodeKind::Summation { inner: Some(Box::new(inner)) },
                    }
                }
            },
        }
    }

    /// A product sign, before `inner` when there is one.
    pub fn product(inner: Option<LayoutNode>) -> (r: Self)
        requires
            inner matches Some(i) ==> i@.width + 4 <= usize::MAX && maxn(i@.height, 1) + 1
                <= usize::MAX && i@.baseline + 1 <= usize::MAX,
        ensures
            r@ == product_node(opt_view(inner)),
    {
        match inner {
            None => Self {
                width: 4,
                height: 2,
                baseline: 1,
                style: Style::new(),
                kind: NodeKind::Product { inner: None },
            },
            Some(inner) => {
                let w = inner.width + 4;
                let h = max_usize(inner.height, 1) + 1;
                let b = inner.baseline + 1;
                Self {
                    width: w,
                    height: h,
                    baseline: b,
                    style: Style::new(),
                    kind: NodeKind::Product { inner: Some(Box::new(inner)) },
                }
            },
        }
    }

    /// An integral sign, before `inner` when there is one.
    pub fn integral(inner: Option<LayoutNode>) -> (r: Self)
        requires
            inner matches Some(i) ==> i@.width + 2 <= usize::MAX,
        ensures
            r@ == integral_node(opt_view(inner)),
    {
        match inner {
            None => Self {
                width: 2,
                height: 3,
                baseline: 1,
                style: Style::new(),
                kind: NodeKind::Integral { inner: None },
            },
            Some(inner) => {
                if inner.height <= 3 {
                    let w = inner.width + 1;
                    Self {
                        width: w,
                        height: 3,
                        baseline: 1,
                        style: Style::new(),
                        kind: NodeKind::Integral { inner: Some(Box::new(inner)) },
                    }
                } else {
                    let h = inner.height;
                    let w = inner.width + 2;
                    let b = inner.baseline;
                    Self {
                        width: w,
                        height: h,
                        baseline: b,
                        style: Style::new(),
                        kind: NodeKind::Integral { inner: Some(Box::new(inner)) },
                    }
                }
            },
        }
    }

    /// `inner` with a minus sign before it.
    pub fn negate(inner: LayoutNode) -> (r: Self)
        requires
            inner@.width + 1 <= usize::MAX,
        ensures
            r@ == negate_node(inner@),
    {
        let width = inner.width + 1;
        let height = inner.height;
        let baseline = inner.baseline;
        Self { width, height, baseline, style: Style::new(), kind: NodeKind::Neg { inner: Box::new(inner) } }
    }

    /// `base` followed by `count` prime marks.
    pub fn prime(base: LayoutNode, count: usize) -> (r: Self)
        requires
            base@.width + count <= usize::MAX,
        ensures
            r@ == prime_node(base@, count as nat),
    {
        let width = base.width + count;
        let height = base.height;
        let baseline = base.baseline;
        Self { width, height, baseline, style: Style::new(), kind: NodeKind::Prime { base: Box::new(base), count } }
    }
}

proof fn lemma_max_depth_prefix(cs: Seq<Node>, n: int)
    requires
        0 <= n <= cs.len(),
    ensures
        forall|k: int| 0 <= k <= n ==> #[trigger] max_depth(cs.take(k)) <= max_depth(cs.take(n)),
    decreases n,
{
    if n > 0 {
        lemma_max_depth_prefix(cs, n - 1);
        assert(cs.take(n).drop_last() =~= cs.take(n - 1));
    }
    assert(cs.take(cs.len() as int) =~= cs);
}

proof fn lemma_sum_width_prefix(cs: Seq<Node>, n: int)
    requires
        0 <= n <= cs.len(),
    ensures
        forall|k: int| 0 <= k <= n ==> #[trigger] sum_width(cs.take(k)) <= sum_width(cs.take(n)),
    decreases n,
{
    if n > 0 {
        lemma_sum_width_prefix(cs, n - 1);
        assert(cs.take(n).drop_last() =~= cs.take(n - 1));
    }
    assert(cs.take(cs.len() as int) =~= cs);
}


// ---------------------------------------------------------------------------
// Matrices.
// ---------------------------------------------------------------------------

/// The height a row of a matrix needs: its greatest baseline plus its greatest depth.
pub open spec fn row_height(row: Seq<Node>) -> nat {
    max_baseline(row) + max_depth(row)
}

/// The height of every cell: the greatest row height.
pub open spec fn cell_height(rows: Seq<Seq<Node>>) -> nat
    decreases rows.len(),
{
    if rows.len() == 0 {
        0
    } else {
        maxn(cell_height(rows.drop_last()), row_height(rows.last()))
    }
}

/// The width of every cell: the greatest width of any item.
pub open spec fn cell_width(rows: Seq<Seq<Node>>) -> nat
    decreases rows.len(),
{
    if rows.len() == 0 {
        0
    } else {
        maxn(cell_width(rows.drop_last()), max_width(rows.last()))
    }
}

/// The rows of cells one row of space apart, made odd so that there is a middle row.
pub open spec fn matrix_height(rows: Seq<Seq<Node>>) -> nat {
    let h = rows.len() * cell_height(rows) + (rows.len() - 1) as nat;
    if h % 2 == 0 {
        h + 1
    } else {
        h
    }
}

/// As many cells as the first row has, four columns of space apart.
pub open spec fn matrix_width(rows: Seq<Seq<Node>>) -> nat {
    rows[0].len() * cell_width(rows) + ((rows[0].len() - 1) as nat) * 4
}

/// The delimiters of a matrix environment, for the names that exist.
pub open spec fn matrix_delims(name: Seq<char>) -> Option<(char, char)> {
    if name == "matrix"@ {
        Some((' ', ' '))
    } else if name == "bmatrix"@ {
        Some(('[', ']'))
    } else if name == "pmatrix"@ {
        Some(('(', ')'))
    } else {
        None
    }
}

/// Each matrix environment has its own delimiters: `matrix` blanks, `bmatrix` square
/// brackets and `pmatrix` parentheses, an opening one on the left and its closing one
/// on the right; different environments never share them, and no other name is an
/// environment.
pub proof fn lemma_matrix_delims()
    ensures
        matrix_delims("matrix"@) == Some((' ', ' ')),
        matrix_delims("bmatrix"@) == Some(('[', ']')),
        matrix_delims("pmatrix"@) == Some(('(', ')')),
        forall|n: Seq<char>|
            #[trigger] matrix_delims(n) is Some <==> (n == "matrix"@ || n == "bmatrix"@ || n == "pmatrix"@),
        forall|n: Seq<char>, m: Seq<char>|
            n != m && #[trigger] matrix_delims(n) is Some && #[trigger] matrix_delims(m) is Some
                ==> matrix_delims(n) != matrix_delims(m),
{
    reveal_strlit("matrix");
    reveal_strlit("bmatrix");
    reveal_strlit("pmatrix");
    assert("matrix"@.len() != "bmatrix"@.len());
    assert("matrix"@.len() != "pmatrix"@.len());
    assert("bmatrix"@[0] != "pmatrix"@[0]);
}

/// The matrix node itself, before its delimiters.
pub open spec fn matrix_inner(name: Seq<char>, rows: Seq<Seq<Node>>) -> Node {
    plain(
        matrix_width(rows),
        matrix_height(rows),
        matrix_height(rows) / 2,
        Shape::Matrix { name, rows },
    )
}

proof fn lemma_max_width_bounds(s: Seq<Node>)
    ensures
        forall|i: int| 0 <= i < s.len() ==> #[trigger] s[i].width <= max_width(s),
        s.len() > 0 ==> exists|i: int| 0 <= i < s.len() && #[trigger] s[i].width == max_width(s),
    decreases s.len(),
{
    if s.len() > 0 {
        let t = s.drop_last();
        lemma_max_width_bounds(t);
        assert forall|i: int| 0 <= i < s.len() implies #[trigger] s[i].width <= max_width(s) by {
            if i < t.len() {
                assert(s[i] == t[i]);
            }
        }
        if max_width(s) == s.last().width {
            assert(s[s.len() - 1].width == max_width(s));
        } else {
            let i = choose|i: int| 0 <= i < t.len() && #[trigger] t[i].width == max_width(t);
            assert(s[i] == t[i]);
        }
    }
}

proof fn lemma_cell_width_bounds(rows: Seq<Seq<Node>>)
    ensures
        forall|i: int, j: int|
            0 <= i < rows.len() && 0 <= j < rows[i].len() ==> #[trigger] rows[i][j].width <= cell_width(rows),
        cell_width(rows) == 0 || exists|i: int, j: int|
            0 <= i < rows.len() && 0 <= j < rows[i].len() && #[trigger] rows[i][j].width == cell_width(rows),
    decreases rows.len(),
{
    if rows.len() > 0 {
        let t = rows.drop_last();
        lemma_cell_width_bounds(t);
        lemma_max_width_bounds(rows.last());
        assert forall|i: int, j: int| 0 <= i < rows.len() && 0 <= j < rows[i].len() implies #[trigger] rows[i][j].width
            <= cell_width(rows) by {
            if i < t.len() {
                assert(rows[i] == t[i]);
            }
        }
        if cell_width(rows) > 0 {
            if cell_width(rows) == max_width(rows.last()) {
                let j = choose|j: int| 0 <= j < rows.last().len() && #[trigger] rows.last()[j].width == max_width(rows.last());
                assert(rows[rows.len() - 1][j].width == cell_width(rows));
            } else {
                let (a, b) = choose|a: int, b: int|
                    0 <= a < t.len() && 0 <= b < t[a].len() && #[trigger] t[a][b].width == cell_width(t);
                assert(rows[a] == t[a]);
            }
        }
    }
}

proof fn lemma_cell_height_bounds(rows: Seq<Seq<Node>>)
    ensures
        forall|i: int| 0 <= i < rows.len() ==> #[trigger] row_height(rows[i]) <= cell_height(rows),
        rows.len() > 0 ==> exists|i: int| 0 <= i < rows.len() && #[trigger] row_height(rows[i]) == cell_height(rows),
    decreases rows.len(),
{
    if rows.len() > 0 {
        let t = rows.drop_last();
        lemma_cell_height_bounds(t);
        assert forall|i: int| 0 <= i < rows.len() implies #[trigger] row_height(rows[i]) <= cell_height(rows) by {
            if i < t.len() {
                assert(rows[i] == t[i]);
            }
        }
        if cell_height(rows) == row_height(rows.last()) {
            assert(row_height(rows[rows.len() - 1]) == cell_height(rows));
        } else {
            let i = choose|i: int| 0 <= i < t.len() && #[trigger] row_height(t[i]) == cell_height(t);
            assert(rows[i] == t[i]);
        }
    }
}

/// A matrix of `R` rows of `C` cells: every cell is as wide as the widest item and as
/// high as the highest row (both reached by some item and some row), cells are four
/// columns and one row apart, the height is made odd, and the baseline is the middle
/// row.
pub proof fn lemma_matrix_shape(name: Seq<char>, rows: Seq<Seq<Node>>)
    requires
        rows.len() > 0,
        rows[0].len() > 0,
    ensures
        ({
            let m = matrix_inner(name, rows);
            let cw = cell_width(rows);
            let ch = cell_height(rows);
            let h = rows.len() * ch + rows.len() - 1;
            &&& forall|i: int, j: int|
                0 <= i < rows.len() && 0 <= j < rows[i].len() ==> #[trigger] rows[i][j].width <= cw
            &&& exists|i: int, j: int|
                0 <= i < rows.len() && 0 <= j < rows[i].len() && #[trigger] rows[i][j].width == cw
            &&& forall|i: int| 0 <= i < rows.len() ==> #[trigger] row_height(rows[i]) <= ch
            &&& exists|i: int| 0 <= i < rows.len() && #[trigger] row_height(rows[i]) == ch
            &&& m.width == rows[0].len() * cw + 4 * (rows[0].len() - 1)
            &&& m.height == if h % 2 == 0 { h + 1 } else { h }
            &&& m.height % 2 == 1
            &&& m.baseline * 2 + 1 == m.height
            &&& m.kind == Shape::Matrix { name, rows }
        }),
{
    lemma_cell_width_bounds(rows);
    lemma_cell_height_bounds(rows);
    if cell_width(rows) == 0 {
        assert(rows[0][0].width <= 0);
        assert(rows[0][0].width == cell_width(rows));
    }
}

/// The sizes computed for a matrix fit in a `usize`.
pub open spec fn matrix_fits(rows: Seq<Seq<Node>>) -> bool {
    rows.len() > 0 && rows[0].len() > 0 ==> {
        &&& forall|i: int| 0 <= i < rows.len() ==> #[trigger] row_height(rows[i]) <= usize::MAX
        &&& rows.len() * cell_height(rows) + rows.len() - 1 <= usize::MAX
        &&& rows[0].len() * cell_width(rows) + ((rows[0].len() - 1) as nat) * 4 <= usize::MAX
        &&& stretchy_fits(matrix_inner(Seq::empty(), rows))
    }
}

fn str_eq(a: &str, b: &str) -> (r: bool)
    ensures
        r == (a@ == b@),
{
    let n = a.unicode_len();
    if n != b.unicode_len() {
        return false;
    }
    let mut i: usize = 0;
    while i < n
        invariant
            n == a@.len(),
            n == b@.len(),
            i <= n,
            forall|j: int| 0 <= j < i ==> a@[j] == b@[j],
        decreases n - i,
    {
        if a.get_char(i) != b.get_char(i) {
            return false;
        }
        i = i + 1;
    }
    assert(a@ =~= b@);
    true
}

fn clone_row_slice(v: &[Vec<LayoutNode>]) -> (r: Vec<Vec<LayoutNode>>)
    ensures
        row_models(r@) == row_models(v@),
{
    let mut r: Vec<Vec<LayoutNode>> = Vec::new();
    let mut i: usize = 0;
    while i < v.len()
        invariant
            i <= v@.len(),
            r@.len() == i,
            forall|j: int| 0 <= j < i ==> #[trigger] models(r@[j]@) == models(v@[j]@),
        decreases v@.len() - i,
    {
        r.push(clone_nodes(&v[i]));
        i = i + 1;
    }
    proof {
        lemma_row_models(r@);
        lemma_row_models(v@);
        assert(row_models(r@) =~= row_models(v@));
    }
    r
}

/// The greatest baseline, depth and width of a row.
fn row_extent(row: &Vec<LayoutNode>) -> (r: (usize, usize, usize))
    ensures
        r.0 == max_baseline(models(row@)),
        r.1 == max_depth(models(row@)),
        r.2 == max_width(models(row@)),
{
    proof {
        lemma_models(row@);
    }
    let ghost cs = models(row@);
    let mut max_b: usize = 0;
    let mut max_d: usize = 0;
    let mut max_w: usize = 0;
    let mut k: usize = 0;
    while k < row.len()
        invariant
            cs == models(row@),
            cs.len() == row@.len(),
            forall|j: int| 0 <= j < row@.len() ==> #[trigger] cs[j] == row@[j].model(),
            k <= row@.len(),
            max_b == max_baseline(cs.take(k as int)),
            max_d == max_depth(cs.take(k as int)),
            max_w == max_width(cs.take(k as int)),
        decreases row@.len() - k,
    {
        assert(cs.take(k + 1).drop_last() =~= cs.take(k as int));
        let item = &row[k];
        max_w = max_usize(max_w, item.width);
        max_b = max_usize(max_b, item.baseline);
        max_d = max_usize(max_d, item.height.saturating_sub(item.baseline));
        k = k + 1;
    }
    assert(cs.take(row@.len() as int) =~= cs);
    (max_b, max_d, max_w)
}

impl LayoutNode {
    /// A matrix environment (`matrix`, `bmatrix` or `pmatrix`) of the given rows:
    /// every cell as wide as the widest item and as high as the highest row, framed by
    /// the environment's stretchy delimiters. An unknown environment is an error.
    pub fn matrix(name: &str, rows: &[Vec<LayoutNode>]) -> (r: Result<LayoutNode, ParseError>)
        requires
            matrix_fits(row_models(rows@)),
        ensures
            rows@.len() == 0 || rows@[0]@.len() == 0 ==> (r matches Ok(n) && n@ == plain(
                0,
                0,
                0,
                Shape::Empty,
            )),
            rows@.len() > 0 && rows@[0]@.len() > 0 ==> match matrix_delims(name@) {
                Some((left, right)) => (r matches Ok(n) && n@ == stretchy_delim_node(
                    matrix_inner(name@, row_models(rows@)),
                    left,
                    right,
                    true,
                )),
                None => (r matches Err(e) && e.0@ == "unknown matrix environment: "@ + name@),
            },
    {
        if rows.len() == 0 || rows[0].len() == 0 {
            return Ok(Self::empty());
        }
        let ghost rs = row_models(rows@);
        proof {
            lemma_row_models(rows@);
            lemma_models(rows@[0]@);
        }
        let num_rows = rows.len();
        let num_cols = rows[0].len();
        let mut max_item_width: usize = 0;
        let mut cell_h: usize = 0;
        let mut i: usize = 0;
        while i < num_rows
            invariant
                rs == row_models(rows@),
                rs.len() == rows@.len(),
                num_rows == rows@.len(),
                forall|j: int| 0 <= j < rows@.len() ==> #[trigger] rs[j] == models(rows@[j]@),
                matrix_fits(rs),
                num_rows > 0,
                rows@[0]@.len() > 0,
                rs[0].len() > 0,
                i <= num_rows,
                max_item_width == cell_width(rs.take(i as int)),
                cell_h == cell_height(rs.take(i as int)),
            decreases num_rows - i,
        {
            assert(rs.take(i + 1).drop_last() =~= rs.take(i as int));
            let (max_b, max_d, max_w) = row_extent(&rows[i]);
            assert(row_height(rs[i as int]) <= usize::MAX);
            max_item_width = max_usize(max_item_width, max_w);
            cell_h = max_usize(cell_h, max_b + max_d);
            i = i + 1;
        }
        assert(rs.take(num_rows as int) =~= rs);
        let cell_width = max_item_width;
        let hspacing: usize = 4;
        let vspacing: usize = 1;
        let mut matrix_layout_height = num_rows * cell_h + (num_rows - 1) * vspacing;
        let matrix_layout_width = num_cols * cell_width + (num_cols - 1) * hspacing;
        if matrix_layout_height.is_multiple_of(2) {
            assert(usize::MAX % 2 == 1);
            matrix_layout_height = matrix_layout_height + 1;
        }
        let baseline = matrix_layout_height / 2;
        let (left_delim, right_delim) = if str_eq(name, "matrix") {
            (' ', ' ')
        } else if str_eq(name, "bmatrix") {
            ('[', ']')
        } else if str_eq(name, "pmatrix") {
            ('(', ')')
        } else {
            return Err(ParseError("unknown matrix environment: ".to_owned().concat(name)));
        };
        let inner = Self {
            width: matrix_layout_width,
            height: matrix_layout_height,
            baseline,
            style: Style::new(),
            kind: NodeKind::Matrix { name: name.to_owned(), rows: clone_row_slice(rows) },
        };
        Ok(Self::stretchy_delim(inner, left_delim, right_delim, true))
    }
}

} // verus!
