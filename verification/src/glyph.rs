use vstd::prelude::*;
use crate::layout_tree::{
    LayoutNode, LineStyle, Node, NodeKind, Shape, accent_node, lemma_models, maxn, models, opt_view, plain, product_node,
    sigma_width, sqrt_node, stretchy_delim_node, stretchy_fits, summation_node, integral_node,
    vstack_pad_node,
};
use crate::style::Style;

verus! {

/// What a glyph is rendered in: the nesting depth and the style in force.
#[derive(Debug, Default, Clone, Copy)]
pub struct RenderCtx {
    pub depth: usize,
    pub current_style: Style,
}

/// A macro of the math syntax (`\frac`, `\sqrt`, `\mathbb`, ...): how many arguments
/// it takes and how it lays them out.
pub trait Glyph {
    /// The number of arguments that [`Glyph::required_args`] reports.
    spec fn arity(&self) -> nat;

    /// Whether [`Glyph::render`] can lay out these arguments and options in `ctx`:
    /// there are enough of them, and every size it computes fits in a `usize`.
    spec fn accepts(&self, args: Seq<Node>, opts: Seq<Node>, ctx: RenderCtx) -> bool;

    /// What [`Glyph::render`] makes of these arguments and options in `ctx`: its
    /// nesting depth and the style in force.
    spec fn rendered(&self, args: Seq<Node>, opts: Seq<Node>, ctx: RenderCtx) -> Node;

    fn required_args(&self) -> (r: usize)
        ensures
            r == self.arity(),
    ;

    /// Whether the macro takes an optional argument in square brackets; none does
    /// unless it says so.
    fn has_optional(&self) -> (r: bool)
        default_ensures
            !r,
    {
        false
    }

    /// Whether the macro takes limits (`_` and `^`); none does unless it says so.
    fn has_limits(&self) -> (r: bool)
        default_ensures
            !r,
    {
        false
    }

    fn render(&self, args: &[LayoutNode], opts: &[LayoutNode], ctx: &mut RenderCtx) -> (r: LayoutNode)
        requires
            self.accepts(models(args@), models(opts@), *old(ctx)),
        ensures
            r@ == self.rendered(models(args@), models(opts@), *old(ctx)),
            *final(ctx) == *old(ctx),
    ;
}

/// One row of text, in the plain style.
pub open spec fn text_node(s: Seq<char>) -> Node {
    plain(s.len(), 1, 0, Shape::Text { content: s })
}

/// `\lim`: the word "lim", with limits.
#[derive(Debug)]
pub struct LimitGlyph;

impl Glyph for LimitGlyph {
    open spec fn arity(&self) -> nat {
        0
    }

    open spec fn accepts(&self, args: Seq<Node>, opts: Seq<Node>, ctx: RenderCtx) -> bool {
        true
    }

    open spec fn rendered(&self, args: Seq<Node>, opts: Seq<Node>, ctx: RenderCtx) -> Node {
        text_node("lim"@)
    }

    fn required_args(&self) -> (r: usize) {
        0
    }

    fn has_limits(&self) -> (r: bool)
        ensures
            r,
    {
        true
    }

    fn render(&self, args: &[LayoutNode], opts: &[LayoutNode], ctx: &mut RenderCtx) -> (r: LayoutNode) {
        LayoutNode::text_str("lim")
    }
}

/// A symbol that is one character.
#[derive(Debug)]
pub struct UnicodeGlyph(pub char);

impl Glyph for UnicodeGlyph {
    open spec fn arity(&self) -> nat {
        0
    }

    open spec fn accepts(&self, args: Seq<Node>, opts: Seq<Node>, ctx: RenderCtx) -> bool {
        true
    }

    open spec fn rendered(&self, args: Seq<Node>, opts: Seq<Node>, ctx: RenderCtx) -> Node {
        text_node(seq![self.0])
    }

    fn required_args(&self) -> (r: usize) {
        0
    }

    fn render(&self, args: &[LayoutNode], opts: &[LayoutNode], ctx: &mut RenderCtx) -> (r: LayoutNode) {
        LayoutNode::from_char(self.0)
    }
}

/// A symbol that is a word, such as `\sin`.
#[derive(Debug)]
pub struct TextGlyph(pub &'static str);

impl Glyph for TextGlyph {
    open spec fn arity(&self) -> nat {
        0
    }

    open spec fn accepts(&self, args: Seq<Node>, opts: Seq<Node>, ctx: RenderCtx) -> bool {
        true
    }

    open spec fn rendered(&self, args: Seq<Node>, opts: Seq<Node>, ctx: RenderCtx) -> Node {
        text_node(self.0@)
    }

    fn required_args(&self) -> (r: usize) {
        0
    }

    fn render(&self, args: &[LayoutNode], opts: &[LayoutNode], ctx: &mut RenderCtx) -> (r: LayoutNode) {
        LayoutNode::text_str(self.0)
    }
}

/// The padding each side of a stack at nesting depth `depth`: one column at the
/// outermost level, none inside.
pub open spec fn stack_pad(depth: usize) -> nat {
    if depth == 0 {
        1
    } else {
        0
    }
}

fn stack_pad_of(depth: usize) -> (r: usize)
    ensures
        r == stack_pad(depth),
{
    if depth == 0 {
        1
    } else {
        0
    }
}

/// The sizes of a stack of `top` over `bottom` with `pad` columns each side fit in a
/// `usize`.
pub open spec fn vstack_fits(top: Node, bottom: Node, pad: nat) -> bool {
    maxn(top.width, bottom.width) + 2 * pad <= usize::MAX && top.height + bottom.height + 1 <= usize::MAX
}

/// `\binom{n}{k}`: `n` over `k` in stretchy parentheses, padded one column each side
/// at the outermost level only.
#[derive(Debug)]
pub struct BinomGlyph;

impl Glyph for BinomGlyph {
    open spec fn arity(&self) -> nat {
        2
    }

    open spec fn accepts(&self, args: Seq<Node>, opts: Seq<Node>, ctx: RenderCtx) -> bool {
        &&& args.len() >= 2
        &&& vstack_fits(args[0], args[1], stack_pad(ctx.depth))
        &&& stretchy_fits(vstack_pad_node(args[0], args[1], LineStyle::Blank, stack_pad(ctx.depth)))
    }

    open spec fn rendered(&self, args: Seq<Node>, opts: Seq<Node>, ctx: RenderCtx) -> Node {
        stretchy_delim_node(
            vstack_pad_node(args[0], args[1], LineStyle::Blank, stack_pad(ctx.depth)),
            '(',
            ')',
            false,
        )
    }

    fn required_args(&self) -> (r: usize) {
        2
    }

    fn render(&self, args: &[LayoutNode], opts: &[LayoutNode], ctx: &mut RenderCtx) -> (r: LayoutNode) {
        proof {
            lemma_models(args@);
        }
        let pad = stack_pad_of(ctx.depth);
        let inner = LayoutNode::vstack_padded(args[0].clone(), args[1].clone(), LineStyle::Blank, pad);
        LayoutNode::stretchy_delim(inner, '(', ')', false)
    }
}

/// `\frac{a}{b}`: `a` over `b` with a rule between them, padded one column each side
/// at the outermost level only.
#[derive(Debug)]
pub struct FracGlyph;

impl Glyph for FracGlyph {
    open spec fn arity(&self) -> nat {
        2
    }

    open spec fn accepts(&self, args: Seq<Node>, opts: Seq<Node>, ctx: RenderCtx) -> bool {
        args.len() >= 2 && vstack_fits(args[0], args[1], stack_pad(ctx.depth))
    }

    open spec fn rendered(&self, args: Seq<Node>, opts: Seq<Node>, ctx: RenderCtx) -> Node {
        vstack_pad_node(args[0], args[1], LineStyle::Solid, stack_pad(ctx.depth))
    }

    fn required_args(&self) -> (r: usize) {
        2
    }

    fn render(&self, args: &[LayoutNode], opts: &[LayoutNode], ctx: &mut RenderCtx) -> (r: LayoutNode) {
        proof {
            lemma_models(args@);
        }
        let pad = stack_pad_of(ctx.depth);
        LayoutNode::vstack_padded(args[0].clone(), args[1].clone(), LineStyle::Solid, pad)
    }
}

/// `\sqrt[n]{x}`: a root of `x`, with the optional index `n`.
#[derive(Debug)]
pub struct SqrtGlyph;

impl Glyph for SqrtGlyph {
    open spec fn arity(&self) -> nat {
        1
    }

    open spec fn accepts(&self, args: Seq<Node>, opts: Seq<Node>, ctx: RenderCtx) -> bool {
        &&& args.len() >= 1
        &&& args[0].width + 3 <= usize::MAX
        &&& args[0].height + 1 <= usize::MAX
        &&& args[0].baseline + 1 <= usize::MAX
    }

    open spec fn rendered(&self, args: Seq<Node>, opts: Seq<Node>, ctx: RenderCtx) -> Node {
        sqrt_node(args[0], if opts.len() > 0 { Some(opts[0]) } else { None })
    }

    fn required_args(&self) -> (r: usize) {
        1
    }

    fn has_optional(&self) -> (r: bool)
        ensures
            r,
    {
        true
    }

    fn render(&self, args: &[LayoutNode], opts: &[LayoutNode], ctx: &mut RenderCtx) -> (r: LayoutNode) {
        proof {
            lemma_models(args@);
            lemma_models(opts@);
        }
        let index = if opts.len() > 0 {
            Some(opts[0].clone())
        } else {
            None
        };
        LayoutNode::sqrt(args[0].clone(), index)
    }
}

/// The first argument, if there is one.
pub open spec fn first(args: Seq<Node>) -> Option<Node> {
    if args.len() == 0 {
        None
    } else {
        Some(args[0])
    }
}

fn first_arg(args: &[LayoutNode]) -> (r: Option<LayoutNode>)
    ensures
        opt_view(r) == first(models(args@)),
{
    proof {
        lemma_models(args@);
    }
    if args.len() == 0 {
        None
    } else {
        Some(args[0].clone())
    }
}

/// `\sum`: a summation sign before its argument, with limits.
#[derive(Debug)]
pub struct SummationGlyph;

impl Glyph for SummationGlyph {
    open spec fn arity(&self) -> nat {
        1
    }

    open spec fn accepts(&self, args: Seq<Node>, opts: Seq<Node>, ctx: RenderCtx) -> bool {
        args.len() > 0 ==> if args[0].height <= 2 {
            args[0].width + 4 <= usize::MAX
        } else {
            sigma_width(args[0].height) + 1 + args[0].width <= usize::MAX
        }
    }

    open spec fn rendered(&self, args: Seq<Node>, opts: Seq<Node>, ctx: RenderCtx) -> Node {
        summation_node(first(args))
    }

    fn required_args(&self) -> (r: usize) {
        1
    }

    fn has_optional(&self) -> (r: bool)
        ensures
            r,
    {
        true
    }

    fn has_limits(&self) -> (r: bool)
        ensures
            r,
    {
        true
    }

    fn render(&self, args: &[LayoutNode], opts: &[LayoutNode], ctx: &mut RenderCtx) -> (r: LayoutNode) {
        LayoutNode::summation(first_arg(args))
    }
}

/// `\prod`: a product sign before its argument, with limits.
#[derive(Debug)]
pub struct ProductGlyph;

impl Glyph for ProductGlyph {
    open spec fn arity(&self) -> nat {
        1
    }

    open spec fn accepts(&self, args: Seq<Node>, opts: Seq<Node>, ctx: RenderCtx) -> bool {
        args.len() > 0 ==> args[0].width + 4 <= usize::MAX && maxn(args[0].height, 1) + 1
            <= usize::MAX && args[0].baseline + 1 <= usize::MAX
    }

    open spec fn rendered(&self, args: Seq<Node>, opts: Seq<Node>, ctx: RenderCtx) -> Node {
        product_node(first(args))
    }

    fn required_args(&self) -> (r: usize) {
        1
    }

    fn has_limits(&self) -> (r: bool)
        ensures
            r,
    {
        true
    }

    fn render(&self, args: &[LayoutNode], opts: &[LayoutNode], ctx: &mut RenderCtx) -> (r: LayoutNode) {
        LayoutNode::product(first_arg(args))
    }
}

/// `\int`: an integral sign before its argument, with limits, in the style in force.
#[derive(Debug)]
pub struct IntegralGlyph;

impl Glyph for IntegralGlyph {
    open spec fn arity(&self) -> nat {
        1
    }

    open spec fn accepts(&self, args: Seq<Node>, opts: Seq<Node>, ctx: RenderCtx) -> bool {
        args.len() > 0 ==> args[0].width + 2 <= usize::MAX
    }

    open spec fn rendered(&self, args: Seq<Node>, opts: Seq<Node>, ctx: RenderCtx) -> Node {
        let n = integral_node(first(args));
        Node { width: n.width, height: n.height, baseline: n.baseline, style: ctx.current_style, kind: n.kind }
    }

    fn required_args(&self) -> (r: usize) {
        1
    }

    fn has_limits(&self) -> (r: bool)
        ensures
            r,
    {
        true
    }

    fn render(&self, args: &[LayoutNode], opts: &[LayoutNode], ctx: &mut RenderCtx) -> (r: LayoutNode) {
        let mut node = LayoutNode::integral(first_arg(args));
        node.style = ctx.current_style;
        node
    }
}


// ---------------------------------------------------------------------------
// Alphabets.
// ---------------------------------------------------------------------------

/// std's `char::from_u32`: the character with code `i`, which there is exactly when
/// `i` is a Unicode scalar value (not a surrogate, at most U+10FFFF), as its
/// documentation says.
pub assume_specification[ char::from_u32 ](i: u32) -> (r: Option<char>)
    ensures
        r is Some <==> vstd::utf8::is_scalar(i),
        r matches Some(c) ==> c as u32 == i,
;

/// The character with code `base + off`, or `c` when there is none.
pub open spec fn shifted(c: char, base: u32, off: u32) -> char {
    if base + off <= u32::MAX && vstd::utf8::is_scalar((base + off) as u32) {
        ((base + off) as u32) as char
    } else {
        c
    }
}

fn shift(c: char, base: u32, off: u32) -> (r: char)
    requires
        base + off <= u32::MAX,
    ensures
        r == shifted(c, base, off),
{
    let r = char::from_u32(base + off).unwrap_or(c);
    proof {
        if vstd::utf8::is_scalar((base + off) as u32) {
            vstd::utf8::char_u32_cast(r, (base + off) as u32);
        }
    }
    r
}

/// The offset of `c` from `first`.
pub open spec fn off(c: char, first: char) -> u32 {
    (c as u32 - first as u32) as u32
}

/// Mathematical bold: letters and digits move to the bold block.
pub open spec fn bold(c: char) -> char {
    if 'A' <= c <= 'Z' {
        shifted(c, 0x1D400, off(c, 'A'))
    } else if 'a' <= c <= 'z' {
        shifted(c, 0x1D41A, off(c, 'a'))
    } else if '0' <= c <= '9' {
        shifted(c, 0x1D7CE, off(c, '0'))
    } else {
        c
    }
}

/// Blackboard bold: the letters that have a letterlike form take it; other letters
/// and digits move to the double-struck block.
pub open spec fn blackboard(c: char) -> char {
    if c == 'C' {
        'ℂ'
    } else if c == 'H' {
        'ℍ'
    } else if c == 'N' {
        'ℕ'
    } else if c == 'P' {
        'ℙ'
    } else if c == 'Q' {
        'ℚ'
    } else if c == 'R' {
        'ℝ'
    } else if c == 'Z' {
        'ℤ'
    } else if 'A' <= c <= 'Z' {
        shifted(c, 0x1D538, off(c, 'A'))
    } else if 'a' <= c <= 'z' {
        shifted(c, 0x1D552, off(c, 'a'))
    } else if '0' <= c <= '9' {
        shifted(c, 0x1D7D8, off(c, '0'))
    } else {
        c
    }
}

/// Mathematical italic: letters move to the italic block; `h` is Planck's `ℎ`.
pub open spec fn italic(c: char) -> char {
    if c == 'h' {
        'ℎ'
    } else if 'A' <= c <= 'Z' {
        shifted(c, 0x1D434, off(c, 'A'))
    } else if 'a' <= c <= 'z' {
        shifted(c, 0x1D44E, off(c, 'a'))
    } else {
        c
    }
}

/// Mathematical sans-serif: letters and digits move to the sans-serif block.
pub open spec fn sans(c: char) -> char {
    if 'A' <= c <= 'Z' {
        shifted(c, 0x1D5A0, off(c, 'A'))
    } else if 'a' <= c <= 'z' {
        shifted(c, 0x1D5BA, off(c, 'a'))
    } else if '0' <= c <= '9' {
        shifted(c, 0x1D7E2, off(c, '0'))
    } else {
        c
    }
}

pub fn to_bold(c: char) -> (r: char)
    ensures
        r == bold(c),
{
    if 'A' <= c && c <= 'Z' {
        shift(c, 0x1D400, c as u32 - 'A' as u32)
    } else if 'a' <= c && c <= 'z' {
        shift(c, 0x1D41A, c as u32 - 'a' as u32)
    } else if '0' <= c && c <= '9' {
        shift(c, 0x1D7CE, c as u32 - '0' as u32)
    } else {
        c
    }
}

pub fn to_bb(c: char) -> (r: char)
    ensures
        r == blackboard(c),
{
    if c == 'C' {
        'ℂ'
    } else if c == 'H' {
        'ℍ'
    } else if c == 'N' {
        'ℕ'
    } else if c == 'P' {
        'ℙ'
    } else if c == 'Q' {
        'ℚ'
    } else if c == 'R' {
        'ℝ'
    } else if c == 'Z' {
        'ℤ'
    } else if 'A' <= c && c <= 'Z' {
        shift(c, 0x1D538, c as u32 - 'A' as u32)
    } else if 'a' <= c && c <= 'z' {
        shift(c, 0x1D552, c as u32 - 'a' as u32)
    } else if '0' <= c && c <= '9' {
        shift(c, 0x1D7D8, c as u32 - '0' as u32)
    } else {
        c
    }
}

pub fn to_upright(c: char) -> (r: char)
    ensures
        r == c,
{
    c
}

pub fn to_italic(c: char) -> (r: char)
    ensures
        r == italic(c),
{
    if c == 'h' {
        'ℎ'
    } else if 'A' <= c && c <= 'Z' {
        shift(c, 0x1D434, c as u32 - 'A' as u32)
    } else if 'a' <= c && c <= 'z' {
        shift(c, 0x1D44E, c as u32 - 'a' as u32)
    } else {
        c
    }
}

pub fn to_sans(c: char) -> (r: char)
    ensures
        r == sans(c),
{
    if 'A' <= c && c <= 'Z' {
        shift(c, 0x1D5A0, c as u32 - 'A' as u32)
    } else if 'a' <= c && c <= 'z' {
        shift(c, 0x1D5BA, c as u32 - 'a' as u32)
    } else if '0' <= c && c <= '9' {
        shift(c, 0x1D7E2, c as u32 - '0' as u32)
    } else {
        c
    }
}

/// A mathematical alphabet that letters can be set in.
#[derive(Debug, Clone, Copy)]
pub enum Alphabet {
    Bold,
    Blackboard,
    Upright,
    Italic,
    Sans,
}

pub open spec fn in_alphabet(a: Alphabet, c: char) -> char {
    match a {
        Alphabet::Bold => bold(c),
        Alphabet::Blackboard => blackboard(c),
        Alphabet::Upright => c,
        Alphabet::Italic => italic(c),
        Alphabet::Sans => sans(c),
    }
}

impl Alphabet {
    /// `c` in this alphabet.
    pub fn apply(self, c: char) -> (r: char)
        ensures
            r == in_alphabet(self, c),
    {
        match self {
            Alphabet::Bold => to_bold(c),
            Alphabet::Blackboard => to_bb(c),
            Alphabet::Upright => to_upright(c),
            Alphabet::Italic => to_italic(c),
            Alphabet::Sans => to_sans(c),
        }
    }
}

/// Every alphabet leaves alone a character that is not an ASCII letter or digit,
/// and the upright alphabet leaves every character alone.
pub proof fn lemma_alphabet_keeps_other_chars(a: Alphabet, c: char)
    ensures
        !('A' <= c <= 'Z' || 'a' <= c <= 'z' || '0' <= c <= '9') ==> in_alphabet(a, c) == c,
        in_alphabet(Alphabet::Upright, c) == c,
{
}

/// Every alphabet sends an ASCII letter or digit to a character outside ASCII.
pub proof fn lemma_alphabet_leaves_ascii(a: Alphabet, c: char)
    requires
        'A' <= c <= 'Z' || 'a' <= c <= 'z' || '0' <= c <= '9',
        !(a is Upright),
        a is Italic ==> !('0' <= c <= '9'),
    ensures
        in_alphabet(a, c) as u32 > 0x7F,
{
}

/// `\mathbf`, `\mathbb`, ...: the text of the argument set in an alphabet; any other
/// argument is left as it is.
#[derive(Debug)]
pub struct AlphabetGlyph(pub Alphabet);

impl Glyph for AlphabetGlyph {
    open spec fn arity(&self) -> nat {
        1
    }

    open spec fn accepts(&self, args: Seq<Node>, opts: Seq<Node>, ctx: RenderCtx) -> bool {
        args.len() >= 1
    }

    open spec fn rendered(&self, args: Seq<Node>, opts: Seq<Node>, ctx: RenderCtx) -> Node {
        let src = args[0];
        match src.kind {
            Shape::Text { content } => Node {
                width: src.width,
                height: src.height,
                baseline: src.baseline,
                style: src.style,
                kind: Shape::Text { content: content.map_values(|c: char| in_alphabet(self.0, c)) },
            },
            _ => src,
        }
    }

    fn required_args(&self) -> (r: usize) {
        1
    }

    fn render(&self, args: &[LayoutNode], opts: &[LayoutNode], ctx: &mut RenderCtx) -> (r: LayoutNode) {
        proof {
            lemma_models(args@);
        }
        let src = &args[0];
        match &src.kind {
            NodeKind::Text { content } => {
                let mut mapped: Vec<char> = Vec::new();
                let mut i: usize = 0;
                while i < content.len()
                    invariant
                        i <= content@.len(),
                        mapped@ =~= content@.take(i as int).map_values(|c: char| in_alphabet(self.0, c)),
                    decreases content@.len() - i,
                {
                    mapped.push(self.0.apply(content[i]));
                    i = i + 1;
                    assert(mapped@ =~= content@.take(i as int).map_values(|c: char| in_alphabet(self.0, c)));
                }
                assert(content@.take(i as int) =~= content@);
                LayoutNode {
                    width: src.width,
                    height: src.height,
                    baseline: src.baseline,
                    style: src.style,
                    kind: NodeKind::Text { content: mapped },
                }
            },
            _ => src.clone(),
        }
    }
}

/// `\abs{x}`: `x` between stretchy bars.
#[derive(Debug)]
pub struct AbsGlyph;

impl Glyph for AbsGlyph {
    open spec fn arity(&self) -> nat {
        1
    }

    open spec fn accepts(&self, args: Seq<Node>, opts: Seq<Node>, ctx: RenderCtx) -> bool {
        args.len() >= 1 && stretchy_fits(args[0])
    }

    open spec fn rendered(&self, args: Seq<Node>, opts: Seq<Node>, ctx: RenderCtx) -> Node {
        stretchy_delim_node(args[0], '|', '|', false)
    }

    fn required_args(&self) -> (r: usize) {
        1
    }

    fn render(&self, args: &[LayoutNode], opts: &[LayoutNode], ctx: &mut RenderCtx) -> (r: LayoutNode) {
        proof {
            lemma_models(args@);
        }
        LayoutNode::stretchy_delim(args[0].clone(), '|', '|', false)
    }
}

/// `\hat`, `\vec`, ...: the argument with a mark above it.
#[derive(Debug)]
pub struct AccentGlyph {
    pub mark: char,
    pub stretch: bool,
}

impl Glyph for AccentGlyph {
    open spec fn arity(&self) -> nat {
        1
    }

    open spec fn accepts(&self, args: Seq<Node>, opts: Seq<Node>, ctx: RenderCtx) -> bool {
        args.len() >= 1 && args[0].height + 1 <= usize::MAX && args[0].baseline + 1 <= usize::MAX
    }

    open spec fn rendered(&self, args: Seq<Node>, opts: Seq<Node>, ctx: RenderCtx) -> Node {
        accent_node(args[0], self.mark, self.stretch)
    }

    fn required_args(&self) -> (r: usize) {
        1
    }

    fn render(&self, args: &[LayoutNode], opts: &[LayoutNode], ctx: &mut RenderCtx) -> (r: LayoutNode) {
        proof {
            lemma_models(args@);
        }
        LayoutNode::accent(args[0].clone(), self.mark, self.stretch)
    }
}

/// `\textcolor{color}{x}`: takes a colour and an argument. Its rendering works on
/// the unrendered arguments; rendered ones give an empty node.
#[derive(Debug)]
pub struct TextColorGlyph;

impl Glyph for TextColorGlyph {
    open spec fn arity(&self) -> nat {
        2
    }

    open spec fn accepts(&self, args: Seq<Node>, opts: Seq<Node>, ctx: RenderCtx) -> bool {
        true
    }

    open spec fn rendered(&self, args: Seq<Node>, opts: Seq<Node>, ctx: RenderCtx) -> Node {
        plain(0, 0, 0, Shape::Empty)
    }

    fn required_args(&self) -> (r: usize) {
        2
    }

    fn render(&self, args: &[LayoutNode], opts: &[LayoutNode], ctx: &mut RenderCtx) -> (r: LayoutNode) {
        LayoutNode::empty()
    }
}

} // verus!
