use vstd::prelude::*;
use crate::engine::push_char;
use crate::expr::{Expr, Term};
use chumsky::text::Char;

verus! {

// ---------------------------------------------------------------------------
// Character classes. The grammar takes them from chumsky's text parsers.
// ---------------------------------------------------------------------------

/// Whether chumsky counts `c` as whitespace (`Char::is_whitespace` for `char`).
pub uninterp spec fn chumsky_whitespace(c: char) -> bool;

/// Whether chumsky lets an identifier start with `c` (`Char::is_ident_start` for `char`).
pub uninterp spec fn chumsky_ident_start(c: char) -> bool;

/// Whether chumsky lets an identifier go on with `c` (`Char::is_ident_continue` for `char`).
pub uninterp spec fn chumsky_ident_continue(c: char) -> bool;

/// Calls chumsky's `<char as Char>::is_whitespace`, which is std's
/// `char::is_whitespace` (the Unicode White_Space property) without the
/// bidirectional formatting marks. The contract names the result and states the
/// ASCII part of the property: space, and tab through carriage return; the rest of
/// the Unicode table is not stated.
#[verifier::external_body]
fn is_whitespace(c: char) -> (r: bool)
    ensures
        r == chumsky_whitespace(c),
        c < '\u{80}' ==> (r <==> (c == ' ' || '\t' <= c <= '\r')),
{
    Char::is_whitespace(&c)
}

/// Calls chumsky's `<char as Char>::is_ident_start`: unicode-ident's XID_Start, or
/// `_`. The contract names the result and states the ASCII part: letters and `_`;
/// the rest of the Unicode table is not stated.
#[verifier::external_body]
fn is_ident_start(c: char) -> (r: bool)
    ensures
        r == chumsky_ident_start(c),
        c < '\u{80}' ==> (r <==> ('a' <= c <= 'z' || 'A' <= c <= 'Z' || c == '_')),
{
    Char::is_ident_start(&c)
}

/// Calls chumsky's `<char as Char>::is_ident_continue`: unicode-ident's
/// XID_Continue. The contract names the result and states the ASCII part: letters,
/// digits and `_`; the rest of the Unicode table is not stated.
#[verifier::external_body]
fn is_ident_continue(c: char) -> (r: bool)
    ensures
        r == chumsky_ident_continue(c),
        c < '\u{80}' ==> (r <==> ('a' <= c <= 'z' || 'A' <= c <= 'Z' || '0' <= c <= '9' || c == '_')),
{
    Char::is_ident_continue(&c)
}

/// A character of the input with the classes that the grammar asks of it.
#[derive(Debug, Clone, Copy)]
pub struct Tok {
    pub ch: char,
    /// Whether it is whitespace.
    pub space: bool,
    /// Whether an identifier can start with it.
    pub ident_start: bool,
    /// Whether an identifier can go on with it.
    pub ident_continue: bool,
}

/// `c` with its classes as chumsky's text parsers give them.
pub open spec fn tok_of(c: char) -> Tok {
    Tok {
        ch: c,
        space: chumsky_whitespace(c),
        ident_start: chumsky_ident_start(c),
        ident_continue: chumsky_ident_continue(c),
    }
}

/// An ASCII character with its classes: space and tab through carriage return are
/// whitespace; letters and `_` start an identifier; letters, digits and `_` go on
/// with one.
pub open spec fn ascii_tok(c: char) -> Tok {
    Tok {
        ch: c,
        space: c == ' ' || '\t' <= c <= '\r',
        ident_start: 'a' <= c <= 'z' || 'A' <= c <= 'Z' || c == '_',
        ident_continue: 'a' <= c <= 'z' || 'A' <= c <= 'Z' || '0' <= c <= '9' || c == '_',
    }
}

/// Every ASCII character of `s` has the classes that [`ascii_tok`] gives.
pub open spec fn ascii_classes(s: Seq<char>) -> bool {
    forall|i: int| 0 <= i < s.len() && s[i] < '\u{80}' ==> #[trigger] tok_of(s[i]) == ascii_tok(s[i])
}

/// The characters of `s`, each with its classes.
pub open spec fn classify(s: Seq<char>) -> Seq<Tok> {
    s.map_values(|c: char| tok_of(c))
}

/// The characters of a run of tokens.
pub open spec fn chars(s: Seq<Tok>) -> Seq<char> {
    s.map_values(|t: Tok| t.ch)
}

/// The classes of characters that the parser skips over in runs.
#[derive(Clone, Copy)]
pub enum Class {
    Space,
    Digit,
    IdentContinue,
    Prime,
}

pub open spec fn in_class(cls: Class, t: Tok) -> bool {
    match cls {
        Class::Space => t.space,
        Class::Digit => '0' <= t.ch <= '9',
        Class::IdentContinue => t.ident_continue,
        Class::Prime => t.ch == '\'',
    }
}

/// The end of the longest run of characters of class `cls` in `s` from `i` on.
pub open spec fn scan(s: Seq<Tok>, i: nat, cls: Class) -> nat
    decreases s.len() - i,
{
    if i < s.len() && in_class(cls, s[i as int]) {
        scan(s, i + 1, cls)
    } else {
        i
    }
}

pub proof fn lemma_scan(s: Seq<Tok>, i: nat, cls: Class)
    ensures
        i <= scan(s, i, cls),
        i <= s.len() ==> scan(s, i, cls) <= s.len(),
        forall|k: int| i <= k < scan(s, i, cls) ==> in_class(cls, #[trigger] s[k]),
        scan(s, i, cls) < s.len() ==> !in_class(cls, s[scan(s, i, cls) as int]),
    decreases s.len() - i,
{
    if i < s.len() && in_class(cls, s[i as int]) {
        lemma_scan(s, i + 1, cls);
    }
}

/// The end of an identifier that starts at `i`, if one does.
pub open spec fn ident_end(s: Seq<Tok>, i: nat) -> Option<nat> {
    if i < s.len() && s[i as int].ident_start {
        Some(scan(s, i + 1, Class::IdentContinue))
    } else {
        None
    }
}

// ---------------------------------------------------------------------------
// The grammar, as a function from a position to what is parsed there and the
// position after it. Alternatives are tried in order; the first that succeeds
// is taken (ordered choice, as chumsky's `or`).
//
//   expr  := atom (op expr)*            operators by binding power (Pratt)
//   atom  := ws* (num | call | ident | "(" expr ")" | "{" expr "}" | "[" expr "]") ws*
//   num   := digit+
//   call  := ident "'"* ("^" expr)? "(" expr ")"
//
// A parse never moves backwards; the definitions say so where their termination
// needs it.
// ---------------------------------------------------------------------------

pub open spec fn min_power() -> int {
    i32::MIN as int
}

pub open spec fn is_op(c: char) -> bool {
    c == '=' || c == '+' || c == '-' || c == '*' || c == '/' || c == '^'
}

/// The power with which an operator binds to its left operand.
pub open spec fn left_power(c: char) -> int {
    if c == '=' {
        2
    } else if c == '+' || c == '-' {
        4
    } else if c == '*' || c == '/' {
        6
    } else {
        9
    }
}

/// The least power that an operator's right operand is parsed with: one more than
/// its left power for the left-associative operators, one less for `^`.
pub open spec fn right_power(c: char) -> int {
    if c == '=' {
        3
    } else if c == '+' || c == '-' {
        5
    } else if c == '*' || c == '/' {
        7
    } else {
        8
    }
}

/// How the operators bind: `=` loosest, then `+` and `-`, then `*` and `/`, then `^`
/// tightest. The right operand of an operator takes in every operator that binds
/// tighter than it, so `a - b / c` is `a - (b / c)`. `=`, `+`, `-`, `*` and `/` group to the left: the right operand of one is
/// parsed with a power above the operator's own, so it cannot take in another
/// operator of the same rank, which [`p_loop`] folds onto the left instead. `^` groups
/// to the right: its right operand is parsed with a power below its own, so it takes
/// in further `^`.
pub proof fn lemma_operator_binding()
    ensures
        left_power('=') < left_power('+'),
        left_power('+') == left_power('-'),
        left_power('-') < left_power('*'),
        left_power('*') == left_power('/'),
        left_power('/') < left_power('^'),
        forall|c: char| #![trigger right_power(c)] is_op(c) && c != '^' ==> right_power(c) > left_power(c),
        forall|c: char| #![trigger right_power(c)] is_op(c) && c != '^' ==> forall|d: char|
            #![trigger left_power(d)]
            is_op(d) && left_power(d) == left_power(c) ==> left_power(d) < right_power(c),
        right_power('^') < left_power('^'),
        forall|c: char, d: char|
            #![trigger right_power(c), left_power(d)]
            is_op(c) && is_op(d) && left_power(d) > left_power(c) ==> left_power(d) >= right_power(c),
{
}

/// A token that the grammar reads as a one-character identifier.
pub open spec fn name_tok(t: Tok) -> bool {
    t.ident_start && !t.space && !('0' <= t.ch <= '9')
}

/// A token that is an operator other than `^`.
pub open spec fn infix_tok(t: Tok) -> bool {
    is_op(t.ch) && t.ch != '^' && !t.space && !t.ident_continue
}

proof fn lemma_name_atom(s: Seq<Tok>, i: nat)
    requires
        i < s.len(),
        name_tok(s[i as int]),
        i + 1 == s.len() || infix_tok(s[i + 1 as int]),
    ensures
        p_atom(s, i) == Some((Term::VarNum(seq![s[i as int].ch]), i + 1)),
{
    assert(scan(s, i, Class::Space) == i);
    assert(scan(s, i + 1, Class::IdentContinue) == i + 1);
    assert(ident_end(s, i) == Some(i + 1));
    assert(scan(s, i + 1, Class::Prime) == i + 1);
    assert(p_call(s, i) is None);
    assert(chars(s.subrange(i as int, i + 1 as int)) =~= seq![s[i as int].ch]);
    assert(p_alt(s, i) == Some((Term::VarNum(seq![s[i as int].ch]), i + 1)));
    assert(scan(s, i + 1, Class::Space) == i + 1);
}

/// Three names joined by two operators other than `^` group by precedence: when the
/// second operator binds tighter than the first, it takes the last two names
/// (`a - b / c` is `a - (b / c)`); otherwise the first operator takes the first two
/// (`a - b + c` is `(a - b) + c`, `a / b - c` is `(a / b) - c`).
pub proof fn lemma_three_operands(s: Seq<Tok>)
    requires
        s.len() == 5,
        name_tok(s[0]),
        name_tok(s[2]),
        name_tok(s[4]),
        infix_tok(s[1]),
        infix_tok(s[3]),
    ensures
        ({
            let x = Term::VarNum(seq![s[0].ch]);
            let y = Term::VarNum(seq![s[2].ch]);
            let z = Term::VarNum(seq![s[4].ch]);
            let c = s[1].ch;
            let d = s[3].ch;
            spec_parse_tokens(s) == Some(
                if left_power(d) > left_power(c) {
                    fold(c, x, fold(d, y, z))
                } else {
                    fold(d, fold(c, x, y), z)
                },
            )
        }),
{
    let x = Term::VarNum(seq![s[0].ch]);
    let y = Term::VarNum(seq![s[2].ch]);
    let z = Term::VarNum(seq![s[4].ch]);
    let c = s[1].ch;
    let d = s[3].ch;
    lemma_name_atom(s, 0);
    lemma_name_atom(s, 2);
    lemma_name_atom(s, 4);
    assert(p_loop(s, z, 5, right_power(d)) == (z, 5nat));
    assert(p_expr(s, 4, right_power(d)) == Some((z, 5nat)));
    if left_power(d) > left_power(c) {
        assert(left_power(d) >= right_power(c));
        assert(p_loop(s, fold(d, y, z), 5, right_power(c)) == (fold(d, y, z), 5nat));
        assert(p_loop(s, y, 3, right_power(c)) == (fold(d, y, z), 5nat));
        assert(p_expr(s, 2, right_power(c)) == Some((fold(d, y, z), 5nat)));
        assert(p_loop(s, fold(c, x, fold(d, y, z)), 5, min_power()) == (fold(c, x, fold(d, y, z)), 5nat));
        assert(p_loop(s, x, 1, min_power()) == (fold(c, x, fold(d, y, z)), 5nat));
    } else {
        assert(left_power(d) < right_power(c));
        assert(p_loop(s, y, 3, right_power(c)) == (y, 3nat));
        assert(p_expr(s, 2, right_power(c)) == Some((y, 3nat)));
        assert(p_loop(s, fold(d, fold(c, x, y), z), 5, min_power()) == (fold(d, fold(c, x, y), z), 5nat));
        assert(p_loop(s, fold(c, x, y), 3, min_power()) == (fold(d, fold(c, x, y), z), 5nat));
        assert(p_loop(s, x, 1, min_power()) == (fold(d, fold(c, x, y), z), 5nat));
    }
}

/// The term that the operator `c` makes of its two operands.
pub open spec fn fold(c: char, l: Term, r: Term) -> Term {
    if c == '=' {
        Term::Eq(Box::new(l), Box::new(r))
    } else if c == '+' {
        Term::Add(Box::new(l), Box::new(r))
    } else if c == '-' {
        Term::Sub(Box::new(l), Box::new(r))
    } else if c == '*' {
        Term::Mul(Box::new(l), Box::new(r))
    } else if c == '/' {
        Term::Fraction(Box::new(l), Box::new(r))
    } else {
        Term::Power(Box::new(l), Box::new(r))
    }
}

/// A function call at `i`: a name, primes, an optional `^` exponent, and the
/// argument in parentheses.
pub open spec fn p_call(s: Seq<Tok>, i: nat) -> Option<(Term, nat)>
    decreases s.len() - i, 0int,
{
    match ident_end(s, i) {
        None => None,
        Some(e) => {
            proof {
                lemma_scan(s, i + 1, Class::IdentContinue);
                lemma_scan(s, e, Class::Prime);
            }
            let pe = scan(s, e, Class::Prime);
            let power = if pe < s.len() && s[pe as int].ch == '^' {
                p_expr(s, pe + 1, min_power())
            } else {
                None
            };
            let q = match power {
                Some((_, q)) => q,
                None => pe,
            };
            if i < q < s.len() && s[q as int].ch == '(' {
                match p_expr(s, q + 1, min_power()) {
                    Some((a, r)) => if r < s.len() && s[r as int].ch == ')' {
                        Some(
                            (
                                Term::Fn {
                                    name: chars(s.subrange(i as int, e as int)),
                                    power: match power {
                                        Some((p, _)) => Some(Box::new(p)),
                                        None => None,
                                    },
                                    derivatives: (pe - e) as nat,
                                    args: Box::new(a),
                                },
                                r + 1,
                            ),
                        )
                    } else {
                        None
                    },
                    None => None,
                }
            } else {
                None
            }
        },
    }
}

/// The closing delimiter for an opening one.
pub open spec fn closer(c: char) -> char {
    if c == '(' {
        ')'
    } else if c == '{' {
        '}'
    } else {
        ']'
    }
}

pub open spec fn group(c: char, t: Term) -> Term {
    if c == '(' {
        Term::Parens(Box::new(t))
    } else if c == '{' {
        Term::Braces(Box::new(t))
    } else {
        Term::Brackets(Box::new(t))
    }
}

/// The alternatives of an atom, at `i`, without the surrounding whitespace.
pub open spec fn p_alt(s: Seq<Tok>, i: nat) -> Option<(Term, nat)>
    decreases s.len() - i, 1int,
{
    if i < s.len() && '0' <= s[i as int].ch <= '9' {
        let e = scan(s, i, Class::Digit);
        Some((Term::VarNum(chars(s.subrange(i as int, e as int))), e))
    } else {
        match p_call(s, i) {
            Some(r) => Some(r),
            None => match ident_end(s, i) {
                Some(e) => Some((Term::VarNum(chars(s.subrange(i as int, e as int))), e)),
                None => if i < s.len() && (s[i as int].ch == '(' || s[i as int].ch == '{'
                    || s[i as int].ch == '[') {
                    match p_expr(s, i + 1, min_power()) {
                        Some((t, k)) => if k < s.len() && s[k as int].ch == closer(s[i as int].ch) {
                            Some((group(s[i as int].ch, t), k + 1))
                        } else {
                            None
                        },
                        None => None,
                    }
                } else {
                    None
                },
            },
        }
    }
}

/// An atom at `i`, with the whitespace around it.
pub open spec fn p_atom(s: Seq<Tok>, i: nat) -> Option<(Term, nat)>
    decreases s.len() - i, 2int,
{
    proof {
        lemma_scan(s, i, Class::Space);
    }
    let i0 = scan(s, i, Class::Space);
    match p_alt(s, i0) {
        Some((t, j)) => Some((t, scan(s, j, Class::Space))),
        None => None,
    }
}

/// An expression at `i` whose operators bind with at least power `min`.
pub open spec fn p_expr(s: Seq<Tok>, i: nat, min: int) -> Option<(Term, nat)>
    decreases s.len() - i, 3int,
{
    match p_atom(s, i) {
        Some((lhs, j)) => if i < j <= s.len() {
            Some(p_loop(s, lhs, j, min))
        } else {
            None
        },
        None => None,
    }
}

/// Extends `lhs`, which ends at `j`, with the operators that follow while they bind
/// with at least power `min`; stops before an operator whose right operand fails.
pub open spec fn p_loop(s: Seq<Tok>, lhs: Term, j: nat, min: int) -> (Term, nat)
    decreases s.len() - j, 4int,
{
    if j < s.len() && is_op(s[j as int].ch) && left_power(s[j as int].ch) >= min {
        match p_expr(s, j + 1, right_power(s[j as int].ch)) {
            Some((rhs, k)) => if j < k <= s.len() {
                p_loop(s, fold(s[j as int].ch, lhs, rhs), k, min)
            } else {
                (lhs, j)
            },
            None => (lhs, j),
        }
    } else {
        (lhs, j)
    }
}

/// The expression that the whole of the classified input `s` spells, if it spells one.
pub open spec fn spec_parse_tokens(s: Seq<Tok>) -> Option<Term> {
    match p_expr(s, 0, min_power()) {
        Some((t, j)) => if j == s.len() {
            Some(t)
        } else {
            None
        },
        None => None,
    }
}


/// The expression that the whole of `s` spells, if it spells one.
pub open spec fn spec_parse(s: Seq<char>) -> Option<Term> {
    spec_parse_tokens(classify(s))
}

// ---------------------------------------------------------------------------
// The parser.
// ---------------------------------------------------------------------------

/// `r` is the parse `t`: the same expression, ending at the same position.
pub open spec fn same(r: Option<(Expr, usize)>, t: Option<(Term, nat)>) -> bool {
    match r {
        Some((e, j)) => t == Some((e@, j as nat)),
        None => t is None,
    }
}

fn class_has(cls: Class, t: Tok) -> (r: bool)
    ensures
        r == in_class(cls, t),
{
    match cls {
        Class::Space => t.space,
        Class::Digit => '0' <= t.ch && t.ch <= '9',
        Class::IdentContinue => t.ident_continue,
        Class::Prime => t.ch == '\'',
    }
}

fn scan_run(s: &Vec<Tok>, i: usize, cls: Class) -> (r: usize)
    requires
        i <= s@.len(),
    ensures
        r == scan(s@, i as nat, cls),
        i <= r <= s@.len(),
{
    proof {
        lemma_scan(s@, i as nat, cls);
    }
    let mut j = i;
    loop
        invariant
            i <= j <= s@.len(),
            scan(s@, j as nat, cls) == scan(s@, i as nat, cls),
        ensures
            j == scan(s@, i as nat, cls),
        decreases s@.len() - j,
    {
        if j < s.len() && class_has(cls, s[j]) {
            j = j + 1;
        } else {
            break;
        }
    }
    j
}

fn is_operator(c: char) -> (r: bool)
    ensures
        r == is_op(c),
{
    c == '=' || c == '+' || c == '-' || c == '*' || c == '/' || c == '^'
}

fn powers(c: char) -> (r: (i32, i32))
    ensures
        r.0 == left_power(c),
        r.1 == right_power(c),
{
    if c == '=' {
        (2, 3)
    } else if c == '+' || c == '-' {
        (4, 5)
    } else if c == '*' || c == '/' {
        (6, 7)
    } else {
        (9, 8)
    }
}

fn fold_op(c: char, l: Expr, r: Expr) -> (res: Expr)
    ensures
        res@ == fold(c, l@, r@),
{
    if c == '=' {
        Expr::Eq(Box::new(l), Box::new(r))
    } else if c == '+' {
        Expr::Add(Box::new(l), Box::new(r))
    } else if c == '-' {
        Expr::Sub(Box::new(l), Box::new(r))
    } else if c == '*' {
        Expr::Mul(Box::new(l), Box::new(r))
    } else if c == '/' {
        Expr::Fraction(Box::new(l), Box::new(r))
    } else {
        Expr::Power(Box::new(l), Box::new(r))
    }
}

fn group_of(c: char, t: Expr) -> (res: Expr)
    ensures
        res@ == group(c, t@),
{
    if c == '(' {
        Expr::Parens(Box::new(t))
    } else if c == '{' {
        Expr::Braces(Box::new(t))
    } else {
        Expr::Brackets(Box::new(t))
    }
}

fn closer_of(c: char) -> (r: char)
    ensures
        r == closer(c),
{
    if c == '(' {
        ')'
    } else if c == '{' {
        '}'
    } else {
        ']'
    }
}

/// The characters of the tokens `i..e` of `s` as a string.
fn name_of(s: &Vec<Tok>, i: usize, e: usize) -> (r: String)
    requires
        i <= e <= s@.len(),
    ensures
        r@ == chars(s@.subrange(i as int, e as int)),
{
    let mut r = String::new();
    let mut k: usize = i;
    while k < e
        invariant
            i <= k <= e <= s@.len(),
            r@ == chars(s@.subrange(i as int, k as int)),
        decreases e - k,
    {
        push_char(&mut r, s[k].ch);
        k = k + 1;
        assert(r@ =~= chars(s@.subrange(i as int, k as int)));
    }
    r
}

fn parse_call(s: &Vec<Tok>, i: usize) -> (r: Option<(Expr, usize)>)
    requires
        i <= s@.len(),
    ensures
        same(r, p_call(s@, i as nat)),
        r matches Some((_, j)) ==> i < j <= s@.len(),
    decreases s@.len() - i, 0int,
{
    if !(i < s.len() && s[i].ident_start) {
        return None;
    }
    let e = scan_run(s, i + 1, Class::IdentContinue);
    let pe = scan_run(s, e, Class::Prime);
    let power = if pe < s.len() && s[pe].ch == '^' {
        parse_expr(s, pe + 1, i32::MIN)
    } else {
        None
    };
    let q = match &power {
        Some((_, q)) => *q,
        None => pe,
    };
    if !(q < s.len() && s[q].ch == '(') {
        return None;
    }
    match parse_expr(s, q + 1, i32::MIN) {
        Some((a, r)) => if r < s.len() && s[r].ch == ')' {
            let name = name_of(s, i, e);
            let pw = match power {
                Some((p, _)) => Some(Box::new(p)),
                None => None,
            };
            Some((Expr::Fn { name, power: pw, derivatives: pe - e, args: Box::new(a) }, r + 1))
        } else {
            None
        },
        None => None,
    }
}

fn parse_alt(s: &Vec<Tok>, i: usize) -> (r: Option<(Expr, usize)>)
    requires
        i <= s@.len(),
    ensures
        same(r, p_alt(s@, i as nat)),
        r matches Some((_, j)) ==> i < j <= s@.len(),
    decreases s@.len() - i, 1int,
{
    if i < s.len() && '0' <= s[i].ch && s[i].ch <= '9' {
        let e = scan_run(s, i, Class::Digit);
        proof {
            lemma_scan(s@, i as nat + 1, Class::Digit);
        }
        return Some((Expr::VarNum(name_of(s, i, e)), e));
    }
    match parse_call(s, i) {
        Some(r) => Some(r),
        None => {
            if i < s.len() && s[i].ident_start {
                let e = scan_run(s, i + 1, Class::IdentContinue);
                Some((Expr::VarNum(name_of(s, i, e)), e))
            } else if i < s.len() && (s[i].ch == '(' || s[i].ch == '{' || s[i].ch == '[') {
                let open = s[i].ch;
                match parse_expr(s, i + 1, i32::MIN) {
                    Some((t, k)) => if k < s.len() && s[k].ch == closer_of(open) {
                        Some((group_of(open, t), k + 1))
                    } else {
                        None
                    },
                    None => None,
                }
            } else {
                None
            }
        },
    }
}

fn parse_atom(s: &Vec<Tok>, i: usize) -> (r: Option<(Expr, usize)>)
    requires
        i <= s@.len(),
    ensures
        same(r, p_atom(s@, i as nat)),
        r matches Some((_, j)) ==> i < j <= s@.len(),
    decreases s@.len() - i, 2int,
{
    let i0 = scan_run(s, i, Class::Space);
    match parse_alt(s, i0) {
        Some((t, j)) => {
            let j1 = scan_run(s, j, Class::Space);
            Some((t, j1))
        },
        None => None,
    }
}

fn parse_expr(s: &Vec<Tok>, i: usize, min: i32) -> (r: Option<(Expr, usize)>)
    requires
        i <= s@.len(),
    ensures
        same(r, p_expr(s@, i as nat, min as int)),
        r matches Some((_, j)) ==> i < j <= s@.len(),
    decreases s@.len() - i, 3int,
{
    let (mut lhs, mut j) = match parse_atom(s, i) {
        Some(x) => x,
        None => return None,
    };
    let ghost target = p_loop(s@, lhs@, j as nat, min as int);
    loop
        invariant_except_break
            i < j <= s@.len(),
            p_loop(s@, lhs@, j as nat, min as int) == target,
        ensures
            i < j <= s@.len(),
            target == (lhs@, j as nat),
        decreases s@.len() - j,
    {
        if j < s.len() && is_operator(s[j].ch) {
            let c = s[j].ch;
            let (lp, rp) = powers(c);
            if lp >= min {
                match parse_expr(s, j + 1, rp) {
                    Some((rhs, k)) => {
                        lhs = fold_op(c, lhs, rhs);
                        j = k;
                    },
                    None => break,
                }
            } else {
                break;
            }
        } else {
            break;
        }
    }
    Some((lhs, j))
}

/// The characters of `input`, each with its classes.
fn classify_input(input: &str) -> (r: Vec<Tok>)
    ensures
        r@ == classify(input@),
        ascii_classes(input@),
{
    let n = input.unicode_len();
    let mut s: Vec<Tok> = Vec::new();
    let mut k: usize = 0;
    while k < n
        invariant
            n == input@.len(),
            k <= n,
            s@ == classify(input@.take(k as int)),
            forall|i: int|
                0 <= i < k && input@[i] < '\u{80}' ==> #[trigger] tok_of(input@[i]) == ascii_tok(input@[i]),
        decreases n - k,
    {
        let c = input.get_char(k);
        let t = Tok {
            ch: c,
            space: is_whitespace(c),
            ident_start: is_ident_start(c),
            ident_continue: is_ident_continue(c),
        };
        s.push(t);
        proof {
            if '\u{80}' > c {
                assert(tok_of(c) == ascii_tok(c));
            }
        }
        k = k + 1;
        assert(s@ =~= classify(input@.take(k as int)));
    }
    assert(input@.take(k as int) =~= input@);
    s
}

/// Parses a classified input: the whole of it must be one expression.
pub fn parse_tokens(s: &Vec<Tok>) -> (r: Option<Expr>)
    ensures
        match r {
            Some(e) => spec_parse_tokens(s@) == Some(e@),
            None => spec_parse_tokens(s@) is None,
        },
{
    match parse_expr(s, 0, i32::MIN) {
        Some((e, j)) => if j == s.len() {
            Some(e)
        } else {
            None
        },
        None => None,
    }
}

/// Parses the plain-text math syntax: the whole of `input` must be one expression.
pub fn parse(input: &str) -> (r: Option<Expr>)
    ensures
        match r {
            Some(e) => spec_parse(input@) == Some(e@),
            None => spec_parse(input@) is None,
        },
        ascii_classes(input@),
{
    let s = classify_input(input);
    parse_tokens(&s)
}

} // verus!
