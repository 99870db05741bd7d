use txm::parser::{parse, parse_tokens, Tok};

fn toks(input: &str, space: &[char], start: &[char], cont: &[char]) -> Vec<Tok> {
    input
        .chars()
        .map(|c| Tok {
            ch: c,
            space: space.contains(&c),
            ident_start: start.contains(&c),
            ident_continue: cont.contains(&c),
        })
        .collect()
}

fn tree(input: &str) -> String {
    format!("{:?}", parse(input).expect("the input parses"))
}

#[test]
fn numbers_and_identifiers_are_leaves() {
    assert_eq!(tree("42"), "VarNum(\"42\")");
    assert_eq!(tree("x"), "VarNum(\"x\")");
    assert_eq!(tree("alpha_1"), "VarNum(\"alpha_1\")");
    assert_eq!(tree("π"), "VarNum(\"π\")");
}

#[test]
fn whitespace_around_atoms_is_skipped() {
    assert_eq!(tree("  x  "), "VarNum(\"x\")");
    assert_eq!(tree("a + b"), tree("a+b"));
}

#[test]
fn products_bind_tighter_than_sums() {
    assert_eq!(tree("a+b*c"), "Add(VarNum(\"a\"), Mul(VarNum(\"b\"), VarNum(\"c\")))");
    assert_eq!(tree("a*b+c"), "Add(Mul(VarNum(\"a\"), VarNum(\"b\")), VarNum(\"c\"))");
}

#[test]
fn sums_and_products_group_to_the_left() {
    assert_eq!(tree("a-b+c"), "Add(Sub(VarNum(\"a\"), VarNum(\"b\")), VarNum(\"c\"))");
    assert_eq!(tree("a/b*c"), "Mul(Fraction(VarNum(\"a\"), VarNum(\"b\")), VarNum(\"c\"))");
}

#[test]
fn powers_group_to_the_right_and_bind_tightest() {
    assert_eq!(
        tree("a^b^c"),
        "Power(VarNum(\"a\"), Power(VarNum(\"b\"), VarNum(\"c\")))"
    );
    assert_eq!(tree("2*x^2"), "Mul(VarNum(\"2\"), Power(VarNum(\"x\"), VarNum(\"2\")))");
}

#[test]
fn equality_binds_loosest() {
    assert_eq!(tree("a=b+c"), "Eq(VarNum(\"a\"), Add(VarNum(\"b\"), VarNum(\"c\")))");
    assert_eq!(tree("a=b=c"), "Eq(Eq(VarNum(\"a\"), VarNum(\"b\")), VarNum(\"c\"))");
}

#[test]
fn delimiters_make_groups() {
    assert_eq!(tree("(a)"), "Parens(VarNum(\"a\"))");
    assert_eq!(tree("[a]"), "Brackets(VarNum(\"a\"))");
    assert_eq!(tree("{a}"), "Braces(VarNum(\"a\"))");
    assert_eq!(tree("(a+b)*c"), "Mul(Parens(Add(VarNum(\"a\"), VarNum(\"b\"))), VarNum(\"c\"))");
}

#[test]
fn function_calls() {
    assert_eq!(
        tree("f(x)"),
        "Fn { name: \"f\", power: None, derivatives: 0, args: VarNum(\"x\") }"
    );
    assert_eq!(
        tree("f''(x)"),
        "Fn { name: \"f\", power: None, derivatives: 2, args: VarNum(\"x\") }"
    );
    assert_eq!(
        tree("sin^2(x)"),
        "Fn { name: \"sin\", power: Some(VarNum(\"2\")), derivatives: 0, args: VarNum(\"x\") }"
    );
}

#[test]
fn identifier_without_call_is_a_variable() {
    assert_eq!(tree("e^x"), "Power(VarNum(\"e\"), VarNum(\"x\"))");
}

#[test]
fn malformed_inputs_do_not_parse() {
    assert!(parse("").is_none());
    assert!(parse("1 +").is_none());
    assert!(parse("+ 1").is_none());
    assert!(parse("(a").is_none());
    assert!(parse("a)").is_none());
    assert!(parse("a b").is_none());
    assert!(parse("(a]").is_none());
}

#[test]
fn classified_input_follows_its_classes() {
    let letters = ['a', 'b', '$'];
    let t = toks("a + $", &[' '], &letters, &letters);
    assert_eq!(
        format!("{:?}", parse_tokens(&t).unwrap()),
        "Add(VarNum(\"a\"), VarNum(\"$\"))"
    );
    let no_space = toks("a + b", &[], &letters, &letters);
    assert!(parse_tokens(&no_space).is_none());
    let t = toks("ab(b)", &[], &letters, &letters);
    assert_eq!(
        format!("{:?}", parse_tokens(&t).unwrap()),
        "Fn { name: \"ab\", power: None, derivatives: 0, args: VarNum(\"b\") }"
    );
}
