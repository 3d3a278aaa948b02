use proc_macro2::{Delimiter, Spacing, TokenStream, TokenTree};
use reql_macros::ast::{Args, Elems, Expr, Item, KvPair, List, Object, Shape};
use reql_macros::error::{Fault, Span, SyntaxError};
use reql_macros::grammar::Mode;
use reql_macros::parser::{
    assemble, classify, find_comma, find_end, is_complete, kind_of_range, parse, parse_list,
    parse_pairs, split_items,
};
use reql_macros::printer::to_tokens;
use reql_macros::text::ExprKind;
use reql_macros::token::{Delim, Token};

fn convert(stream: TokenStream) -> Vec<Token> {
    let mut out = Vec::new();
    for tree in stream {
        match tree {
            TokenTree::Ident(ident) => out.push(Token::Ident(ident.to_string())),
            TokenTree::Literal(literal) => out.push(Token::Literal(literal.to_string())),
            TokenTree::Punct(punct) => {
                out.push(Token::Punct(punct.as_char(), punct.spacing() == Spacing::Joint))
            }
            TokenTree::Group(group) => match group.delimiter() {
                Delimiter::Parenthesis => out.push(Token::Group(Delim::Paren, convert(group.stream()))),
                Delimiter::Bracket => out.push(Token::Group(Delim::Bracket, convert(group.stream()))),
                Delimiter::Brace => out.push(Token::Group(Delim::Brace, convert(group.stream()))),
                Delimiter::None => out.extend(convert(group.stream())),
            },
        }
    }
    out
}

fn lex(text: &str) -> Vec<Token> {
    convert(text.parse().unwrap())
}

fn expr(text: &str) -> Expr {
    Expr { tokens: lex(text) }
}

fn elems(texts: &[&str]) -> Option<Elems> {
    Some(Elems { items: texts.iter().map(|t| expr(t)).collect() })
}

fn object(pairs: &[(&str, &str)]) -> Object {
    Object {
        pairs: pairs
            .iter()
            .map(|(key, value)| KvPair { key: key.to_string(), value: expr(value) })
            .collect(),
    }
}

fn fault(fault: Fault, start: usize, end: usize) -> SyntaxError {
    SyntaxError { fault, span: Span { start, end } }
}

fn plain(text: &str, start: usize, end: usize) -> Item {
    Item { shape: Shape::Plain(expr(text)), span: Span { start, end } }
}

fn closure(text: &str, start: usize, end: usize) -> Item {
    Item { shape: Shape::Closure(expr(text)), span: Span { start, end } }
}

fn options(pairs: &[(&str, &str)], start: usize, end: usize) -> Item {
    Item { shape: Shape::Options(object(pairs)), span: Span { start, end } }
}

#[test]
fn no_tokens_parse_to_no_arguments() {
    assert_eq!(parse(&Vec::new()), Ok(Args { elems: None, opts: None, closure: None }));
}

#[test]
fn positional_expressions_keep_their_order() {
    assert_eq!(
        parse(&lex("c, a + 1, b.f(2, 3)")),
        Ok(Args { elems: elems(&["c", "a + 1", "b.f(2, 3)"]), opts: None, closure: None })
    );
}

#[test]
fn all_three_parts_are_parsed() {
    assert_eq!(
        parse(&lex("a, \"b\", {x: 1, y: z(2)}, |v| v + 1")),
        Ok(Args {
            elems: elems(&["a", "\"b\""]),
            opts: Some(object(&[("x", "1"), ("y", "z(2)")])),
            closure: Some(expr("|v| v + 1")),
        })
    );
}

#[test]
fn options_alone_and_closure_alone() {
    assert_eq!(
        parse(&lex("{durability: \"soft\"}")),
        Ok(Args { elems: None, opts: Some(object(&[("durability", "\"soft\"")])), closure: None })
    );
    assert_eq!(
        parse(&lex("move |doc| doc")),
        Ok(Args { elems: None, opts: None, closure: Some(expr("move |doc| doc")) })
    );
}

#[test]
fn commas_between_closure_parameters_do_not_end_the_closure() {
    assert_eq!(
        parse(&lex("seq, |acc, row| acc.add(row)")),
        Ok(Args { elems: elems(&["seq"]), opts: None, closure: Some(expr("|acc, row| acc.add(row)")) })
    );
}

#[test]
fn commas_between_generic_arguments_do_not_end_the_expression() {
    assert_eq!(
        parse(&lex("HashMap::<u8, u8>::new(), x as Pair<A, B>")),
        Ok(Args {
            elems: elems(&["HashMap::<u8, u8>::new()", "x as Pair<A, B>"]),
            opts: None,
            closure: None,
        })
    );
}

#[test]
fn comparisons_are_split_at_the_first_comma() {
    assert_eq!(
        parse(&lex("a < b, c > d")),
        Ok(Args { elems: elems(&["a < b", "c > d"]), opts: None, closure: None })
    );
}

#[test]
fn empty_options_object_is_valid() {
    assert_eq!(
        parse(&lex("a, {}")),
        Ok(Args { elems: elems(&["a"]), opts: Some(object(&[])), closure: None })
    );
}

#[test]
fn option_keys_may_repeat_and_values_may_be_closures() {
    assert_eq!(
        parse(&lex("{x: 1, x: |a, b| a}")),
        Ok(Args { elems: None, opts: Some(object(&[("x", "1"), ("x", "|a, b| a")])), closure: None })
    );
}

#[test]
fn a_parenthesised_closure_is_positional() {
    assert_eq!(
        parse(&lex("(|v| v), b")),
        Ok(Args { elems: elems(&["(|v| v)", "b"]), opts: None, closure: None })
    );
}

#[test]
fn a_closure_that_is_not_last_is_rejected() {
    assert_eq!(parse(&lex("|v| v, a")), Err(fault(Fault::ClosureNotLast, 0, 4)));
    assert_eq!(parse(&lex("|v| v, |w| w")), Err(fault(Fault::ClosureNotLast, 0, 4)));
    assert_eq!(parse(&lex("a, |v| v, {x: 1}")), Err(fault(Fault::ClosureNotLast, 2, 6)));
}

#[test]
fn options_that_are_not_last_are_rejected() {
    assert_eq!(parse(&lex("{x: 1}, a")), Err(fault(Fault::OptionsNotLast, 0, 1)));
    assert_eq!(parse(&lex("a, {x: 1}, {y: 2}")), Err(fault(Fault::OptionsNotLast, 2, 3)));
    assert_eq!(parse(&lex("{x: 1}, |v| v, |w| w")), Err(fault(Fault::OptionsNotLast, 0, 1)));
    assert_eq!(parse(&lex("{x: 1}, a, |v| v")), Err(fault(Fault::OptionsNotLast, 0, 1)));
}

#[test]
fn braces_without_named_options_are_rejected() {
    assert_eq!(parse(&lex("a, {x 1}")), Err(fault(Fault::Options, 2, 3)));
    assert_eq!(parse(&lex("{x: 1,}")), Err(fault(Fault::Options, 0, 1)));
    assert_eq!(parse(&lex("{1: x}")), Err(fault(Fault::Options, 0, 1)));
    assert_eq!(parse(&lex("{x: }")), Err(fault(Fault::Options, 0, 1)));
    assert_eq!(parse(&lex("{ f() }")), Err(fault(Fault::Options, 0, 1)));
    assert_eq!(parse(&lex("{x::y}")), Err(fault(Fault::Options, 0, 1)));
}

#[test]
fn the_first_fault_in_reading_order_is_reported() {
    assert_eq!(parse(&lex("{x 1}, +")), Err(fault(Fault::Options, 0, 1)));
    assert_eq!(parse(&lex("+, {x 1}")), Err(fault(Fault::Expression, 0, 1)));
}

#[test]
fn a_fault_in_reading_comes_before_an_item_out_of_place() {
    assert_eq!(parse(&lex("|v| v, {x 1}")), Err(fault(Fault::Options, 5, 6)));
    assert_eq!(parse(&lex("{x: 1}, a, +")), Err(fault(Fault::Expression, 4, 5)));
}

#[test]
fn tokens_that_are_no_expression_are_rejected() {
    assert_eq!(parse(&lex("a,")), Err(fault(Fault::Expression, 2, 2)));
    assert_eq!(parse(&lex("a,,b")), Err(fault(Fault::Expression, 2, 2)));
    assert_eq!(parse(&lex(",")), Err(fault(Fault::Expression, 0, 0)));
    assert_eq!(parse(&lex("a, b +, c")), Err(fault(Fault::Expression, 2, 4)));
    assert_eq!(parse(&lex("a b")), Err(fault(Fault::Expression, 0, 2)));
    assert_eq!(parse(&lex("{x: 1},")), Err(fault(Fault::Expression, 2, 2)));
    assert_eq!(parse(&lex("|a, b")), Err(fault(Fault::Expression, 0, 2)));
}

#[test]
fn every_fault_has_its_message() {
    assert_eq!(fault(Fault::Expression, 0, 0).message(), "expected an expression");
    assert_eq!(
        fault(Fault::Options, 0, 0).message(),
        "expected `key: value` pairs separated by commas"
    );
    assert_eq!(
        fault(Fault::OptionsNotLast, 0, 0).message(),
        "options must come last, or last before a closure"
    );
    assert_eq!(fault(Fault::ClosureNotLast, 0, 0).message(), "a closure must be the final argument");
}

#[test]
fn text_is_classified_by_its_expression() {
    let tokens = lex("|v| v, a + 1, +");
    assert_eq!(kind_of_range(&tokens, 0, 4), ExprKind::Closure);
    assert_eq!(kind_of_range(&tokens, 5, 8), ExprKind::Plain);
    assert_eq!(kind_of_range(&tokens, 9, 10), ExprKind::Invalid);
    assert_eq!(kind_of_range(&tokens, 0, 8), ExprKind::Invalid);
    assert_eq!(kind_of_range(&tokens, 3, 3), ExprKind::Invalid);
}

#[test]
fn text_is_lexed_as_proc_macro2_lexes_it() {
    let tokens = lex("m!(z\"abc\"), 1.max(2), 'a: loop {}");
    assert_eq!(tokens.len(), 14);
    assert_eq!(kind_of_range(&tokens, 0, 3), ExprKind::Plain);
    assert_eq!(kind_of_range(&tokens, 4, 8), ExprKind::Plain);
    assert_eq!(kind_of_range(&tokens, 9, 14), ExprKind::Plain);
    assert_eq!(kind_of_range(&tokens, 9, 11), ExprKind::Invalid);
}

#[test]
fn whole_items_are_told_by_their_kind() {
    let tokens = lex("x: 1, {y 2}");
    assert!(is_complete(&tokens, 0, 3, Mode::Pair));
    assert!(!is_complete(&tokens, 0, 2, Mode::Pair));
    assert!(!is_complete(&tokens, 1, 3, Mode::Pair));
    assert!(!is_complete(&tokens, 0, 3, Mode::Item));
    assert!(is_complete(&tokens, 2, 3, Mode::Item));
    assert!(is_complete(&tokens, 2, 3, Mode::Element));
    assert!(is_complete(&tokens, 4, 5, Mode::Item));
    assert!(!is_complete(&tokens, 4, 5, Mode::Element));
    assert!(!is_complete(&tokens, 3, 3, Mode::Item));
}

#[test]
fn items_end_at_the_first_comma_that_completes_them() {
    let tokens = lex("|a, b| a, c");
    assert_eq!(find_end(&tokens, 0, Mode::Item), Some(6));
    assert_eq!(find_end(&tokens, 7, Mode::Item), Some(8));
    assert_eq!(find_end(&tokens, 1, Mode::Item), Some(2));
    assert_eq!(find_end(&tokens, 8, Mode::Item), None);
    assert_eq!(find_end(&tokens, 0, Mode::Pair), None);
    assert_eq!(find_comma(&tokens, 0), 2);
    assert_eq!(find_comma(&tokens, 3), 6);
    assert_eq!(find_comma(&tokens, 7), 8);
}

#[test]
fn a_run_is_split_into_its_items() {
    assert_eq!(
        split_items(&lex("a, |b, c| b, {d}"), Mode::Item),
        Ok(vec![Span { start: 0, end: 1 }, Span { start: 2, end: 8 }, Span { start: 9, end: 10 }])
    );
    assert_eq!(
        split_items(&lex("x: 1, y: f(2, 3)"), Mode::Pair),
        Ok(vec![Span { start: 0, end: 3 }, Span { start: 4, end: 8 }])
    );
    assert_eq!(split_items(&lex("a, , b"), Mode::Element), Err(Span { start: 2, end: 2 }));
    assert_eq!(split_items(&lex("a, b c, d"), Mode::Element), Err(Span { start: 2, end: 4 }));
    assert_eq!(split_items(&Vec::new(), Mode::Item), Err(Span { start: 0, end: 0 }));
}

#[test]
fn named_options_are_read_from_between_the_braces() {
    assert_eq!(parse_pairs(&lex("x: 1, y: a.b")), Some(object(&[("x", "1"), ("y", "a.b")])));
    assert_eq!(parse_pairs(&Vec::new()), Some(object(&[])));
    assert_eq!(parse_pairs(&lex("x: 1, y")), None);
    assert_eq!(parse_pairs(&lex("x = 1")), None);
}

#[test]
fn items_are_classified_by_their_shape() {
    let tokens = lex("a + b, {x: 1}, |v| v, {x}");
    assert_eq!(classify(&tokens, Span { start: 0, end: 3 }), Ok(plain("a + b", 0, 3)));
    assert_eq!(classify(&tokens, Span { start: 4, end: 5 }), Ok(options(&[("x", "1")], 4, 5)));
    assert_eq!(classify(&tokens, Span { start: 6, end: 10 }), Ok(closure("|v| v", 6, 10)));
    assert_eq!(classify(&tokens, Span { start: 11, end: 12 }), Err(fault(Fault::Options, 11, 12)));
}

#[test]
fn tokens_that_are_no_item_are_classified_as_a_fault() {
    let tokens = lex("a + b, {x: 1}, |v| v");
    assert_eq!(classify(&tokens, Span { start: 2, end: 2 }), Err(fault(Fault::Expression, 2, 2)));
    assert_eq!(classify(&tokens, Span { start: 0, end: 2 }), Err(fault(Fault::Expression, 0, 2)));
    assert_eq!(classify(&tokens, Span { start: 0, end: 5 }), Err(fault(Fault::Expression, 0, 5)));
    assert_eq!(classify(&tokens, Span { start: 6, end: 8 }), Err(fault(Fault::Expression, 6, 8)));
}

#[test]
fn classified_items_are_put_together() {
    assert_eq!(assemble(Vec::new()), Ok(Args { elems: None, opts: None, closure: None }));
    assert_eq!(
        assemble(vec![plain("a", 0, 1), plain("b", 2, 3)]),
        Ok(Args { elems: elems(&["a", "b"]), opts: None, closure: None })
    );
    assert_eq!(
        assemble(vec![plain("a", 0, 1), options(&[("x", "1")], 2, 3), closure("|v| v", 4, 8)]),
        Ok(Args {
            elems: elems(&["a"]),
            opts: Some(object(&[("x", "1")])),
            closure: Some(expr("|v| v")),
        })
    );
    assert_eq!(
        assemble(vec![closure("|v| v", 0, 4)]),
        Ok(Args { elems: None, opts: None, closure: Some(expr("|v| v")) })
    );
    assert_eq!(
        assemble(vec![options(&[], 0, 1), closure("|v| v", 2, 6)]),
        Ok(Args { elems: None, opts: Some(object(&[])), closure: Some(expr("|v| v")) })
    );
}

#[test]
fn items_out_of_place_are_faults() {
    assert_eq!(
        assemble(vec![plain("a", 0, 1), closure("|v| v", 2, 6), plain("b", 7, 8)]),
        Err(fault(Fault::ClosureNotLast, 2, 6))
    );
    assert_eq!(
        assemble(vec![closure("|v| v", 0, 4), options(&[], 5, 6)]),
        Err(fault(Fault::ClosureNotLast, 0, 4))
    );
    assert_eq!(
        assemble(vec![options(&[], 0, 1), plain("a", 2, 3)]),
        Err(fault(Fault::OptionsNotLast, 0, 1))
    );
    assert_eq!(
        assemble(vec![options(&[], 0, 1), options(&[], 2, 3), closure("|v| v", 4, 8)]),
        Err(fault(Fault::OptionsNotLast, 0, 1))
    );
    assert_eq!(
        assemble(vec![options(&[], 0, 1), closure("|v| v", 2, 6), closure("|w| w", 7, 11)]),
        Err(fault(Fault::OptionsNotLast, 0, 1))
    );
}

#[test]
fn a_bracketed_expression_is_a_list() {
    assert_eq!(
        parse_list(&expr("[1, f(2, 3), |a, b| a]")),
        Some(List { items: vec![expr("1"), expr("f(2, 3)"), expr("|a, b| a")] })
    );
    assert_eq!(parse_list(&expr("[{x}]")), Some(List { items: vec![expr("{x}")] }));
    assert_eq!(parse_list(&expr("[]")), None);
    assert_eq!(parse_list(&expr("[1, 2,]")), None);
    assert_eq!(parse_list(&expr("[1; 2]")), None);
    assert_eq!(parse_list(&expr("(1, 2)")), None);
    assert_eq!(parse_list(&expr("[1, 2].len()")), None);
    assert_eq!(parse_list(&expr("")), None);
}

#[test]
fn printed_arguments_are_parsed_back() {
    for text in [
        "",
        "a",
        "a, b + 1, c(2, 3)",
        "{x: 1}",
        "{}",
        "|a, b| a",
        "a, {x: 1, y: |p, q| p}, move |v| v",
        "f::<A, B>(), {k: [1, 2]}",
    ] {
        let parsed = parse(&lex(text)).unwrap();
        let printed = to_tokens(&parsed);
        assert_eq!(parse(&printed), Ok(parsed));
    }
}

#[test]
fn arguments_are_printed_with_commas_between_the_items() {
    let parsed = Args {
        elems: elems(&["a", "b"]),
        opts: Some(object(&[("x", "1"), ("y", "2")])),
        closure: Some(expr("|v| v")),
    };
    assert_eq!(to_tokens(&parsed), lex("a, b, {x: 1, y: 2}, |v| v"));
    assert_eq!(to_tokens(&Args { elems: None, opts: None, closure: None }), Vec::new());
    assert_eq!(
        to_tokens(&Args { elems: None, opts: Some(object(&[])), closure: None }),
        lex("{}")
    );
}
