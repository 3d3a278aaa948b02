use proc_macro2::{Delimiter, Spacing, TokenStream, TokenTree};
use reql_macros::emit::args;
use reql_macros::parser::parse;
use reql_macros::printer::to_tokens;
use reql_macros::error::{Fault, Span, SyntaxError};
use reql_macros::token::{to_source, Delim, Token};

fn convert(stream: TokenStream) -> Vec<Token> {
    let mut out = Vec::new();
    for tree in stream {
        match tree {
            TokenTree::Ident(ident) => out.push(Token::Ident(ident.to_string())),
            TokenTree::Literal(literal) => out.push(Token::Literal(literal.to_string())),
            TokenTree::Punct(punct) => {
                out.push(Token::Punct(punct.as_char(), punct.spacing() == Spacing::Joint))
            }
            TokenTree::Group(group) => match group.delimiter() {
                Delimiter::Parenthesis => out.push(Token::Group(Delim::Paren, convert(group.stream()))),
                Delimiter::Bracket => out.push(Token::Group(Delim::Bracket, convert(group.stream()))),
                Delimiter::Brace => out.push(Token::Group(Delim::Brace, convert(group.stream()))),
                Delimiter::None => out.extend(convert(group.stream())),
            },
        }
    }
    out
}

fn lex(text: &str) -> Vec<Token> {
    convert(text.parse().unwrap())
}

fn guarded(body: &str) -> Vec<Token> {
    lex(&format!(
        "{{ #[allow(unused_imports)] use reql::{{Term, IntoArg, Arg}}; {{ let mut __args = IntoArg::into_arg(reql::Term::new()); {} __args }} }}",
        body
    ))
}

#[test]
fn empty_input_builds_the_empty_container() {
    let out = args(&Vec::new()).unwrap();
    assert_eq!(out, lex("reql::Term::new()"));
    assert_eq!(to_source(&out), "reql :: Term :: new () ");
}

#[test]
fn three_positional_expressions_are_appended_in_order() {
    let out = args(&lex("a, b, c")).unwrap();
    assert_eq!(
        out,
        guarded(
            "Arg::add_arg(&mut __args, IntoArg::into_arg(a)); \
             Arg::add_arg(&mut __args, IntoArg::into_arg(b)); \
             Arg::add_arg(&mut __args, IntoArg::into_arg(c));"
        )
    );
}

#[test]
fn positional_then_options_appends_then_merges() {
    let out = args(&lex("a, {x: 1, y: 2}")).unwrap();
    assert_eq!(
        out,
        guarded(
            "Arg::add_arg(&mut __args, IntoArg::into_arg(a)); \
             match Arg::create_term_pair(\"x\", 1) { \
                 Ok(pair) => Arg::add_opt(&mut __args, pair), \
                 Err(error) => Arg::set_term(&mut __args, Err(error)), \
             } \
             match Arg::create_term_pair(\"y\", 2) { \
                 Ok(pair) => Arg::add_opt(&mut __args, pair), \
                 Err(error) => Arg::set_term(&mut __args, Err(error)), \
             }"
        )
    );
}

#[test]
fn options_then_closure_merges_then_attaches() {
    let out = args(&lex("{x: 1}, |v| v")).unwrap();
    assert_eq!(
        out,
        guarded(
            "match Arg::create_term_pair(\"x\", 1) { \
                 Ok(pair) => Arg::add_opt(&mut __args, pair), \
                 Err(error) => Arg::set_term(&mut __args, Err(error)), \
             } \
             Arg::add_closure(&mut __args, |v| v);"
        )
    );
}

#[test]
fn closure_before_options_is_a_syntax_error() {
    let err = args(&lex("a, b, |v| v, {x: 1}")).unwrap_err();
    assert_eq!(
        err,
        SyntaxError { fault: Fault::ClosureNotLast, span: Span { start: 4, end: 8 } }
    );
    assert_eq!(err.message(), "a closure must be the final argument");
}

#[test]
fn an_expansion_is_lexed_back_from_its_source_text() {
    for text in ["", "a", "a, {x: 1}", "x.f::<u8>(&mut y, 'c'), {k: \"v\"}, |a, b| a + b"] {
        let out = args(&lex(text)).unwrap();
        assert_eq!(lex(&to_source(&out)), out);
    }
}

#[test]
fn positional_expressions_alone_are_only_appended() {
    let texts = ["u", "v + 1", "w(3, 4)", "[x, 5]", "\"y\""];
    for n in 1..=texts.len() {
        let input = texts[..n].join(", ");
        let body: String = texts[..n]
            .iter()
            .map(|t| format!("Arg::add_arg(&mut __args, IntoArg::into_arg({}));", t))
            .collect();
        let out = args(&lex(&input)).unwrap();
        assert_eq!(out, guarded(&body));
        let source = to_source(&out);
        assert_eq!(source.matches("add_arg").count(), n);
        assert!(!source.contains("add_opt"));
        assert!(!source.contains("add_closure"));
    }
}

#[test]
fn the_parts_are_never_reordered() {
    let source = to_source(&args(&lex("b, a, {y: 1, x: 2}, |v| v")).unwrap());
    let places: Vec<usize> = [
        "into_arg (b ",
        "into_arg (a ",
        "create_term_pair (\"y\" ",
        "create_term_pair (\"x\" ",
        "add_closure ",
    ]
    .iter()
    .map(|part| source.find(part).unwrap())
    .collect();
    assert!(places.windows(2).all(|pair| pair[0] < pair[1]));
}

#[test]
fn the_expansion_of_a_syntax_error_is_the_error() {
    assert_eq!(
        args(&lex("{x: 1}, a")),
        Err(SyntaxError { fault: Fault::OptionsNotLast, span: Span { start: 0, end: 1 } })
    );
    assert_eq!(
        args(&lex("a, {x}")),
        Err(SyntaxError { fault: Fault::Options, span: Span { start: 2, end: 3 } })
    );
    assert_eq!(
        args(&lex("a +")),
        Err(SyntaxError { fault: Fault::Expression, span: Span { start: 0, end: 2 } })
    );
}

#[test]
fn printed_arguments_expand_as_the_arguments_did() {
    for text in ["", "a", "{}", "a, b(1, 2), {x: 1, y: |p, q| p}, |v| v"] {
        let input = lex(text);
        let printed = to_tokens(&parse(&input).unwrap());
        assert_eq!(printed.is_empty(), input.is_empty());
        assert_eq!(args(&printed), args(&input));
    }
}
