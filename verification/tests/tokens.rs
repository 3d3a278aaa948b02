use reql_macros::ast::{Args, Elems, Expr, KvPair, Object};
use reql_macros::emit::{emit, guard};
use reql_macros::token::{
    copy_range, copy_token, push_all, push_group, push_punct, push_word, to_source, write_token,
    write_tokens, Delim, Token,
};

fn ident(name: &str) -> Token {
    Token::Ident(name.to_string())
}

fn literal(text: &str) -> Token {
    Token::Literal(text.to_string())
}

fn sample() -> Vec<Token> {
    vec![
        ident("a"),
        Token::Punct(':', true),
        Token::Punct(':', false),
        ident("b"),
        Token::Group(
            Delim::Paren,
            vec![literal("1"), Token::Punct(',', false), Token::Group(Delim::Bracket, vec![literal("\"x\"")])],
        ),
        Token::Group(Delim::Brace, Vec::new()),
    ]
}

#[test]
fn source_text_puts_a_space_after_each_token_but_joined_punctuation() {
    assert_eq!(to_source(&sample()), "a :: b (1 , [\"x\" ] ) {} ");
    assert_eq!(to_source(&Vec::new()), "");
}

#[test]
fn source_text_is_appended_to_what_is_there() {
    let mut out = String::from("let ");
    write_token(&ident("x"), &mut out);
    write_token(&Token::Punct('=', false), &mut out);
    write_tokens(&sample(), 3, 5, &mut out);
    assert_eq!(out, "let x = b (1 , [\"x\" ] ) ");
    write_tokens(&sample(), 2, 2, &mut out);
    assert_eq!(out, "let x = b (1 , [\"x\" ] ) ");
}

#[test]
fn brackets_open_and_close() {
    assert_eq!((Delim::Paren.open_char(), Delim::Paren.close_char()), ('(', ')'));
    assert_eq!((Delim::Bracket.open_char(), Delim::Bracket.close_char()), ('[', ']'));
    assert_eq!((Delim::Brace.open_char(), Delim::Brace.close_char()), ('{', '}'));
}

#[test]
fn copies_are_equal_to_what_they_copy() {
    let tokens = sample();
    assert_eq!(copy_token(&tokens[4]), tokens[4]);
    assert_eq!(copy_range(&tokens, 0, 6), tokens);
    assert_eq!(copy_range(&tokens, 1, 3), vec![Token::Punct(':', true), Token::Punct(':', false)]);
    assert_eq!(copy_range(&tokens, 4, 4), Vec::new());
}

#[test]
fn tokens_are_appended_in_order() {
    let mut out = Vec::new();
    push_word(&mut out, "f");
    push_punct(&mut out, '.', false);
    push_group(&mut out, Delim::Paren, vec![literal("2")]);
    push_all(&mut out, vec![ident("g"), ident("h")]);
    assert_eq!(
        out,
        vec![
            ident("f"),
            Token::Punct('.', false),
            Token::Group(Delim::Paren, vec![literal("2")]),
            ident("g"),
            ident("h"),
        ]
    );
}

#[test]
fn no_invocation_emits_the_empty_container() {
    assert_eq!(to_source(&emit(None)), "reql :: Term :: new () ");
}

#[test]
fn arguments_without_parts_emit_start_and_finish() {
    let none = Args { elems: None, opts: None, closure: None };
    assert_eq!(
        to_source(&emit(Some(&none))),
        "{let mut __args = IntoArg :: into_arg (reql :: Term :: new () ) ; __args } "
    );
}

#[test]
fn each_part_emits_its_statements_in_the_fixed_order() {
    let all = Args {
        elems: Some(Elems {
            items: vec![Expr { tokens: vec![ident("a")] }, Expr { tokens: vec![literal("2")] }],
        }),
        opts: Some(Object {
            pairs: vec![KvPair { key: "x".to_string(), value: Expr { tokens: vec![literal("1")] } }],
        }),
        closure: Some(Expr {
            tokens: vec![Token::Punct('|', false), ident("v"), Token::Punct('|', false), ident("v")],
        }),
    };
    assert_eq!(
        to_source(&emit(Some(&all))),
        "{let mut __args = IntoArg :: into_arg (reql :: Term :: new () ) ; \
         Arg :: add_arg (& mut __args , IntoArg :: into_arg (a ) ) ; \
         Arg :: add_arg (& mut __args , IntoArg :: into_arg (2 ) ) ; \
         match Arg :: create_term_pair (\"x\" , 1 ) {\
         Ok (pair ) => Arg :: add_opt (& mut __args , pair ) , \
         Err (error ) => Arg :: set_term (& mut __args , Err (error ) ) , } \
         Arg :: add_closure (& mut __args , | v | v ) ; \
         __args } "
    );
}

#[test]
fn the_guard_imports_the_three_names() {
    assert_eq!(
        to_source(&guard(vec![ident("e")])),
        "{# [allow (unused_imports ) ] use reql :: {Term , IntoArg , Arg } ; e } "
    );
}
