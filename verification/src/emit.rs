//! The generator: from an [`Args`] to the expression that builds the
//! argument of a ReQL command.
//!
//! The expression names three items of the `reql` crate: `Term`, whose `new`
//! makes the empty argument; `IntoArg`, whose `into_arg` converts a value;
//! and `Arg`, whose `add_arg` appends one positional argument, whose
//! `create_term_pair`, `add_opt` and `set_term` merge one named option, and
//! whose `add_closure` attaches the closure.
//!
//! ```text
//! {
//!     #[allow(unused_imports)]
//!     use reql::{Term, IntoArg, Arg};
//!     {
//!         let mut __args = IntoArg::into_arg(reql::Term::new());
//!         Arg::add_arg(&mut __args, IntoArg::into_arg(a));
//!         match Arg::create_term_pair("x", 1) {
//!             Ok(pair) => Arg::add_opt(&mut __args, pair),
//!             Err(error) => Arg::set_term(&mut __args, Err(error)),
//!         }
//!         Arg::add_closure(&mut __args, |v| v);
//!         __args
//!     }
//! }
//! ```

use crate::ast::{Args, Expr, Invocation, KvPair, Object, Pair};
use crate::error::{Failure, SyntaxError};
use crate::grammar::parse_spec;
use crate::parser::parse;
use crate::text::push_char;
use crate::token::{
    copy_range, lemma_trees_push, push_all, push_group, push_punct, push_word, trees, Delim, Token,
    Tree,
};
use vstd::prelude::*;
use vstd::string::StringExecFns;

verus! {

/// An identifier or keyword.
pub open spec fn word(name: Seq<char>) -> Tree {
    Tree::Ident(name)
}

/// A punctuation character that stands alone.
pub open spec fn mark(c: char) -> Tree {
    Tree::Punct(c, false)
}

/// `a :: b`
pub open spec fn path(a: Seq<char>, b: Seq<char>) -> Seq<Tree> {
    seq![word(a), Tree::Punct(':', true), mark(':'), word(b)]
}

/// `callee (arguments)`
pub open spec fn call(callee: Seq<Tree>, arguments: Seq<Tree>) -> Seq<Tree> {
    callee.push(Tree::Group(Delim::Paren, arguments))
}

/// `reql :: Term :: new ()`: the expression that makes the empty argument.
pub open spec fn empty_container() -> Seq<Tree> {
    call(seq![word("reql"@), Tree::Punct(':', true), mark(':')] + path("Term"@, "new"@), seq![])
}

/// `IntoArg :: into_arg (value)`
pub open spec fn converted(value: Seq<Tree>) -> Seq<Tree> {
    call(path("IntoArg"@, "into_arg"@), value)
}

/// `& mut __args ,`: the argument under construction, as the first argument
/// of a call.
pub open spec fn target() -> Seq<Tree> {
    seq![mark('&'), word("mut"@), word("__args"@), mark(',')]
}

/// `let mut __args = IntoArg :: into_arg (reql :: Term :: new ()) ;`
pub open spec fn start() -> Seq<Tree> {
    seq![word("let"@), word("mut"@), word("__args"@), mark('=')] + converted(empty_container())
        + seq![mark(';')]
}

/// `Arg :: add_arg (& mut __args , IntoArg :: into_arg (value)) ;`
pub open spec fn append(value: Seq<Tree>) -> Seq<Tree> {
    call(path("Arg"@, "add_arg"@), target() + converted(value)).push(mark(';'))
}

/// The key of a named option as a string literal.
pub open spec fn key_literal(key: Seq<char>) -> Tree {
    Tree::Literal(seq!['"'] + key + seq!['"'])
}

/// `Ok (pair) => Arg :: add_opt (& mut __args , pair) ,
///  Err (error) => Arg :: set_term (& mut __args , Err (error)) ,`
pub open spec fn merge_arms() -> Seq<Tree> {
    seq![
        word("Ok"@),
        Tree::Group(Delim::Paren, seq![word("pair"@)]),
        Tree::Punct('=', true),
        mark('>'),
    ] + call(path("Arg"@, "add_opt"@), target().push(word("pair"@))) + seq![
        mark(','),
        word("Err"@),
        Tree::Group(Delim::Paren, seq![word("error"@)]),
        Tree::Punct('=', true),
        mark('>'),
    ] + call(
        path("Arg"@, "set_term"@),
        target() + call(seq![word("Err"@)], seq![word("error"@)]),
    ) + seq![mark(',')]
}

/// `match Arg :: create_term_pair ("key" , value) { .. }`: merges one named
/// option.
pub open spec fn merge_pair(pair: Pair) -> Seq<Tree> {
    seq![word("match"@)] + call(
        path("Arg"@, "create_term_pair"@),
        seq![key_literal(pair.key), mark(',')] + pair.value,
    ) + seq![Tree::Group(Delim::Brace, merge_arms())]
}

/// The statements that merge the named options, in their order.
pub open spec fn merge(options: Seq<Pair>) -> Seq<Tree>
    decreases options.len(),
{
    if options.len() == 0 {
        seq![]
    } else {
        merge(options.drop_last()) + merge_pair(options.last())
    }
}

/// `Arg :: add_closure (& mut __args , closure) ;`
pub open spec fn attach(closure: Seq<Tree>) -> Seq<Tree> {
    call(path("Arg"@, "add_closure"@), target() + closure).push(mark(';'))
}

/// One step in the construction of the argument.
pub ghost enum Step {
    /// Appends one positional argument.
    Append(Seq<Tree>),
    /// Merges the options object.
    Merge(Seq<Pair>),
    /// Attaches the closure.
    Attach(Seq<Tree>),
}

/// The steps that build an invocation: one `Append` for each positional
/// argument in order, then the `Merge` of the options, then the `Attach` of
/// the closure; a part that the invocation has not contributes no step.
pub open spec fn steps(inv: Invocation) -> Seq<Step> {
    (match inv.elems {
        Some(es) => Seq::new(es.len(), |i: int| Step::Append(es[i])),
        None => seq![],
    }) + (match inv.opts {
        Some(o) => seq![Step::Merge(o)],
        None => seq![],
    }) + (match inv.closure {
        Some(c) => seq![Step::Attach(c)],
        None => seq![],
    })
}

/// The statements of one step.
pub open spec fn statement(step: Step) -> Seq<Tree> {
    match step {
        Step::Append(value) => append(value),
        Step::Merge(options) => merge(options),
        Step::Attach(closure) => attach(closure),
    }
}

/// The statements of a run of steps, in their order.
pub open spec fn statements(steps: Seq<Step>) -> Seq<Tree>
    decreases steps.len(),
{
    if steps.len() == 0 {
        seq![]
    } else {
        statements(steps.drop_last()) + statement(steps.last())
    }
}

/// The expression for an invocation: for `None`, the invocation that was
/// empty, the expression that makes the empty argument; else one block that
/// starts from the empty argument, runs the steps of the invocation and ends
/// in the argument built.
pub open spec fn emitted(inv: Option<Invocation>) -> Seq<Tree> {
    match inv {
        None => empty_container(),
        Some(inv) => seq![
            Tree::Group(Delim::Brace, start() + statements(steps(inv)) + seq![word("__args"@)]),
        ],
    }
}

/// `# [allow (unused_imports)] use reql :: { Term , IntoArg , Arg } ;`
pub open spec fn imports() -> Seq<Tree> {
    seq![
        mark('#'),
        Tree::Group(
            Delim::Bracket,
            call(seq![word("allow"@)], seq![word("unused_imports"@)]),
        ),
        word("use"@),
        word("reql"@),
        Tree::Punct(':', true),
        mark(':'),
        Tree::Group(
            Delim::Brace,
            seq![word("Term"@), mark(','), word("IntoArg"@), mark(','), word("Arg"@)],
        ),
        mark(';'),
    ]
}

/// A block that imports `Term`, `IntoArg` and `Arg` and then holds the
/// expression, so that the three names mean those of `reql` whatever they
/// mean where the invocation stands.
pub open spec fn guarded(expression: Seq<Tree>) -> Seq<Tree> {
    seq![Tree::Group(Delim::Brace, imports() + expression)]
}

/// The expansion of an invocation: for the empty run of tokens the
/// expression that makes the empty argument; else the guarded expression for
/// the invocation that the tokens spell, or their syntax error.
pub open spec fn expansion(ts: Seq<Tree>) -> Result<Seq<Tree>, Failure> {
    if ts.len() == 0 {
        Ok(emitted(None))
    } else {
        match parse_spec(ts) {
            Ok(inv) => Ok(guarded(emitted(Some(inv)))),
            Err(f) => Err(f),
        }
    }
}

/// Appends a copy of the tokens of an expression.
pub(crate) fn push_copy(out: &mut Vec<Token>, expr: &Expr)
    ensures
        trees(final(out)@) == trees(old(out)@) + expr@,
{
    let copy = copy_range(&expr.tokens, 0, expr.tokens.len());
    assert(trees(expr.tokens@).subrange(0, expr.tokens@.len() as int) =~= expr@);
    push_all(out, copy);
}

fn push_path(out: &mut Vec<Token>, a: &str, b: &str)
    ensures
        trees(final(out)@) == trees(old(out)@) + path(a@, b@),
{
    push_word(out, a);
    push_punct(out, ':', true);
    push_punct(out, ':', false);
    push_word(out, b);
    assert(trees(out@) =~= trees(old(out)@) + path(a@, b@));
}

fn push_target(out: &mut Vec<Token>)
    ensures
        trees(final(out)@) == trees(old(out)@) + target(),
{
    push_punct(out, '&', false);
    push_word(out, "mut");
    push_word(out, "__args");
    push_punct(out, ',', false);
    assert(trees(out@) =~= trees(old(out)@) + target());
}

/// The tokens of the expression that makes the empty argument.
fn emit_empty() -> (r: Vec<Token>)
    ensures
        trees(r@) == empty_container(),
{
    let mut out: Vec<Token> = Vec::new();
    assert(trees(out@) =~= Seq::<Tree>::empty());
    push_word(&mut out, "reql");
    push_punct(&mut out, ':', true);
    push_punct(&mut out, ':', false);
    push_path(&mut out, "Term", "new");
    let inner: Vec<Token> = Vec::new();
    assert(trees(inner@) =~= Seq::<Tree>::empty());
    push_group(&mut out, Delim::Paren, inner);
    assert(trees(out@) =~= empty_container());
    out
}

fn push_converted(out: &mut Vec<Token>, value: Vec<Token>)
    ensures
        trees(final(out)@) == trees(old(out)@) + converted(trees(value@)),
{
    push_path(out, "IntoArg", "into_arg");
    push_group(out, Delim::Paren, value);
    assert(trees(out@) =~= trees(old(out)@) + converted(trees(value@)));
}

fn push_start(out: &mut Vec<Token>)
    ensures
        trees(final(out)@) == trees(old(out)@) + start(),
{
    push_word(out, "let");
    push_word(out, "mut");
    push_word(out, "__args");
    push_punct(out, '=', false);
    push_converted(out, emit_empty());
    push_punct(out, ';', false);
    assert(trees(out@) =~= trees(old(out)@) + start());
}

fn push_append(out: &mut Vec<Token>, value: &Expr)
    ensures
        trees(final(out)@) == trees(old(out)@) + append(value@),
{
    push_path(out, "Arg", "add_arg");
    let mut arguments: Vec<Token> = Vec::new();
    assert(trees(arguments@) =~= Seq::<Tree>::empty());
    push_target(&mut arguments);
    let copy = copy_range(&value.tokens, 0, value.tokens.len());
    assert(trees(value.tokens@).subrange(0, value.tokens@.len() as int) =~= value@);
    push_converted(&mut arguments, copy);
    assert(trees(arguments@) =~= target() + converted(value@));
    push_group(out, Delim::Paren, arguments);
    push_punct(out, ';', false);
    assert(trees(out@) =~= trees(old(out)@) + append(value@));
}

fn push_attach(out: &mut Vec<Token>, closure: &Expr)
    ensures
        trees(final(out)@) == trees(old(out)@) + attach(closure@),
{
    push_path(out, "Arg", "add_closure");
    let mut arguments: Vec<Token> = Vec::new();
    assert(trees(arguments@) =~= Seq::<Tree>::empty());
    push_target(&mut arguments);
    push_copy(&mut arguments, closure);
    assert(trees(arguments@) =~= target() + closure@);
    push_group(out, Delim::Paren, arguments);
    push_punct(out, ';', false);
    assert(trees(out@) =~= trees(old(out)@) + attach(closure@));
}

fn one_word(name: &str) -> (r: Vec<Token>)
    ensures
        trees(r@) == seq![word(name@)],
{
    let mut out: Vec<Token> = Vec::new();
    assert(trees(out@) =~= Seq::<Tree>::empty());
    push_word(&mut out, name);
    assert(trees(out@) =~= seq![word(name@)]);
    out
}

fn emit_arms() -> (r: Vec<Token>)
    ensures
        trees(r@) == merge_arms(),
{
    let mut out: Vec<Token> = Vec::new();
    assert(trees(out@) =~= Seq::<Tree>::empty());
    push_word(&mut out, "Ok");
    push_group(&mut out, Delim::Paren, one_word("pair"));
    push_punct(&mut out, '=', true);
    push_punct(&mut out, '>', false);
    let ghost first = trees(out@);
    assert(first =~= seq![
        word("Ok"@),
        Tree::Group(Delim::Paren, seq![word("pair"@)]),
        Tree::Punct('=', true),
        mark('>'),
    ]);
    push_path(&mut out, "Arg", "add_opt");
    let mut arguments: Vec<Token> = Vec::new();
    assert(trees(arguments@) =~= Seq::<Tree>::empty());
    push_target(&mut arguments);
    push_word(&mut arguments, "pair");
    assert(trees(arguments@) =~= target().push(word("pair"@)));
    push_group(&mut out, Delim::Paren, arguments);
    let ghost second = trees(out@);
    assert(second =~= first + call(path("Arg"@, "add_opt"@), target().push(word("pair"@))));
    push_punct(&mut out, ',', false);
    push_word(&mut out, "Err");
    push_group(&mut out, Delim::Paren, one_word("error"));
    push_punct(&mut out, '=', true);
    push_punct(&mut out, '>', false);
    let ghost third = trees(out@);
    assert(third =~= second + seq![
        mark(','),
        word("Err"@),
        Tree::Group(Delim::Paren, seq![word("error"@)]),
        Tree::Punct('=', true),
        mark('>'),
    ]);
    push_path(&mut out, "Arg", "set_term");
    let mut arguments: Vec<Token> = Vec::new();
    assert(trees(arguments@) =~= Seq::<Tree>::empty());
    push_target(&mut arguments);
    push_word(&mut arguments, "Err");
    push_group(&mut arguments, Delim::Paren, one_word("error"));
    assert(trees(arguments@) =~= target() + call(seq![word("Err"@)], seq![word("error"@)]));
    push_group(&mut out, Delim::Paren, arguments);
    push_punct(&mut out, ',', false);
    assert(trees(out@) =~= third + call(
        path("Arg"@, "set_term"@),
        target() + call(seq![word("Err"@)], seq![word("error"@)]),
    ) + seq![mark(',')]);
    out
}

fn push_merge_pair(out: &mut Vec<Token>, pair: &KvPair)
    ensures
        trees(final(out)@) == trees(old(out)@) + merge_pair(pair@),
{
    push_word(out, "match");
    push_path(out, "Arg", "create_term_pair");
    let mut text = String::new();
    push_char(&mut text, '"');
    text.append(pair.key.as_str());
    push_char(&mut text, '"');
    assert(text@ =~= seq!['"'] + pair.key@ + seq!['"']);
    let mut arguments: Vec<Token> = Vec::new();
    assert(trees(arguments@) =~= Seq::<Tree>::empty());
    let literal = Token::Literal(text);
    proof {
        lemma_trees_push(arguments@, literal);
    }
    arguments.push(literal);
    push_punct(&mut arguments, ',', false);
    push_copy(&mut arguments, &pair.value);
    assert(trees(arguments@) =~= seq![key_literal(pair@.key), mark(',')] + pair@.value);
    push_group(out, Delim::Paren, arguments);
    push_group(out, Delim::Brace, emit_arms());
    assert(trees(out@) =~= trees(old(out)@) + merge_pair(pair@));
}

fn push_merge(out: &mut Vec<Token>, options: &Object)
    ensures
        trees(final(out)@) == trees(old(out)@) + merge(options@),
{
    let mut i: usize = 0;
    assert(options@.take(0) =~= Seq::<Pair>::empty());
    assert(trees(out@) =~= trees(old(out)@) + merge(options@.take(0)));
    while i < options.pairs.len()
        invariant
            i <= options.pairs.len(),
            trees(out@) == trees(old(out)@) + merge(options@.take(i as int)),
        decreases options.pairs.len() - i,
    {
        let ghost before = trees(out@);
        push_merge_pair(out, &options.pairs[i]);
        proof {
            let upto = options@.take(i + 1);
            assert(upto.drop_last() =~= options@.take(i as int));
            assert(upto.last() == options.pairs@[i as int]@);
            assert(trees(out@) =~= trees(old(out)@) + merge(upto));
        }
        i += 1;
    }
    assert(options@.take(i as int) =~= options@);
}

/// Generates the expression for an invocation: for `None`, the invocation
/// that was empty, the expression that makes the empty argument; else one
/// block that starts from the empty argument, appends each positional
/// argument in order, then merges the options, then attaches the closure,
/// and ends in the argument built.
pub fn emit(args: Option<&Args>) -> (r: Vec<Token>)
    ensures
        trees(r@) == emitted(
            match args {
                Some(a) => Some(a@),
                None => None,
            },
        ),
{
    let args = match args {
        None => {
            return emit_empty();
        },
        Some(args) => args,
    };
    let mut body: Vec<Token> = Vec::new();
    assert(trees(body@) =~= Seq::<Tree>::empty());
    push_start(&mut body);
    let ghost mut done: Seq<Step> = seq![];
    assert(trees(body@) =~= start() + statements(done));
    match &args.elems {
        Some(elems) => {
            let mut i: usize = 0;
            while i < elems.items.len()
                invariant
                    i <= elems.items.len(),
                    done == Seq::new(i as nat, |j: int| Step::Append(elems@[j])),
                    trees(body@) == start() + statements(done),
                decreases elems.items.len() - i,
            {
                push_append(&mut body, &elems.items[i]);
                proof {
                    let next = done.push(Step::Append(elems@[i as int]));
                    assert(next.drop_last() =~= done);
                    assert(elems@[i as int] == elems.items@[i as int]@);
                    assert(trees(body@) =~= start() + statements(next));
                    done = next;
                    assert(done =~= Seq::new((i + 1) as nat, |j: int| Step::Append(elems@[j])));
                }
                i += 1;
            }
        },
        None => {},
    }
    match &args.opts {
        Some(options) => {
            push_merge(&mut body, options);
            proof {
                let next = done.push(Step::Merge(options@));
                assert(next.drop_last() =~= done);
                assert(trees(body@) =~= start() + statements(next));
                done = next;
            }
        },
        None => {},
    }
    match &args.closure {
        Some(closure) => {
            push_attach(&mut body, closure);
            proof {
                let next = done.push(Step::Attach(closure@));
                assert(next.drop_last() =~= done);
                assert(trees(body@) =~= start() + statements(next));
                done = next;
            }
        },
        None => {},
    }
    assert(done =~= steps(args@));
    push_word(&mut body, "__args");
    assert(trees(body@) =~= start() + statements(steps(args@)) + seq![word("__args"@)]);
    let mut out: Vec<Token> = Vec::new();
    assert(trees(out@) =~= Seq::<Tree>::empty());
    push_group(&mut out, Delim::Brace, body);
    assert(trees(out@) =~= emitted(Some(args@)));
    out
}

fn emit_imports() -> (r: Vec<Token>)
    ensures
        trees(r@) == imports(),
{
    let mut out: Vec<Token> = Vec::new();
    assert(trees(out@) =~= Seq::<Tree>::empty());
    push_punct(&mut out, '#', false);
    let mut attribute = one_word("allow");
    push_group(&mut attribute, Delim::Paren, one_word("unused_imports"));
    assert(trees(attribute@) =~= call(seq![word("allow"@)], seq![word("unused_imports"@)]));
    push_group(&mut out, Delim::Bracket, attribute);
    push_word(&mut out, "use");
    push_word(&mut out, "reql");
    push_punct(&mut out, ':', true);
    push_punct(&mut out, ':', false);
    let mut names = one_word("Term");
    push_punct(&mut names, ',', false);
    push_word(&mut names, "IntoArg");
    push_punct(&mut names, ',', false);
    push_word(&mut names, "Arg");
    assert(trees(names@) =~= seq![
        word("Term"@),
        mark(','),
        word("IntoArg"@),
        mark(','),
        word("Arg"@),
    ]);
    push_group(&mut out, Delim::Brace, names);
    push_punct(&mut out, ';', false);
    assert(trees(out@) =~= imports());
    out
}

/// Puts an expression into a block that first imports `Term`, `IntoArg` and
/// `Arg` from `reql`.
pub fn guard(expression: Vec<Token>) -> (r: Vec<Token>)
    ensures
        trees(r@) == guarded(trees(expression@)),
{
    let mut inner = emit_imports();
    push_all(&mut inner, expression);
    let mut out: Vec<Token> = Vec::new();
    assert(trees(out@) =~= Seq::<Tree>::empty());
    push_group(&mut out, Delim::Brace, inner);
    assert(trees(out@) =~= guarded(trees(expression@)));
    out
}

/// Expands one invocation. For the empty run of tokens the result is the
/// expression that makes the empty argument, whatever surrounds the
/// invocation. Any other run is parsed, and the result is the guarded
/// expression for what it spells, or its syntax error. Parsing leaves
/// `proc-macro2` switched to its own lexer.
pub fn args(input: &Vec<Token>) -> (r: Result<Vec<Token>, SyntaxError>)
    ensures
        input@.len() == 0 ==> r is Ok && trees(r->Ok_0@) == empty_container(),
        match r {
            Ok(tokens) => expansion(trees(input@)) == Ok::<_, Failure>(trees(tokens@)),
            Err(e) => expansion(trees(input@)) == Err::<Seq<Tree>, _>(e@),
        },
{
    if input.len() == 0 {
        return Ok(emit(None));
    }
    match parse(input) {
        Ok(parsed) => Ok(guard(emit(Some(&parsed)))),
        Err(e) => Err(e),
    }
}

} // verus!
