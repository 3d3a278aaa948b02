//! The way back: from an [`Args`] to the tokens that spell it.

use crate::ast::{Args, KvPair, Object};
use crate::emit::push_copy;
use crate::grammar::{comma, item_runs, join, object_tokens, pair_runs, pair_tokens, unparse};
use crate::token::{lemma_trees_push, push_all, push_group, push_punct, trees, Delim, Token, Tree};
use vstd::prelude::*;

verus! {

/// Joined runs with one more run.
pub proof fn lemma_join_push(runs: Seq<Seq<Tree>>, run: Seq<Tree>)
    ensures
        join(runs.push(run)) == if runs.len() == 0 {
            run
        } else {
            join(runs) + seq![comma()] + run
        },
{
    assert(runs.push(run).drop_last() =~= runs);
}

/// Appends a comma unless `out` holds the first item.
fn push_separator(out: &mut Vec<Token>, first: bool)
    ensures
        trees(final(out)@) == if first {
            trees(old(out)@)
        } else {
            trees(old(out)@).push(comma())
        },
{
    if !first {
        push_punct(out, ',', false);
    }
}

/// The tokens that spell a named option: `key : value`.
fn pair_to_tokens(pair: &KvPair) -> (r: Vec<Token>)
    ensures
        trees(r@) == pair_tokens(pair@),
{
    let mut out: Vec<Token> = Vec::new();
    assert(trees(out@) =~= Seq::<Tree>::empty());
    let key = Token::Ident(pair.key.clone());
    proof {
        lemma_trees_push(out@, key);
    }
    out.push(key);
    push_punct(&mut out, ':', false);
    push_copy(&mut out, &pair.value);
    assert(trees(out@) =~= pair_tokens(pair@));
    out
}

/// The tokens that spell an options object: one group in braces that holds
/// the named options with a comma between each two.
fn object_to_tokens(object: &Object) -> (r: Vec<Token>)
    ensures
        trees(r@) == object_tokens(object@),
{
    let mut inner: Vec<Token> = Vec::new();
    assert(trees(inner@) =~= Seq::<Tree>::empty());
    let mut i: usize = 0;
    assert(pair_runs(object@).take(0) =~= Seq::<Seq<Tree>>::empty());
    while i < object.pairs.len()
        invariant
            i <= object.pairs.len(),
            trees(inner@) == join(pair_runs(object@).take(i as int)),
        decreases object.pairs.len() - i,
    {
        let ghost done = pair_runs(object@).take(i as int);
        push_separator(&mut inner, i == 0);
        push_all(&mut inner, pair_to_tokens(&object.pairs[i]));
        proof {
            let run = pair_tokens(object.pairs@[i as int]@);
            lemma_join_push(done, run);
            assert(pair_runs(object@).take(i + 1) =~= done.push(run));
            assert(trees(inner@) =~= join(done.push(run)));
        }
        i += 1;
    }
    assert(pair_runs(object@).take(i as int) =~= pair_runs(object@));
    let mut out: Vec<Token> = Vec::new();
    assert(trees(out@) =~= Seq::<Tree>::empty());
    push_group(&mut out, Delim::Brace, inner);
    assert(trees(out@) =~= object_tokens(object@));
    out
}

/// The tokens that spell an invocation: the positional expressions, then the
/// options object, then the closure, with a comma between each two items.
pub fn to_tokens(args: &Args) -> (r: Vec<Token>)
    ensures
        trees(r@) == unparse(args@),
{
    let mut out: Vec<Token> = Vec::new();
    let ghost mut done: Seq<Seq<Tree>> = seq![];
    let mut first = true;
    assert(trees(out@) =~= join(done));
    match &args.elems {
        Some(elems) => {
            let mut i: usize = 0;
            assert(elems@.take(0) =~= done);
            while i < elems.items.len()
                invariant
                    i <= elems.items.len(),
                    done == elems@.take(i as int),
                    first == (done.len() == 0),
                    trees(out@) == join(done),
                decreases elems.items.len() - i,
            {
                push_separator(&mut out, first);
                push_copy(&mut out, &elems.items[i]);
                proof {
                    let run = elems.items@[i as int]@;
                    lemma_join_push(done, run);
                    assert(elems@.take(i + 1) =~= done.push(run));
                    assert(trees(out@) =~= join(done.push(run)));
                    done = done.push(run);
                }
                first = false;
                i += 1;
            }
            assert(elems@.take(i as int) =~= elems@);
        },
        None => {},
    }
    match &args.opts {
        Some(object) => {
            push_separator(&mut out, first);
            push_all(&mut out, object_to_tokens(object));
            proof {
                let run = object_tokens(object@);
                lemma_join_push(done, run);
                assert(trees(out@) =~= join(done.push(run)));
                done = done.push(run);
            }
            first = false;
        },
        None => {},
    }
    match &args.closure {
        Some(closure) => {
            push_separator(&mut out, first);
            push_copy(&mut out, closure);
            proof {
                let run = closure@;
                lemma_join_push(done, run);
                assert(trees(out@) =~= join(done.push(run)));
                done = done.push(run);
            }
        },
        None => {},
    }
    assert(done =~= item_runs(args@));
    out
}

} // verus!
