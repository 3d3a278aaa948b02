//! Token trees: the lexed form in which an invocation arrives and in which
//! the expansion leaves.

use crate::text::push_char;
use vstd::prelude::*;
use vstd::string::StringExecFns;

verus! {

/// The three kinds of bracket that can enclose a group of tokens.
#[derive(Clone, Copy, Debug, PartialEq, Eq, Structural)]
pub enum Delim {
    Paren,
    Bracket,
    Brace,
}

impl Delim {
    /// The character that opens a group of this kind.
    pub open spec fn opener(self) -> char {
        match self {
            Delim::Paren => '(',
            Delim::Bracket => '[',
            Delim::Brace => '{',
        }
    }

    /// The character that closes a group of this kind.
    pub open spec fn closer(self) -> char {
        match self {
            Delim::Paren => ')',
            Delim::Bracket => ']',
            Delim::Brace => '}',
        }
    }

    /// The character that opens a group of this kind.
    pub fn open_char(self) -> (c: char)
        ensures
            c == self.opener(),
    {
        match self {
            Delim::Paren => '(',
            Delim::Bracket => '[',
            Delim::Brace => '{',
        }
    }

    /// The character that closes a group of this kind.
    pub fn close_char(self) -> (c: char)
        ensures
            c == self.closer(),
    {
        match self {
            Delim::Paren => ')',
            Delim::Bracket => ']',
            Delim::Brace => '}',
        }
    }
}

/// One token tree of an already lexed source text. Brackets are balanced by
/// construction: a bracketed run is one `Group`.
#[derive(Debug, PartialEq, Eq)]
pub enum Token {
    /// An identifier or keyword, by its text.
    Ident(String),
    /// A literal, by its text as written in the source.
    Literal(String),
    /// One punctuation character; the flag says that the next token is a
    /// punctuation character that follows it without a space, as the two
    /// halves of `::` do.
    Punct(char, bool),
    /// A bracketed run of token trees.
    Group(Delim, Vec<Token>),
}

/// The mathematical value of a token tree.
pub ghost enum Tree {
    Ident(Seq<char>),
    Literal(Seq<char>),
    Punct(char, bool),
    Group(Delim, Seq<Tree>),
}

/// The value of a token tree.
pub open spec fn tree_of(t: Token) -> Tree
    decreases t,
{
    match t {
        Token::Ident(s) => Tree::Ident(s@),
        Token::Literal(s) => Tree::Literal(s@),
        Token::Punct(c, joint) => Tree::Punct(c, joint),
        Token::Group(d, inner) => Tree::Group(
            d,
            Seq::new(
                inner@.len(),
                |i: int|
                    if 0 <= i < inner@.len() {
                        tree_of(inner@[i])
                    } else {
                        Tree::Group(d, Seq::empty())
                    },
            ),
        ),
    }
}

impl View for Token {
    type V = Tree;

    open spec fn view(&self) -> Tree {
        tree_of(*self)
    }
}

/// The values of a run of tokens, in order.
pub open spec fn trees(tokens: Seq<Token>) -> Seq<Tree> {
    Seq::new(tokens.len(), |i: int| tokens[i]@)
}

/// The value of a group is its bracket kind and the values of its tokens.
pub proof fn lemma_group_view(d: Delim, inner: Vec<Token>)
    ensures
        Token::Group(d, inner)@ == Tree::Group(d, trees(inner@)),
{
    let t = Token::Group(d, inner);
    assert(t@->Group_1.len() == inner@.len());
    assert(t@->Group_1 =~= trees(inner@));
}

/// The source text of one token tree: the token's own text, followed by a
/// space unless the token is a punctuation character joined to the next one.
pub open spec fn tree_source(t: Tree) -> Seq<char>
    decreases t,
{
    match t {
        Tree::Ident(s) => s.push(' '),
        Tree::Literal(s) => s.push(' '),
        Tree::Punct(c, joint) => if joint {
            seq![c]
        } else {
            seq![c, ' ']
        },
        Tree::Group(d, inner) => seq![d.opener()] + source(inner) + seq![d.closer(), ' '],
    }
}

/// The source text of a run of token trees: their texts one after another.
pub open spec fn source(ts: Seq<Tree>) -> Seq<char>
    decreases ts,
{
    if ts.len() == 0 {
        Seq::empty()
    } else {
        source(ts.drop_last()) + tree_source(ts.last())
    }
}

/// A copy of a token tree.
pub fn copy_token(t: &Token) -> (r: Token)
    ensures
        r@ == t@,
    decreases t,
{
    match t {
        Token::Ident(s) => Token::Ident(s.clone()),
        Token::Literal(s) => Token::Literal(s.clone()),
        Token::Punct(c, joint) => Token::Punct(*c, *joint),
        Token::Group(d, inner) => {
            let mut out: Vec<Token> = Vec::new();
            let mut i: usize = 0;
            while i < inner.len()
                invariant
                    *t == Token::Group(*d, *inner),
                    i <= inner.len(),
                    out@.len() == i,
                    forall|k: int| 0 <= k < i ==> out@[k]@ == inner@[k]@,
                decreases inner.len() - i,
            {
                proof {
                    broadcast use vstd::std_specs::vec::axiom_vec_index_decreases;

                    assert(decreases_to!(inner => inner[i as int]));
                    assert(decreases_to!(t => t->Group_1));
                }
                let c = copy_token(&inner[i]);
                out.push(c);
                i += 1;
            }
            let r = Token::Group(*d, out);
            proof {
                lemma_group_view(*d, out);
                lemma_group_view(*d, *inner);
                assert(trees(out@) =~= trees(inner@));
            }
            r
        },
    }
}

/// A copy of the tokens from `start` up to `end`.
pub fn copy_range(tokens: &Vec<Token>, start: usize, end: usize) -> (r: Vec<Token>)
    requires
        start <= end <= tokens.len(),
    ensures
        trees(r@) == trees(tokens@).subrange(start as int, end as int),
{
    let mut out: Vec<Token> = Vec::new();
    let mut i: usize = start;
    while i < end
        invariant
            start <= i <= end <= tokens.len(),
            out@.len() == i - start,
            forall|k: int| 0 <= k < i - start ==> out@[k]@ == tokens@[start + k]@,
        decreases end - i,
    {
        let c = copy_token(&tokens[i]);
        out.push(c);
        i += 1;
    }
    assert(trees(out@) =~= trees(tokens@).subrange(start as int, end as int));
    out
}

/// Appends the source text of one token tree to `out`.
pub fn write_token(t: &Token, out: &mut String)
    ensures
        final(out)@ == old(out)@ + tree_source(t@),
    decreases t, 0nat,
{
    match t {
        Token::Ident(s) => {
            out.append(s.as_str());
            push_char(out, ' ');
            assert(out@ =~= old(out)@ + tree_source(t@));
        },
        Token::Literal(s) => {
            out.append(s.as_str());
            push_char(out, ' ');
            assert(out@ =~= old(out)@ + tree_source(t@));
        },
        Token::Punct(c, joint) => {
            push_char(out, *c);
            if !*joint {
                push_char(out, ' ');
            }
            assert(out@ =~= old(out)@ + tree_source(t@));
        },
        Token::Group(d, inner) => {
            push_char(out, d.open_char());
            proof {
                assert(decreases_to!(t => t->Group_1));
            }
            write_tokens(inner, 0, inner.len(), out);
            push_char(out, d.close_char());
            push_char(out, ' ');
            proof {
                lemma_group_view(*d, *inner);
                assert(trees(inner@).subrange(0, inner@.len() as int) =~= trees(inner@));
                assert(out@ =~= old(out)@ + tree_source(t@));
            }
        },
    }
}

/// Appends the source text of the tokens from `start` up to `end` to `out`.
pub fn write_tokens(tokens: &Vec<Token>, start: usize, end: usize, out: &mut String)
    requires
        start <= end <= tokens.len(),
    ensures
        final(out)@ == old(out)@ + source(trees(tokens@).subrange(start as int, end as int)),
    decreases tokens, 1nat,
{
    let ghost ts = trees(tokens@);
    let mut i: usize = start;
    assert(ts.subrange(start as int, start as int) =~= Seq::<Tree>::empty());
    assert(out@ =~= old(out)@ + source(ts.subrange(start as int, i as int)));
    while i < end
        invariant
            ts == trees(tokens@),
            start <= i <= end <= tokens.len(),
            out@ == old(out)@ + source(ts.subrange(start as int, i as int)),
        decreases end - i,
    {
        proof {
            broadcast use vstd::std_specs::vec::axiom_vec_index_decreases;

            assert(decreases_to!(tokens => tokens[i as int]));
            let next = ts.subrange(start as int, i + 1);
            assert(next.drop_last() =~= ts.subrange(start as int, i as int));
            assert(next.last() == tokens@[i as int]@);
        }
        write_token(&tokens[i], out);
        i += 1;
        assert(out@ =~= old(out)@ + source(ts.subrange(start as int, i as int)));
    }
}

/// The source text of a run of tokens.
pub fn to_source(tokens: &Vec<Token>) -> (text: String)
    ensures
        text@ == source(trees(tokens@)),
{
    let mut out = String::new();
    write_tokens(tokens, 0, tokens.len(), &mut out);
    assert(trees(tokens@).subrange(0, tokens@.len() as int) =~= trees(tokens@));
    out
}

/// The values of a run of tokens with one more token are those of the run
/// with the value of the token.
pub proof fn lemma_trees_push(tokens: Seq<Token>, t: Token)
    ensures
        trees(tokens.push(t)) == trees(tokens).push(t@),
{
    assert(trees(tokens.push(t)) =~= trees(tokens).push(t@));
}

/// The values of two runs of tokens one after the other.
pub proof fn lemma_trees_add(a: Seq<Token>, b: Seq<Token>)
    ensures
        trees(a + b) == trees(a) + trees(b),
{
    assert(trees(a + b) =~= trees(a) + trees(b));
}

/// Appends an identifier or keyword.
pub fn push_word(out: &mut Vec<Token>, name: &str)
    ensures
        trees(final(out)@) == trees(old(out)@).push(Tree::Ident(name@)),
{
    let t = Token::Ident(String::from_str(name));
    proof {
        lemma_trees_push(out@, t);
    }
    out.push(t);
}

/// Appends one punctuation character.
pub fn push_punct(out: &mut Vec<Token>, c: char, joint: bool)
    ensures
        trees(final(out)@) == trees(old(out)@).push(Tree::Punct(c, joint)),
{
    let t = Token::Punct(c, joint);
    proof {
        lemma_trees_push(out@, t);
    }
    out.push(t);
}

/// Appends a bracketed run of tokens.
pub fn push_group(out: &mut Vec<Token>, delim: Delim, inner: Vec<Token>)
    ensures
        trees(final(out)@) == trees(old(out)@).push(Tree::Group(delim, trees(inner@))),
{
    let t = Token::Group(delim, inner);
    proof {
        lemma_group_view(delim, inner);
        lemma_trees_push(out@, t);
    }
    out.push(t);
}

/// Appends a run of tokens.
pub fn push_all(out: &mut Vec<Token>, more: Vec<Token>)
    ensures
        trees(final(out)@) == trees(old(out)@) + trees(more@),
{
    let mut more = more;
    proof {
        lemma_trees_add(out@, more@);
    }
    out.append(&mut more);
}

} // verus!
