//! The parsed form of an invocation.

use crate::error::{Extent, Span};
use crate::token::{trees, Token, Tree};
use vstd::prelude::*;

verus! {

/// An expression, held as the run of tokens that spells it.
#[derive(Debug, PartialEq, Eq)]
pub struct Expr {
    pub tokens: Vec<Token>,
}

impl View for Expr {
    type V = Seq<Tree>;

    open spec fn view(&self) -> Seq<Tree> {
        trees(self.tokens@)
    }
}

/// The values of a run of expressions, in order.
pub open spec fn exprs(items: Seq<Expr>) -> Seq<Seq<Tree>> {
    Seq::new(items.len(), |i: int| items[i]@)
}

/// One named option, `key: value`.
#[derive(Debug, PartialEq, Eq)]
pub struct KvPair {
    pub key: String,
    pub value: Expr,
}

/// The mathematical value of a named option.
pub ghost struct Pair {
    pub key: Seq<char>,
    pub value: Seq<Tree>,
}

impl View for KvPair {
    type V = Pair;

    open spec fn view(&self) -> Pair {
        Pair { key: self.key@, value: self.value@ }
    }
}

/// The values of a run of named options, in order.
pub open spec fn pairs(items: Seq<KvPair>) -> Seq<Pair> {
    Seq::new(items.len(), |i: int| items[i]@)
}

/// An options object, `{ key: value, ... }`: named options in the order in
/// which they were written. A key may occur more than once.
#[derive(Debug, PartialEq, Eq)]
pub struct Object {
    pub pairs: Vec<KvPair>,
}

impl View for Object {
    type V = Seq<Pair>;

    open spec fn view(&self) -> Seq<Pair> {
        pairs(self.pairs@)
    }
}

/// A bracketed sequence of expressions, `[a, b, ...]`.
#[derive(Debug, PartialEq, Eq)]
pub struct List {
    pub items: Vec<Expr>,
}

impl View for List {
    type V = Seq<Seq<Tree>>;

    open spec fn view(&self) -> Seq<Seq<Tree>> {
        exprs(self.items@)
    }
}

/// The positional arguments, in the order in which they were written.
#[derive(Debug, PartialEq, Eq)]
pub struct Elems {
    pub items: Vec<Expr>,
}

impl View for Elems {
    type V = Seq<Seq<Tree>>;

    open spec fn view(&self) -> Seq<Seq<Tree>> {
        exprs(self.items@)
    }
}

/// One parsed invocation: positional arguments, then options, then a
/// closure, each of them optional.
#[derive(Debug, PartialEq, Eq)]
pub struct Args {
    pub elems: Option<Elems>,
    pub opts: Option<Object>,
    pub closure: Option<Expr>,
}

/// The mathematical value of a parsed invocation.
pub ghost struct Invocation {
    pub elems: Option<Seq<Seq<Tree>>>,
    pub opts: Option<Seq<Pair>>,
    pub closure: Option<Seq<Tree>>,
}

impl View for Args {
    type V = Invocation;

    open spec fn view(&self) -> Invocation {
        Invocation {
            elems: match self.elems {
                Some(e) => Some(e@),
                None => None,
            },
            opts: match self.opts {
                Some(o) => Some(o@),
                None => None,
            },
            closure: match self.closure {
                Some(c) => Some(c@),
                None => None,
            },
        }
    }
}

/// What one item of an invocation is.
#[derive(Debug, PartialEq, Eq)]
pub enum Shape {
    /// A positional expression.
    Plain(Expr),
    /// The options object.
    Options(Object),
    /// The closure.
    Closure(Expr),
}

/// The mathematical value of a shape.
pub ghost enum ShapeView {
    Plain(Seq<Tree>),
    Options(Seq<Pair>),
    Closure(Seq<Tree>),
}

impl View for Shape {
    type V = ShapeView;

    open spec fn view(&self) -> ShapeView {
        match self {
            Shape::Plain(e) => ShapeView::Plain(e@),
            Shape::Options(o) => ShapeView::Options(o@),
            Shape::Closure(c) => ShapeView::Closure(c@),
        }
    }
}

/// One classified item of an invocation, with the place it was read from.
#[derive(Debug, PartialEq, Eq)]
pub struct Item {
    pub shape: Shape,
    pub span: Span,
}

/// The mathematical value of a classified item.
pub ghost struct ItemView {
    pub shape: ShapeView,
    pub at: Extent,
}

impl View for Item {
    type V = ItemView;

    open spec fn view(&self) -> ItemView {
        ItemView { shape: self.shape@, at: self.span@ }
    }
}

/// The values of a run of classified items, in order.
pub open spec fn items_view(items: Seq<Item>) -> Seq<ItemView> {
    Seq::new(items.len(), |i: int| items[i]@)
}

} // verus!
