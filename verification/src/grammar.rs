//! The grammar of an invocation, as functions on token trees.
//!
//! ```text
//! invocation := "" | items
//! items      := expr ("," expr)* ["," options] ["," closure]
//!             | options ["," closure]
//!             | closure
//! options    := "{" [pair ("," pair)*] "}"
//! pair       := identifier ":" expr
//! ```
//!
//! An item ends at the first comma at which the tokens read so far are a
//! whole item, so the commas between the parameters of a closure do not end
//! it. What a whole expression is, and which expressions are closures, is
//! decided by [`expr_kind`].

use crate::ast::{Invocation, ItemView, Pair, ShapeView};
use crate::error::{Extent, Failure, Fault};
use crate::text::{expr_kind, ExprKind};
use crate::token::{source, Delim, Tree};
use vstd::prelude::*;

verus! {

/// What the items of a comma-separated run are.
#[derive(Clone, Copy, Debug, PartialEq, Eq, Structural)]
pub enum Mode {
    /// Arguments of an invocation: an expression or a braced options object.
    Item,
    /// Named options: `key: value`.
    Pair,
    /// Elements of a list: an expression.
    Element,
}

/// The token is a comma.
pub open spec fn is_comma(t: Tree) -> bool {
    t matches Tree::Punct(c, _) && c == ','
}

/// The token is a colon.
pub open spec fn is_colon(t: Tree) -> bool {
    t matches Tree::Punct(c, _) && c == ':'
}

/// The run is one group in braces.
pub open spec fn is_braced(item: Seq<Tree>) -> bool {
    item.len() == 1 && (item[0] matches Tree::Group(d, _) && d == Delim::Brace)
}

/// The run is one group in square brackets.
pub open spec fn is_bracketed(item: Seq<Tree>) -> bool {
    item.len() == 1 && (item[0] matches Tree::Group(d, _) && d == Delim::Bracket)
}

/// The run spells one expression: it holds a token, and [`expr_kind`] reads
/// its source text as an expression.
pub open spec fn is_expr(item: Seq<Tree>) -> bool {
    item.len() > 0 && expr_kind(source(item)) != ExprKind::Invalid
}

/// The run spells an identifier, a colon and one expression.
pub open spec fn is_pair(item: Seq<Tree>) -> bool {
    &&& item.len() >= 2
    &&& item[0] is Ident
    &&& is_colon(item[1])
    &&& is_expr(item.skip(2))
}

/// The run is a whole item of the given kind.
pub open spec fn complete(mode: Mode, item: Seq<Tree>) -> bool {
    match mode {
        Mode::Item => is_braced(item) || is_expr(item),
        Mode::Pair => is_pair(item),
        Mode::Element => is_expr(item),
    }
}

/// The end of the item that starts at `start`: the first position from `k` on
/// that is a comma or the end of the run and at which the tokens from
/// `start` are a whole item. `None` where there is no such position.
pub open spec fn item_end(mode: Mode, ts: Seq<Tree>, start: int, k: int) -> Option<int>
    decreases ts.len() - k,
{
    if k >= ts.len() {
        if complete(mode, ts.subrange(start, ts.len() as int)) {
            Some(ts.len() as int)
        } else {
            None
        }
    } else if is_comma(ts[k]) && complete(mode, ts.subrange(start, k)) {
        Some(k)
    } else {
        item_end(mode, ts, start, k + 1)
    }
}

/// The position of the first comma from `k` on, or the end of the run.
pub open spec fn next_comma(ts: Seq<Tree>, k: int) -> int
    decreases ts.len() - k,
{
    if k >= ts.len() {
        ts.len() as int
    } else if is_comma(ts[k]) {
        k
    } else {
        next_comma(ts, k + 1)
    }
}

/// The end of an item lies between the position the search started from and
/// the end of the run.
pub proof fn lemma_item_end_bounds(mode: Mode, ts: Seq<Tree>, start: int, k: int)
    requires
        0 <= k <= ts.len(),
    ensures
        item_end(mode, ts, start, k) matches Some(e) ==> k <= e <= ts.len(),
    decreases ts.len() - k,
{
    if k < ts.len() && !(is_comma(ts[k]) && complete(mode, ts.subrange(start, k))) {
        lemma_item_end_bounds(mode, ts, start, k + 1);
    }
}

/// The items of the run from `start` on, each by the positions it takes.
/// Where the tokens after a comma, or from `start`, are the beginning of no
/// whole item, the result is the error: the place from there to the next
/// comma.
pub open spec fn split(mode: Mode, ts: Seq<Tree>, start: int) -> Result<Seq<Extent>, Extent>
    decreases ts.len() - start,
    when 0 <= start <= ts.len()
{
    match item_end(mode, ts, start, start) {
        None => Err(Extent { start, end: next_comma(ts, start) }),
        Some(e) => {
            let head = seq![Extent { start, end: e }];
            if e >= ts.len() {
                Ok(head)
            } else {
                proof {
                    lemma_item_end_bounds(mode, ts, start, start);
                }
                match split(mode, ts, e + 1) {
                    Ok(rest) => Ok(head + rest),
                    Err(x) => Err(x),
                }
            }
        },
    }
}

/// The named option spelled by the tokens at `x`.
pub open spec fn pair_at(ts: Seq<Tree>, x: Extent) -> Pair {
    Pair { key: ts[x.start]->Ident_0, value: ts.subrange(x.start + 2, x.end) }
}

/// The named options spelled by the tokens between the braces of an options
/// object, or `None` where they are not `key: value` pairs separated by
/// commas.
pub open spec fn pairs_of(inner: Seq<Tree>) -> Option<Seq<Pair>> {
    if inner.len() == 0 {
        Some(Seq::empty())
    } else {
        match split(Mode::Pair, inner, 0) {
            Ok(spans) => Some(Seq::new(spans.len(), |i: int| pair_at(inner, spans[i]))),
            Err(_) => None,
        }
    }
}

/// The expressions spelled by the tokens of one expression that is a list
/// `[a, b, ...]` with at least one element, or `None` where the expression has
/// another form.
pub open spec fn list_of(item: Seq<Tree>) -> Option<Seq<Seq<Tree>>> {
    if is_bracketed(item) {
        let inner = item[0]->Group_1;
        match split(Mode::Element, inner, 0) {
            Ok(spans) => Some(
                Seq::new(spans.len(), |i: int| inner.subrange(spans[i].start, spans[i].end)),
            ),
            Err(_) => None,
        }
    } else {
        None
    }
}

/// What the tokens of one item of an invocation are: the options object where
/// they are one group in braces, else the closure or a positional expression
/// as [`expr_kind`] says. The error is `Options` where the braces do not hold
/// named options, `Expression` where the tokens spell no expression.
pub open spec fn shape_of(item: Seq<Tree>) -> Result<ShapeView, Fault> {
    if is_braced(item) {
        match pairs_of(item[0]->Group_1) {
            Some(ps) => Ok(ShapeView::Options(ps)),
            None => Err(Fault::Options),
        }
    } else if !is_expr(item) {
        Err(Fault::Expression)
    } else if expr_kind(source(item)) == ExprKind::Closure {
        Ok(ShapeView::Closure(item))
    } else {
        Ok(ShapeView::Plain(item))
    }
}

/// The tokens at `x`, classified as one item; the error is their fault, at
/// `x`.
pub open spec fn classify_at(ts: Seq<Tree>, x: Extent) -> Result<ItemView, Failure> {
    match shape_of(ts.subrange(x.start, x.end)) {
        Ok(shape) => Ok(ItemView { shape, at: x }),
        Err(fault) => Err(Failure { fault, at: x }),
    }
}

/// The items of an invocation from `start` on, read one after another and
/// classified. The error is the first met in reading: the place where no
/// whole item begins, or the braced item that holds no named options.
pub open spec fn read(ts: Seq<Tree>, start: int) -> Result<Seq<ItemView>, Failure>
    decreases ts.len() - start,
    when 0 <= start <= ts.len()
{
    match item_end(Mode::Item, ts, start, start) {
        None => Err(
            Failure { fault: Fault::Expression, at: Extent { start, end: next_comma(ts, start) } },
        ),
        Some(e) => match classify_at(ts, Extent { start, end: e }) {
            Err(f) => Err(f),
            Ok(item) => if e >= ts.len() {
                Ok(seq![item])
            } else {
                proof {
                    lemma_item_end_bounds(Mode::Item, ts, start, start);
                }
                match read(ts, e + 1) {
                    Ok(rest) => Ok(seq![item] + rest),
                    Err(f) => Err(f),
                }
            },
        },
    }
}

/// The number of positional expressions before the first item from `k` on
/// that is none, added to `k`.
pub open spec fn positional_end(items: Seq<ItemView>, k: int) -> int
    decreases items.len() - k,
{
    if k >= items.len() {
        items.len() as int
    } else if items[k].shape is Plain {
        positional_end(items, k + 1)
    } else {
        k
    }
}

/// The positional expressions of the first `k` items.
pub open spec fn positional(items: Seq<ItemView>, k: int) -> Option<Seq<Seq<Tree>>> {
    if k <= 0 {
        None
    } else {
        Some(Seq::new(k as nat, |i: int| items[i].shape->Plain_0))
    }
}

/// The invocation that classified items make up. Positional expressions come
/// first. The first item that is none is the options object or the closure:
/// the closure must be the last item, the options object the last or the
/// last but one before a closure. The error names the item that is out of
/// place.
pub open spec fn assemble_spec(items: Seq<ItemView>) -> Result<Invocation, Failure> {
    let n = items.len() as int;
    let k = positional_end(items, 0);
    let elems = positional(items, k);
    if k >= n {
        Ok(Invocation { elems, opts: None, closure: None })
    } else {
        match items[k].shape {
            ShapeView::Plain(_) => Ok(Invocation { elems, opts: None, closure: None }),
            ShapeView::Closure(c) => if k + 1 == n {
                Ok(Invocation { elems, opts: None, closure: Some(c) })
            } else {
                Err(Failure { fault: Fault::ClosureNotLast, at: items[k].at })
            },
            ShapeView::Options(o) => if k + 1 == n {
                Ok(Invocation { elems, opts: Some(o), closure: None })
            } else if k + 2 == n && items[k + 1].shape is Closure {
                Ok(Invocation { elems, opts: Some(o), closure: Some(items[k + 1].shape->Closure_0) })
            } else {
                Err(Failure { fault: Fault::OptionsNotLast, at: items[k].at })
            },
        }
    }
}

/// The invocation that a run of tokens spells, or its syntax error. The
/// empty run spells the invocation without arguments. Any other run is read
/// item by item, and the items are put together; an error met in reading
/// comes before that of an item out of place.
pub open spec fn parse_spec(ts: Seq<Tree>) -> Result<Invocation, Failure> {
    if ts.len() == 0 {
        Ok(Invocation { elems: None, opts: None, closure: None })
    } else {
        match read(ts, 0) {
            Err(f) => Err(f),
            Ok(items) => assemble_spec(items),
        }
    }
}

/// The comma that separates two items.
pub open spec fn comma() -> Tree {
    Tree::Punct(',', false)
}

/// The runs one after another, with a comma between each two.
pub open spec fn join(runs: Seq<Seq<Tree>>) -> Seq<Tree>
    decreases runs.len(),
{
    if runs.len() == 0 {
        seq![]
    } else if runs.len() == 1 {
        runs[0]
    } else {
        join(runs.drop_last()) + seq![comma()] + runs.last()
    }
}

/// The tokens that spell a named option: `key : value`.
pub open spec fn pair_tokens(pair: Pair) -> Seq<Tree> {
    seq![Tree::Ident(pair.key), Tree::Punct(':', false)] + pair.value
}

/// The tokens that spell each of the named options.
pub open spec fn pair_runs(options: Seq<Pair>) -> Seq<Seq<Tree>> {
    Seq::new(options.len(), |i: int| pair_tokens(options[i]))
}

/// The tokens that spell an options object: one group in braces.
pub open spec fn object_tokens(options: Seq<Pair>) -> Seq<Tree> {
    seq![Tree::Group(Delim::Brace, join(pair_runs(options)))]
}

/// The items that spell an invocation: the positional expressions, then the
/// options object, then the closure.
pub open spec fn item_runs(inv: Invocation) -> Seq<Seq<Tree>> {
    (match inv.elems {
        Some(es) => es,
        None => seq![],
    }) + (match inv.opts {
        Some(o) => seq![object_tokens(o)],
        None => seq![],
    }) + (match inv.closure {
        Some(c) => seq![c],
        None => seq![],
    })
}

/// The tokens that spell an invocation.
pub open spec fn unparse(inv: Invocation) -> Seq<Tree> {
    join(item_runs(inv))
}

/// The run is a whole item, and no comma in it ends a whole item before its
/// end: read from its first token, the item ends where the run ends.
pub open spec fn minimal(mode: Mode, item: Seq<Tree>) -> bool {
    &&& complete(mode, item)
    &&& forall|k: int|
        0 <= k < item.len() && is_comma(#[trigger] item[k]) ==> !complete(
            mode,
            item.subrange(0, k),
        )
}

/// The run is an item that the parser reads as a positional expression.
pub open spec fn is_positional(item: Seq<Tree>) -> bool {
    minimal(Mode::Item, item) && shape_of(item) == Ok::<_, Fault>(ShapeView::Plain(item))
}

/// The run is an item that the parser reads as the closure.
pub open spec fn is_closure(item: Seq<Tree>) -> bool {
    minimal(Mode::Item, item) && shape_of(item) == Ok::<_, Fault>(ShapeView::Closure(item))
}

/// The invocation is one that the parser can return: there is a positional
/// expression where `elems` is present, every positional expression is read
/// as one, every named option is read as one, and the closure is read as
/// the closure.
pub open spec fn valid(inv: Invocation) -> bool {
    &&& inv.elems matches Some(es) ==> es.len() > 0 && forall|i: int|
        0 <= i < es.len() ==> is_positional(#[trigger] es[i])
    &&& inv.opts matches Some(o) ==> forall|i: int|
        0 <= i < o.len() ==> minimal(Mode::Pair, pair_tokens(#[trigger] o[i]))
    &&& inv.closure matches Some(c) ==> is_closure(c)
}

/// The item that the search finds is minimal, where no comma that the
/// search has passed ends a whole item.
pub proof fn lemma_item_end_minimal(mode: Mode, ts: Seq<Tree>, start: int, k: int)
    requires
        0 <= start <= k <= ts.len(),
        forall|j: int|
            start <= j < k && is_comma(#[trigger] ts[j]) ==> !complete(mode, ts.subrange(start, j)),
    ensures
        item_end(mode, ts, start, k) matches Some(e) ==> k <= e <= ts.len() && minimal(
            mode,
            ts.subrange(start, e),
        ),
    decreases ts.len() - k,
{
    if k < ts.len() && !(is_comma(ts[k]) && complete(mode, ts.subrange(start, k))) {
        lemma_item_end_minimal(mode, ts, start, k + 1);
    } else if item_end(mode, ts, start, k) is Some {
        let item = ts.subrange(start, k);
        assert forall|i: int| 0 <= i < item.len() && is_comma(#[trigger] item[i]) implies !complete(
            mode,
            item.subrange(0, i),
        ) by {
            assert(item[i] == ts[start + i]);
            assert(item.subrange(0, i) =~= ts.subrange(start, start + i));
        }
    }
}

/// The items that a run is split into are minimal.
pub proof fn lemma_split_minimal(mode: Mode, ts: Seq<Tree>, start: int)
    requires
        0 <= start <= ts.len(),
    ensures
        split(mode, ts, start) matches Ok(spans) ==> forall|i: int|
            0 <= i < spans.len() ==> {
                &&& start <= (#[trigger] spans[i]).start <= spans[i].end <= ts.len()
                &&& minimal(mode, ts.subrange(spans[i].start, spans[i].end))
            },
    decreases ts.len() - start,
{
    lemma_item_end_minimal(mode, ts, start, start);
    match item_end(mode, ts, start, start) {
        None => {},
        Some(e) => {
            if e < ts.len() {
                lemma_split_minimal(mode, ts, e + 1);
                match split(mode, ts, e + 1) {
                    Ok(rest) => {
                        let spans = seq![Extent { start, end: e }] + rest;
                        assert forall|i: int| 0 <= i < spans.len() implies {
                            &&& start <= (#[trigger] spans[i]).start <= spans[i].end <= ts.len()
                            &&& minimal(mode, ts.subrange(spans[i].start, spans[i].end))
                        } by {
                            if i > 0 {
                                assert(spans[i] == rest[i - 1]);
                            }
                        }
                    },
                    Err(_) => {},
                }
            }
        },
    }
}

} // verus!
