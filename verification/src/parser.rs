//! The parser: from a run of tokens to an [`Args`].

use crate::ast::{
    items_view, pairs, Args, Elems, Expr, Invocation, Item, ItemView, KvPair, List, Object, Pair,
    Shape,
};
use crate::error::{Extent, Failure, Fault, Span, SyntaxError};
use crate::grammar::{
    assemble_spec, classify_at, complete, is_colon, is_comma, item_end, lemma_split_minimal,
    list_of, next_comma,
    pair_at, pairs_of, parse_spec, positional, positional_end, read, split, valid, Mode,
};
use crate::laws::lemma_parse_valid;
use crate::text::{classify_text, expr_kind, ExprKind};
use crate::token::{
    copy_range, lemma_group_view, source, trees, write_tokens, Delim, Token, Tree,
};
use vstd::prelude::*;

verus! {

/// The positions of a run of spans, in order.
pub open spec fn extents(spans: Seq<Span>) -> Seq<Extent> {
    Seq::new(spans.len(), |i: int| spans[i]@)
}

/// The items found so far, followed by those of the rest of the run.
pub open spec fn prepend(done: Seq<Extent>, rest: Result<Seq<Extent>, Extent>) -> Result<
    Seq<Extent>,
    Extent,
> {
    match rest {
        Ok(more) => Ok(done + more),
        Err(x) => Err(x),
    }
}

fn is_comma_token(t: &Token) -> (r: bool)
    ensures
        r == is_comma(t@),
{
    match t {
        Token::Punct(c, _) => *c == ',',
        _ => false,
    }
}

fn is_colon_token(t: &Token) -> (r: bool)
    ensures
        r == is_colon(t@),
{
    match t {
        Token::Punct(c, _) => *c == ':',
        _ => false,
    }
}

fn is_ident_token(t: &Token) -> (r: bool)
    ensures
        r == (t@ is Ident),
{
    match t {
        Token::Ident(_) => true,
        _ => false,
    }
}

fn is_group_of(t: &Token, delim: Delim) -> (r: bool)
    ensures
        r == (t@ matches Tree::Group(d, _) && d == delim),
{
    match t {
        Token::Group(d, _) => *d == delim,
        _ => false,
    }
}

/// How the source text of the tokens from `start` up to `end` reads as one
/// expression. Leaves `proc-macro2` switched to its own lexer.
pub fn kind_of_range(tokens: &Vec<Token>, start: usize, end: usize) -> (kind: ExprKind)
    requires
        start <= end <= tokens.len(),
    ensures
        kind == expr_kind(source(trees(tokens@).subrange(start as int, end as int))),
{
    let mut text = String::new();
    write_tokens(tokens, start, end, &mut text);
    assert(text@ =~= source(trees(tokens@).subrange(start as int, end as int)));
    classify_text(text.as_str())
}

/// Whether the tokens from `start` up to `end` are a whole item.
pub fn is_complete(tokens: &Vec<Token>, start: usize, end: usize, mode: Mode) -> (r: bool)
    requires
        start <= end <= tokens.len(),
    ensures
        r == complete(mode, trees(tokens@).subrange(start as int, end as int)),
{
    let ghost item = trees(tokens@).subrange(start as int, end as int);
    match mode {
        Mode::Item => {
            if end - start == 1 && is_group_of(&tokens[start], Delim::Brace) {
                assert(item[0] == tokens@[start as int]@);
                true
            } else {
                proof {
                    if item.len() == 1 {
                        assert(item[0] == tokens@[start as int]@);
                    }
                }
                end > start && kind_of_range(tokens, start, end) != ExprKind::Invalid
            }
        },
        Mode::Pair => {
            if end - start > 2 && is_ident_token(&tokens[start]) && is_colon_token(
                &tokens[start + 1],
            ) {
                proof {
                    assert(item[0] == tokens@[start as int]@);
                    assert(item[1] == tokens@[start + 1]@);
                    assert(item.skip(2) =~= trees(tokens@).subrange(start + 2, end as int));
                }
                kind_of_range(tokens, start + 2, end) != ExprKind::Invalid
            } else {
                proof {
                    if item.len() >= 2 {
                        assert(item[0] == tokens@[start as int]@);
                        assert(item[1] == tokens@[start + 1]@);
                    }
                }
                false
            }
        },
        Mode::Element => end > start && kind_of_range(tokens, start, end) != ExprKind::Invalid,
    }
}

/// The end of the item that starts at `start`.
pub fn find_end(tokens: &Vec<Token>, start: usize, mode: Mode) -> (r: Option<usize>)
    requires
        start <= tokens.len(),
    ensures
        match r {
            Some(e) => start <= e <= tokens.len() && item_end(
                mode,
                trees(tokens@),
                start as int,
                start as int,
            ) == Some(e as int),
            None => item_end(mode, trees(tokens@), start as int, start as int) is None,
        },
{
    let ghost ts = trees(tokens@);
    let mut k: usize = start;
    while k < tokens.len()
        invariant
            ts == trees(tokens@),
            start <= k <= tokens.len(),
            item_end(mode, ts, start as int, start as int) == item_end(
                mode,
                ts,
                start as int,
                k as int,
            ),
        decreases tokens.len() - k,
    {
        assert(ts[k as int] == tokens@[k as int]@);
        if is_comma_token(&tokens[k]) && is_complete(tokens, start, k, mode) {
            return Some(k);
        }
        k += 1;
    }
    if is_complete(tokens, start, tokens.len(), mode) {
        Some(tokens.len())
    } else {
        None
    }
}

/// The position of the first comma from `start` on, or the number of tokens.
pub fn find_comma(tokens: &Vec<Token>, start: usize) -> (r: usize)
    requires
        start <= tokens.len(),
    ensures
        start <= r <= tokens.len(),
        r == next_comma(trees(tokens@), start as int),
{
    let ghost ts = trees(tokens@);
    let mut k: usize = start;
    while k < tokens.len()
        invariant
            ts == trees(tokens@),
            start <= k <= tokens.len(),
            next_comma(ts, start as int) == next_comma(ts, k as int),
        decreases tokens.len() - k,
    {
        assert(ts[k as int] == tokens@[k as int]@);
        if is_comma_token(&tokens[k]) {
            return k;
        }
        k += 1;
    }
    k
}

/// The items of a run of tokens, each by the positions it takes; the error is
/// the place where no whole item begins.
pub fn split_items(tokens: &Vec<Token>, mode: Mode) -> (r: Result<Vec<Span>, Span>)
    ensures
        match r {
            Ok(spans) => split(mode, trees(tokens@), 0) == Ok::<Seq<Extent>, Extent>(
                extents(spans@),
            ),
            Err(x) => split(mode, trees(tokens@), 0) == Err::<Seq<Extent>, Extent>(x@),
        },
{
    let ghost ts = trees(tokens@);
    let mut spans: Vec<Span> = Vec::new();
    let mut start: usize = 0;
    assert(extents(spans@) + split(mode, ts, 0)->Ok_0 =~= split(mode, ts, 0)->Ok_0);
    loop
        invariant
            ts == trees(tokens@),
            start <= tokens.len(),
            split(mode, ts, 0) == prepend(extents(spans@), split(mode, ts, start as int)),
        decreases tokens.len() - start,
    {
        match find_end(tokens, start, mode) {
            None => {
                let comma = find_comma(tokens, start);
                return Err(Span { start, end: comma });
            },
            Some(e) => {
                let ghost before = extents(spans@);
                let ghost head = seq![Extent { start: start as int, end: e as int }];
                spans.push(Span { start, end: e });
                assert(extents(spans@) =~= before + head);
                if e >= tokens.len() {
                    return Ok(spans);
                }
                proof {
                    match split(mode, ts, e + 1) {
                        Ok(rest) => {
                            assert(before + (head + rest) =~= (before + head) + rest);
                        },
                        Err(_) => {},
                    }
                }
                start = e + 1;
            },
        }
    }
}

/// The named options between the braces of an options object, or `None`
/// where the tokens are not `key: value` pairs separated by commas.
pub fn parse_pairs(inner: &Vec<Token>) -> (r: Option<Object>)
    ensures
        match r {
            Some(object) => pairs_of(trees(inner@)) == Some(object@),
            None => pairs_of(trees(inner@)) is None,
        },
{
    let ghost ts = trees(inner@);
    let mut out: Vec<KvPair> = Vec::new();
    if inner.len() == 0 {
        assert(pairs(out@) =~= Seq::<Pair>::empty());
        return Some(Object { pairs: out });
    }
    match split_items(inner, Mode::Pair) {
        Err(_) => None,
        Ok(spans) => {
            let ghost found = extents(spans@);
            proof {
                lemma_split_minimal(Mode::Pair, ts, 0);
            }
            let mut i: usize = 0;
            while i < spans.len()
                invariant
                    ts == trees(inner@),
                    found == extents(spans@),
                    split(Mode::Pair, ts, 0) == Ok::<Seq<Extent>, Extent>(found),
                    forall|j: int|
                        0 <= j < found.len() ==> {
                            &&& 0 <= (#[trigger] found[j]).start <= found[j].end <= ts.len()
                            &&& complete(Mode::Pair, ts.subrange(found[j].start, found[j].end))
                        },
                    i <= spans.len(),
                    out@.len() == i,
                    forall|j: int| 0 <= j < i ==> (#[trigger] out@[j])@ == pair_at(ts, found[j]),
                decreases spans.len() - i,
            {
                let span = spans[i];
                assert(found[i as int] == span@);
                let ghost item = ts.subrange(span.start as int, span.end as int);
                assert(item[0] == inner@[span.start as int]@);
                let key = match &inner[span.start] {
                    Token::Ident(name) => name.clone(),
                    _ => String::new(),
                };
                let value = Expr { tokens: copy_range(inner, span.start + 2, span.end) };
                out.push(KvPair { key, value });
                i += 1;
            }
            let object = Object { pairs: out };
            assert(object@ =~= Seq::new(found.len(), |i: int| pair_at(ts, found[i])));
            Some(object)
        },
    }
}

/// The tokens at `span`, classified as one item: the options object where
/// they are one group in braces, else the closure or a positional
/// expression. The error is `Options` where the braces do not hold named
/// options, `Expression` where the tokens spell no expression.
pub fn classify(tokens: &Vec<Token>, span: Span) -> (r: Result<Item, SyntaxError>)
    requires
        span.start <= span.end <= tokens.len(),
    ensures
        match r {
            Ok(item) => classify_at(trees(tokens@), span@) == Ok::<_, Failure>(item@),
            Err(e) => classify_at(trees(tokens@), span@) == Err::<ItemView, _>(e@),
        },
{
    let ghost item = trees(tokens@).subrange(span.start as int, span.end as int);
    if span.end - span.start == 1 {
        assert(item[0] == tokens@[span.start as int]@);
        match &tokens[span.start] {
            Token::Group(Delim::Brace, inner) => {
                proof {
                    lemma_group_view(Delim::Brace, *inner);
                }
                return match parse_pairs(inner) {
                    Some(object) => Ok(Item { shape: Shape::Options(object), span }),
                    None => Err(SyntaxError { fault: Fault::Options, span }),
                };
            },
            _ => {},
        }
    }
    if span.end == span.start {
        return Err(SyntaxError { fault: Fault::Expression, span });
    }
    let kind = kind_of_range(tokens, span.start, span.end);
    match kind {
        ExprKind::Invalid => Err(SyntaxError { fault: Fault::Expression, span }),
        ExprKind::Closure => Ok(
            Item { shape: Shape::Closure(Expr { tokens: copy_range(tokens, span.start, span.end) }), span },
        ),
        ExprKind::Plain => Ok(
            Item { shape: Shape::Plain(Expr { tokens: copy_range(tokens, span.start, span.end) }), span },
        ),
    }
}

/// The items read so far, followed by those of the rest of the run.
pub open spec fn prepend_items(
    done: Seq<ItemView>,
    rest: Result<Seq<ItemView>, Failure>,
) -> Result<Seq<ItemView>, Failure> {
    match rest {
        Ok(more) => Ok(done + more),
        Err(f) => Err(f),
    }
}

fn is_plain(item: &Item) -> (r: bool)
    ensures
        r == (item@.shape is Plain),
{
    match &item.shape {
        Shape::Plain(_) => true,
        _ => false,
    }
}

fn is_closure(item: &Item) -> (r: bool)
    ensures
        r == (item@.shape is Closure),
{
    match &item.shape {
        Shape::Closure(_) => true,
        _ => false,
    }
}

/// The number of positional expressions before the first item that is none.
fn count_positional(items: &Vec<Item>) -> (k: usize)
    ensures
        k <= items.len(),
        k == positional_end(items_view(items@), 0),
        forall|j: int| 0 <= j < k ==> (#[trigger] items@[j])@.shape is Plain,
        k < items.len() ==> !(items@[k as int]@.shape is Plain),
{
    let ghost view = items_view(items@);
    let mut k: usize = 0;
    while k < items.len()
        invariant
            view == items_view(items@),
            k <= items.len(),
            positional_end(view, 0) == positional_end(view, k as int),
            forall|j: int| 0 <= j < k ==> (#[trigger] items@[j])@.shape is Plain,
        decreases items.len() - k,
    {
        assert(view[k as int] == items@[k as int]@);
        if !is_plain(&items[k]) {
            return k;
        }
        k += 1;
    }
    k
}

/// The expressions of items that are all positional, or `None` where there
/// is no item.
fn into_elems(items: Vec<Item>) -> (r: Option<Elems>)
    requires
        forall|j: int| 0 <= j < items.len() ==> (#[trigger] items@[j])@.shape is Plain,
    ensures
        (match r {
            Some(e) => Some(e@),
            None => None,
        }) == positional(items_view(items@), items.len() as int),
{
    let ghost view = items_view(items@);
    let n = items.len();
    if n == 0 {
        return None;
    }
    let mut items = items;
    let mut back: Vec<Expr> = Vec::new();
    while items.len() > 0
        invariant
            items.len() + back.len() == n,
            forall|j: int| 0 <= j < items.len() ==> (#[trigger] items@[j])@ == view[j],
            forall|j: int| 0 <= j < n ==> (#[trigger] view[j]).shape is Plain,
            forall|j: int|
                0 <= j < back.len() ==> (#[trigger] back@[j])@ == view[n - 1 - j].shape->Plain_0,
        decreases items.len(),
    {
        let ghost last = items@[items.len() - 1];
        assert(last@ == view[items.len() - 1]);
        match items.pop() {
            Some(Item { shape: Shape::Plain(e), .. }) => {
                back.push(e);
            },
            _ => {
                assert(false);
            },
        }
    }
    let mut out: Vec<Expr> = Vec::new();
    while back.len() > 0
        invariant
            back.len() + out.len() == n,
            forall|j: int|
                0 <= j < back.len() ==> (#[trigger] back@[j])@ == view[n - 1 - j].shape->Plain_0,
            forall|j: int| 0 <= j < out.len() ==> (#[trigger] out@[j])@ == view[j].shape->Plain_0,
        decreases back.len(),
    {
        match back.pop() {
            Some(e) => {
                out.push(e);
            },
            None => {},
        }
    }
    let elems = Elems { items: out };
    assert(elems@ =~= Seq::new(n as nat, |i: int| view[i].shape->Plain_0));
    Some(elems)
}

/// Puts classified items together into an invocation. Positional
/// expressions come first. The first item that is none is the options object
/// or the closure: the closure must be the last item, the options object the
/// last or the last but one before a closure. The error names the item that
/// is out of place.
pub fn assemble(items: Vec<Item>) -> (r: Result<Args, SyntaxError>)
    ensures
        match r {
            Ok(args) => assemble_spec(items_view(items@)) == Ok::<_, Failure>(args@),
            Err(e) => assemble_spec(items_view(items@)) == Err::<Invocation, _>(e@),
        },
{
    let ghost view = items_view(items@);
    let n = items.len();
    let k = count_positional(&items);
    let mut items = items;
    let mut opts: Option<Object> = None;
    let mut closure: Option<Expr> = None;
    if k < n {
        assert(view[k as int] == items@[k as int]@);
        if is_closure(&items[k]) {
            if k + 1 != n {
                return Err(SyntaxError { fault: Fault::ClosureNotLast, span: items[k].span });
            }
        } else {
            if k + 1 != n {
                assert(view[k + 1] == items@[k + 1]@);
                if !(k + 2 == n && is_closure(&items[k + 1])) {
                    return Err(SyntaxError { fault: Fault::OptionsNotLast, span: items[k].span });
                }
            }
        }
        assert(view[n - 1] == items@[n - 1]@);
        if is_closure(&items[n - 1]) {
            match items.pop() {
                Some(Item { shape: Shape::Closure(c), .. }) => {
                    closure = Some(c);
                },
                _ => {
                    assert(false);
                },
            }
        }
        if items.len() > k {
            assert(view[k as int] == items@[k as int]@);
            match items.pop() {
                Some(Item { shape: Shape::Options(o), .. }) => {
                    opts = Some(o);
                },
                _ => {
                    assert(false);
                },
            }
        }
    }
    assert(items@.len() == k);
    assert forall|j: int| 0 <= j < k implies (#[trigger] items@[j])@ == view[j] by {}
    let ghost rest = items_view(items@);
    let elems = into_elems(items);
    let args = Args { elems, opts, closure };
    proof {
        match positional(view, k as int) {
            Some(ps) => {
                assert(positional(rest, k as int)->Some_0 =~= ps);
            },
            None => {},
        }
    }
    Ok(args)
}

/// Parses an invocation. The empty run of tokens is the invocation without
/// arguments. Any other run is read item by item: an item ends at the first
/// comma at which the tokens read are a whole item, and is classified by its
/// shape. The items are then put together. The error is the first met in
/// reading, the place where no whole item begins or the braced item that
/// holds no named options; or else the item that is out of place. What is
/// returned is valid: printed, it parses to itself. Leaves `proc-macro2`
/// switched to its own lexer.
pub fn parse(tokens: &Vec<Token>) -> (r: Result<Args, SyntaxError>)
    ensures
        match r {
            Ok(args) => parse_spec(trees(tokens@)) == Ok::<_, Failure>(args@) && valid(args@),
            Err(e) => parse_spec(trees(tokens@)) == Err::<Invocation, _>(e@),
        },
{
    let ghost ts = trees(tokens@);
    if tokens.len() == 0 {
        return Ok(Args { elems: None, opts: None, closure: None });
    }
    let mut items: Vec<Item> = Vec::new();
    let mut start: usize = 0;
    assert(items_view(items@) + read(ts, 0)->Ok_0 =~= read(ts, 0)->Ok_0);
    loop
        invariant
            ts == trees(tokens@),
            ts.len() > 0,
            start <= tokens.len(),
            read(ts, 0) == prepend_items(items_view(items@), read(ts, start as int)),
        decreases tokens.len() - start,
    {
        match find_end(tokens, start, Mode::Item) {
            None => {
                let comma = find_comma(tokens, start);
                return Err(
                    SyntaxError { fault: Fault::Expression, span: Span { start, end: comma } },
                );
            },
            Some(e) => {
                let item = match classify(tokens, Span { start, end: e }) {
                    Ok(item) => item,
                    Err(f) => {
                        return Err(f);
                    },
                };
                let ghost before = items_view(items@);
                let ghost head = seq![item@];
                items.push(item);
                assert(items_view(items@) =~= before + head);
                if e >= tokens.len() {
                    proof {
                        lemma_parse_valid(ts);
                    }
                    return assemble(items);
                }
                proof {
                    match read(ts, e + 1) {
                        Ok(rest) => {
                            assert(before + (head + rest) =~= (before + head) + rest);
                        },
                        Err(_) => {},
                    }
                }
                start = e + 1;
            },
        }
    }
}

/// The elements of an expression that is a list `[a, b, ...]` with at least
/// one element, or `None` where the expression has another form. Leaves
/// `proc-macro2` switched to its own lexer.
pub fn parse_list(expr: &Expr) -> (r: Option<List>)
    ensures
        match r {
            Some(list) => list_of(expr@) == Some(list@),
            None => list_of(expr@) is None,
        },
{
    if expr.tokens.len() != 1 {
        return None;
    }
    assert(expr@[0] == expr.tokens@[0]@);
    match &expr.tokens[0] {
        Token::Group(Delim::Bracket, inner) => {
            let ghost ts = trees(inner@);
            proof {
                lemma_group_view(Delim::Bracket, *inner);
            }
            match split_items(inner, Mode::Element) {
                Err(_) => None,
                Ok(spans) => {
                    let ghost found = extents(spans@);
                    proof {
                        lemma_split_minimal(Mode::Element, ts, 0);
                    }
                    let mut out: Vec<Expr> = Vec::new();
                    let mut i: usize = 0;
                    while i < spans.len()
                        invariant
                            ts == trees(inner@),
                            found == extents(spans@),
                            forall|j: int|
                                0 <= j < found.len() ==> 0 <= (#[trigger] found[j]).start
                                    <= found[j].end <= ts.len(),
                            i <= spans.len(),
                            out@.len() == i,
                            forall|j: int|
                                0 <= j < i ==> (#[trigger] out@[j])@ == ts.subrange(
                                    found[j].start,
                                    found[j].end,
                                ),
                        decreases spans.len() - i,
                    {
                        let span = spans[i];
                        assert(found[i as int] == span@);
                        out.push(Expr { tokens: copy_range(inner, span.start, span.end) });
                        i += 1;
                    }
                    let list = List { items: out };
                    assert(list@ =~= Seq::new(
                        found.len(),
                        |i: int| ts.subrange(found[i].start, found[i].end),
                    ));
                    Some(list)
                },
            }
        },
        _ => None,
    }
}

} // verus!
