//! What holds of the parser and the generator together.

use crate::ast::{Invocation, ItemView, Pair, ShapeView};
use crate::emit::{expansion, guarded, start, statements, steps, word, Step};
use crate::error::{Extent, Failure, Fault};
use crate::grammar::{
    assemble_spec, classify_at, comma, complete, is_braced, is_comma, is_positional, item_end,
    item_runs, join, lemma_item_end_bounds, lemma_split_minimal, minimal, object_tokens, pair_at,
    pair_runs, pair_tokens, pairs_of, parse_spec, positional, positional_end, read, shape_of,
    split, unparse, valid, Mode,
};
use crate::token::{Delim, Tree};
use vstd::prelude::*;

verus! {

/// The places that runs joined by commas take when the first starts at
/// `offset`.
pub open spec fn layout(runs: Seq<Seq<Tree>>, offset: int) -> Seq<Extent>
    decreases runs.len(),
{
    if runs.len() == 0 {
        seq![]
    } else {
        seq![Extent { start: offset, end: offset + runs[0].len() }] + layout(
            runs.drop_first(),
            offset + runs[0].len() + 1,
        )
    }
}

/// Joined runs are the first run, a comma, and the other runs joined.
pub proof fn lemma_join_front(runs: Seq<Seq<Tree>>)
    requires
        runs.len() >= 2,
    ensures
        join(runs) == runs[0] + seq![comma()] + join(runs.drop_first()),
    decreases runs.len(),
{
    if runs.len() == 2 {
        assert(runs.drop_last() =~= seq![runs[0]]);
        assert(runs.drop_first() =~= seq![runs[1]]);
        assert(join(runs.drop_last()) == runs[0]);
        assert(join(runs.drop_first()) == runs[1]);
    } else {
        lemma_join_front(runs.drop_last());
        assert(runs.drop_last().drop_first() =~= runs.drop_first().drop_last());
        assert(runs.drop_first().last() == runs.last());
        assert(runs.drop_last()[0] == runs[0]);
        assert(join(runs) =~= runs[0] + seq![comma()] + join(runs.drop_first()));
    }
}

/// An item that is minimal ends where it ends: read from its first token,
/// the first comma or end of the run at which the tokens are a whole item is
/// the end of the item.
pub proof fn lemma_item_end_of(mode: Mode, ts: Seq<Tree>, start: int, n: int, k: int)
    requires
        0 <= start <= k <= start + n <= ts.len(),
        minimal(mode, ts.subrange(start, start + n)),
        start + n == ts.len() || is_comma(ts[start + n]),
    ensures
        item_end(mode, ts, start, k) == Some(start + n),
    decreases start + n - k,
{
    let item = ts.subrange(start, start + n);
    if k < start + n {
        assert(item[k - start] == ts[k]);
        assert(item.subrange(0, k - start) =~= ts.subrange(start, k));
        lemma_item_end_of(mode, ts, start, n, k + 1);
    }
}

/// Runs that are minimal items, joined by commas behind any tokens, are split
/// into themselves.
pub proof fn lemma_split_join(mode: Mode, pre: Seq<Tree>, runs: Seq<Seq<Tree>>)
    requires
        runs.len() >= 1,
        forall|i: int| 0 <= i < runs.len() ==> minimal(mode, #[trigger] runs[i]),
    ensures
        split(mode, pre + join(runs), pre.len() as int) == Ok::<_, Extent>(
            layout(runs, pre.len() as int),
        ),
        layout(runs, pre.len() as int).len() == runs.len(),
        forall|i: int|
            0 <= i < runs.len() ==> {
                let x = #[trigger] layout(runs, pre.len() as int)[i];
                &&& pre.len() <= x.start <= x.end <= (pre + join(runs)).len()
                &&& (pre + join(runs)).subrange(x.start, x.end) == runs[i]
            },
    decreases runs.len(),
{
    let p = pre.len() as int;
    let ts = pre + join(runs);
    let first = runs[0];
    let n = first.len() as int;
    let rest = runs.drop_first();
    if runs.len() == 1 {
        assert(ts.subrange(p, p + n) =~= first);
        lemma_item_end_of(mode, ts, p, n, p);
        assert(layout(rest, p + n + 1) =~= Seq::<Extent>::empty());
        assert(layout(runs, p) =~= seq![Extent { start: p, end: p + n }]);
    } else {
        lemma_join_front(runs);
        let longer = pre + first + seq![comma()];
        assert(ts =~= longer + join(rest));
        assert(ts.subrange(p, p + n) =~= first);
        assert(ts[p + n] == comma());
        lemma_item_end_of(mode, ts, p, n, p);
        assert forall|i: int| 0 <= i < rest.len() implies minimal(mode, #[trigger] rest[i]) by {
            assert(rest[i] == runs[i + 1]);
        }
        lemma_split_join(mode, longer, rest);
        let tail = layout(rest, p + n + 1);
        let all = layout(runs, p);
        assert(all =~= seq![Extent { start: p, end: p + n }] + tail);
        assert forall|i: int| 0 <= i < runs.len() implies {
            let x = #[trigger] all[i];
            &&& p <= x.start <= x.end <= ts.len()
            &&& ts.subrange(x.start, x.end) == runs[i]
        } by {
            if i > 0 {
                assert(all[i] == tail[i - 1]);
                assert(rest[i - 1] == runs[i]);
            }
        }
    }
}

/// Named options that are minimal items, spelled out and joined by commas,
/// are read back as themselves.
pub proof fn lemma_pairs_of_join(options: Seq<Pair>)
    requires
        forall|i: int|
            0 <= i < options.len() ==> minimal(Mode::Pair, pair_tokens(#[trigger] options[i])),
    ensures
        pairs_of(join(pair_runs(options))) == Some(options),
{
    let runs = pair_runs(options);
    let inner = join(runs);
    if options.len() == 0 {
        assert(options =~= Seq::<Pair>::empty());
    } else {
        lemma_split_join(Mode::Pair, seq![], runs);
        assert(seq![] + inner =~= inner);
        let spans = layout(runs, 0);
        assert(runs[0].len() > 0);
        assert(inner.subrange(spans[0].start, spans[0].end) == runs[0]);
        assert(inner.len() > 0);
        let found = Seq::new(spans.len(), |i: int| pair_at(inner, spans[i]));
        assert forall|i: int| 0 <= i < options.len() implies found[i] == options[i] by {
            let x = spans[i];
            let run = pair_tokens(options[i]);
            assert(inner.subrange(x.start, x.end) == runs[i]);
            assert(run[0] == inner[x.start]) by {
                assert(inner.subrange(x.start, x.end)[0] == inner[x.start]);
            }
            assert(inner.subrange(x.start + 2, x.end) =~= inner.subrange(x.start, x.end).skip(2));
            assert(run.skip(2) =~= options[i].value);
        }
        assert(found =~= options);
    }
}

/// What each of the places holds, classified.
pub open spec fn classified(ts: Seq<Tree>, spans: Seq<Extent>) -> Seq<ItemView> {
    Seq::new(spans.len(), |i: int| classify_at(ts, spans[i])->Ok_0)
}

/// Where a run is split into items and each item is classified without
/// error, the run is read as those items.
pub proof fn lemma_read_ok(ts: Seq<Tree>, start: int)
    requires
        0 <= start <= ts.len(),
        split(Mode::Item, ts, start) is Ok,
        forall|i: int|
            0 <= i < split(Mode::Item, ts, start)->Ok_0.len() ==> classify_at(
                ts,
                #[trigger] split(Mode::Item, ts, start)->Ok_0[i],
            ) is Ok,
    ensures
        read(ts, start) == Ok::<_, Failure>(classified(ts, split(Mode::Item, ts, start)->Ok_0)),
    decreases ts.len() - start,
{
    let spans = split(Mode::Item, ts, start)->Ok_0;
    let e = item_end(Mode::Item, ts, start, start)->Some_0;
    lemma_item_end_bounds(Mode::Item, ts, start, start);
    assert(spans[0] == Extent { start, end: e });
    if e >= ts.len() {
        assert(classified(ts, spans) =~= seq![classify_at(ts, spans[0])->Ok_0]);
    } else {
        let rest = split(Mode::Item, ts, e + 1)->Ok_0;
        assert forall|i: int| 0 <= i < rest.len() implies classify_at(ts, #[trigger] rest[i])
            is Ok by {
            assert(spans[i + 1] == rest[i]);
        }
        lemma_read_ok(ts, e + 1);
        assert(classified(ts, spans) =~= seq![classify_at(ts, spans[0])->Ok_0] + classified(
            ts,
            rest,
        ));
    }
}

/// Where a run is read without error, it is split into items, and the items
/// read are what the items are classified as.
pub proof fn lemma_read_items(ts: Seq<Tree>, start: int)
    requires
        0 <= start <= ts.len(),
    ensures
        read(ts, start) matches Ok(items) ==> {
            &&& split(Mode::Item, ts, start) is Ok
            &&& items.len() == split(Mode::Item, ts, start)->Ok_0.len()
            &&& forall|i: int|
                0 <= i < items.len() ==> classify_at(ts, split(Mode::Item, ts, start)->Ok_0[i])
                    == Ok::<_, Failure>(#[trigger] items[i])
        },
    decreases ts.len() - start,
{
    lemma_item_end_bounds(Mode::Item, ts, start, start);
    match read(ts, start) {
        Err(_) => {},
        Ok(items) => {
            let e = item_end(Mode::Item, ts, start, start)->Some_0;
            if e < ts.len() {
                lemma_read_items(ts, e + 1);
                let spans = split(Mode::Item, ts, start)->Ok_0;
                let rest = split(Mode::Item, ts, e + 1)->Ok_0;
                let more = read(ts, e + 1)->Ok_0;
                assert forall|i: int| 0 <= i < items.len() implies classify_at(ts, spans[i])
                    == Ok::<_, Failure>(#[trigger] items[i]) by {
                    if i > 0 {
                        assert(spans[i] == rest[i - 1]);
                        assert(items[i] == more[i - 1]);
                    }
                }
            }
        },
    }
}

/// Where the items from `k` up to `m` are positional expressions and the item
/// at `m`, if there is one, is none, the positional expressions from `k` on
/// end at `m`.
pub proof fn lemma_positional_end(items: Seq<ItemView>, k: int, m: int)
    requires
        0 <= k <= m <= items.len(),
        forall|j: int| k <= j < m ==> (#[trigger] items[j]).shape is Plain,
        m < items.len() ==> !(items[m].shape is Plain),
    ensures
        positional_end(items, k) == m,
    decreases m - k,
{
    if k < m {
        lemma_positional_end(items, k + 1, m);
    }
}

/// Round trip: the tokens that spell a valid invocation are parsed as that
/// invocation.
pub proof fn lemma_round_trip(inv: Invocation)
    requires
        valid(inv),
    ensures
        parse_spec(unparse(inv)) == Ok::<_, Failure>(inv),
{
    let runs = item_runs(inv);
    let ts = unparse(inv);
    let es = match inv.elems {
        Some(es) => es,
        None => seq![],
    };
    let m = es.len() as int;
    if runs.len() == 0 {
        assert(inv.elems is None);
    } else {
        // What each run is read as.
        let shapes = Seq::new(
            runs.len(),
            |i: int|
                if i < m {
                    ShapeView::Plain(es[i])
                } else if inv.opts is Some && i == m {
                    ShapeView::Options(inv.opts->Some_0)
                } else {
                    ShapeView::Closure(inv.closure->Some_0)
                },
        );
        assert forall|i: int| 0 <= i < runs.len() implies minimal(Mode::Item, #[trigger] runs[i])
            && shape_of(runs[i]) == Ok::<_, Fault>(shapes[i]) by {
            if i < m {
                assert(runs[i] == es[i]);
            } else if inv.opts is Some && i == m {
                let o = inv.opts->Some_0;
                assert(runs[i] == object_tokens(o));
                lemma_pairs_of_join(o);
                assert(is_braced(runs[i]));
            } else {
                assert(runs[i] == inv.closure->Some_0);
            }
        }
        lemma_split_join(Mode::Item, seq![], runs);
        assert(seq![] + ts =~= ts);
        let spans = layout(runs, 0);
        assert(ts.subrange(spans[0].start, spans[0].end) == runs[0]);
        assert(runs[0].len() > 0);
        assert(ts.len() > 0);
        let items = Seq::new(runs.len(), |i: int| ItemView { shape: shapes[i], at: spans[i] });
        assert forall|i: int| 0 <= i < spans.len() implies classify_at(ts, #[trigger] spans[i])
            == Ok::<_, Failure>(items[i]) by {
            assert(ts.subrange(spans[i].start, spans[i].end) == runs[i]);
        }
        lemma_read_ok(ts, 0);
        assert(classified(ts, spans) =~= items);
        lemma_positional_end(items, 0, m);
        match positional(items, m) {
            Some(found) => {
                assert(found =~= es);
            },
            None => {},
        }
    }
}

/// A named option that is a minimal item stays one when it is spelled anew
/// from its key and its value.
pub proof fn lemma_respelled_pair(item: Seq<Tree>)
    requires
        minimal(Mode::Pair, item),
    ensures
        minimal(Mode::Pair, pair_tokens(Pair { key: item[0]->Ident_0, value: item.skip(2) })),
{
    let anew = pair_tokens(Pair { key: item[0]->Ident_0, value: item.skip(2) });
    assert(anew.len() == item.len());
    assert(anew.skip(2) =~= item.skip(2));
    assert forall|k: int| 0 <= k < anew.len() && is_comma(#[trigger] anew[k]) implies !complete(
        Mode::Pair,
        anew.subrange(0, k),
    ) by {
        assert(k >= 2);
        assert(anew[k] == item[k]);
        assert(anew.subrange(0, k).skip(2) =~= item.subrange(0, k).skip(2));
    }
}

/// The named options read from between the braces of an options object are
/// minimal items when spelled anew.
pub proof fn lemma_pairs_of_minimal(inner: Seq<Tree>)
    ensures
        pairs_of(inner) matches Some(options) ==> forall|i: int|
            0 <= i < options.len() ==> minimal(Mode::Pair, pair_tokens(#[trigger] options[i])),
{
    if inner.len() > 0 {
        lemma_split_minimal(Mode::Pair, inner, 0);
        match split(Mode::Pair, inner, 0) {
            Ok(spans) => {
                let options = pairs_of(inner)->Some_0;
                assert forall|i: int| 0 <= i < options.len() implies minimal(
                    Mode::Pair,
                    pair_tokens(#[trigger] options[i]),
                ) by {
                    let x = spans[i];
                    let item = inner.subrange(x.start, x.end);
                    assert(item[0] == inner[x.start]);
                    assert(item.skip(2) =~= inner.subrange(x.start + 2, x.end));
                    lemma_respelled_pair(item);
                }
            },
            Err(_) => {},
        }
    }
}

/// The positional expressions from `k` on end at or behind `k`, all items up
/// to the end are positional expressions, and the item at the end is none.
pub proof fn lemma_positional_end_is(items: Seq<ItemView>, k: int)
    requires
        0 <= k <= items.len(),
    ensures
        k <= positional_end(items, k) <= items.len(),
        forall|j: int| k <= j < positional_end(items, k) ==> (#[trigger] items[j]).shape is Plain,
        positional_end(items, k) < items.len() ==> !(items[positional_end(items, k)].shape
            is Plain),
    decreases items.len() - k,
{
    if k < items.len() && items[k].shape is Plain {
        lemma_positional_end_is(items, k + 1);
    }
}

/// What the parser returns is a valid invocation.
pub proof fn lemma_parse_valid(ts: Seq<Tree>)
    ensures
        parse_spec(ts) matches Ok(inv) ==> valid(inv),
{
    if ts.len() > 0 {
        match read(ts, 0) {
            Err(_) => {},
            Ok(items) => {
                lemma_read_items(ts, 0);
                let spans = split(Mode::Item, ts, 0)->Ok_0;
                lemma_split_minimal(Mode::Item, ts, 0);
                lemma_positional_end_is(items, 0);
                let k = positional_end(items, 0);
                assert forall|i: int| 0 <= i < items.len() implies {
                    let run = ts.subrange(spans[i].start, spans[i].end);
                    &&& minimal(Mode::Item, run)
                    &&& shape_of(run) == Ok::<_, Fault>((#[trigger] items[i]).shape)
                } by {
                    assert(classify_at(ts, spans[i]) == Ok::<_, Failure>(items[i]));
                }
                match assemble_spec(items) {
                    Err(_) => {},
                    Ok(inv) => {
                        match inv.elems {
                            Some(es) => {
                                assert forall|i: int| 0 <= i < es.len() implies is_positional(
                                    #[trigger] es[i],
                                ) by {
                                    assert(items[i].shape is Plain);
                                }
                            },
                            None => {},
                        }
                        match inv.opts {
                            Some(o) => {
                                let run = ts.subrange(spans[k].start, spans[k].end);
                                assert(shape_of(run) == Ok::<_, Fault>(items[k].shape));
                                lemma_pairs_of_minimal(run[0]->Group_1);
                            },
                            None => {},
                        }
                        match inv.closure {
                            Some(c) => {
                                let at = if items[k].shape is Closure {
                                    k
                                } else {
                                    k + 1
                                };
                                assert(items[at].shape == ShapeView::Closure(c));
                            },
                            None => {},
                        }
                    },
                }
            },
        }
    }
}

/// Joined runs are at least as long as the last of them.
pub proof fn lemma_join_len(runs: Seq<Seq<Tree>>)
    requires
        runs.len() > 0,
    ensures
        join(runs).len() >= runs.last().len(),
{
}

/// The tokens that spell what the parser returns are none exactly where the
/// run that was parsed held none.
pub proof fn lemma_unparse_empty(ts: Seq<Tree>)
    ensures
        parse_spec(ts) matches Ok(inv) ==> (unparse(inv).len() == 0 <==> ts.len() == 0),
{
    lemma_parse_valid(ts);
    match parse_spec(ts) {
        Err(_) => {},
        Ok(inv) => {
            let runs = item_runs(inv);
            if ts.len() > 0 {
                lemma_read_items(ts, 0);
                lemma_item_end_bounds(Mode::Item, ts, 0, 0);
                let items = read(ts, 0)->Ok_0;
                assert(items.len() >= 1);
                lemma_positional_end_is(items, 0);
                assert(runs.len() >= 1);
                assert(runs.last().len() > 0);
                lemma_join_len(runs);
            } else {
                assert(runs =~= Seq::<Seq<Tree>>::empty());
            }
        },
    }
}

/// Round trip: what the parser returns for a run of tokens, it returns again
/// for the tokens that spell the result.
pub proof fn lemma_reparse(ts: Seq<Tree>)
    ensures
        parse_spec(ts) matches Ok(inv) ==> parse_spec(unparse(inv)) == Ok::<_, Failure>(inv),
{
    lemma_parse_valid(ts);
    match parse_spec(ts) {
        Ok(inv) => {
            lemma_round_trip(inv);
        },
        Err(_) => {},
    }
}

/// Round trip of the expansion: the tokens that spell what the parser
/// returns for a run of tokens expand to what the run expands to.
pub proof fn lemma_reexpand(ts: Seq<Tree>)
    ensures
        parse_spec(ts) matches Ok(inv) ==> expansion(unparse(inv)) == expansion(ts),
{
    lemma_reparse(ts);
    lemma_unparse_empty(ts);
}

/// Among classified items, a closure that is followed by another item, and
/// an options object that is followed by anything but one closure, is an
/// error.
pub proof fn lemma_assemble_out_of_place(items: Seq<ItemView>, i: int)
    requires
        0 <= i < items.len(),
        (items[i].shape is Closure && i + 1 < items.len()) || (items[i].shape is Options && !(i
            + 1 == items.len() || (i + 2 == items.len() && items[i + 1].shape is Closure))),
    ensures
        assemble_spec(items) is Err,
{
    lemma_positional_end_is(items, 0);
}

/// In an invocation, an item in braces that is followed by anything but one
/// closure, and a closure that is followed by another item, is a syntax
/// error.
pub proof fn lemma_out_of_place(ts: Seq<Tree>, i: int)
    requires
        ts.len() > 0,
        split(Mode::Item, ts, 0) is Ok,
        0 <= i < split(Mode::Item, ts, 0)->Ok_0.len(),
        ({
            let spans = split(Mode::Item, ts, 0)->Ok_0;
            let run = ts.subrange(spans[i].start, spans[i].end);
            let last = spans.len() - 1;
            let end = ts.subrange(spans[last].start, spans[last].end);
            ||| shape_of(run) matches Ok(ShapeView::Closure(_)) && i < last
            ||| is_braced(run) && i < last && !(i + 1 == last && shape_of(end) matches Ok(
                ShapeView::Closure(_),
            ))
        }),
    ensures
        parse_spec(ts) is Err,
{
    let spans = split(Mode::Item, ts, 0)->Ok_0;
    lemma_read_items(ts, 0);
    match read(ts, 0) {
        Err(_) => {},
        Ok(items) => {
            let last = spans.len() - 1;
            assert(classify_at(ts, spans[i]) == Ok::<_, Failure>(items[i]));
            assert(classify_at(ts, spans[last]) == Ok::<_, Failure>(items[last]));
            lemma_assemble_out_of_place(items, i);
        },
    }
}

/// The place of a step among the three parts of an invocation.
pub open spec fn slot(step: Step) -> int {
    match step {
        Step::Append(_) => 0,
        Step::Merge(_) => 1,
        Step::Attach(_) => 2,
    }
}

/// The steps of an invocation never cross the parts: every `Append` comes
/// before the `Merge`, which comes before the `Attach`, and there is at most
/// one `Merge` and at most one `Attach`. The `Append` steps hold the
/// positional expressions in their order.
pub proof fn lemma_steps_in_order(inv: Invocation)
    ensures
        forall|i: int, j: int|
            0 <= i < j < steps(inv).len() ==> {
                let a = slot(#[trigger] steps(inv)[i]);
                let b = slot(#[trigger] steps(inv)[j]);
                a <= b && (a == b ==> a == 0)
            },
        inv.elems matches Some(es) ==> es.len() <= steps(inv).len() && forall|i: int|
            0 <= i < es.len() ==> #[trigger] steps(inv)[i] == Step::Append(es[i]),
{
}

/// The block that runs the given steps.
pub open spec fn block(steps: Seq<Step>) -> Seq<Tree> {
    seq![Tree::Group(Delim::Brace, start() + statements(steps) + seq![word("__args"@)])]
}

/// One `Append` step for each expression, in order.
pub open spec fn appends(es: Seq<Seq<Tree>>) -> Seq<Step> {
    Seq::new(es.len(), |i: int| Step::Append(es[i]))
}

/// Positional expressions alone: the expansion appends each of them, in
/// their order, and does nothing else.
pub proof fn lemma_positional_only(es: Seq<Seq<Tree>>)
    requires
        es.len() > 0,
        forall|i: int| 0 <= i < es.len() ==> is_positional(#[trigger] es[i]),
    ensures
        expansion(join(es)) == Ok::<_, Failure>(guarded(block(appends(es)))),
{
    let inv = Invocation { elems: Some(es), opts: None, closure: None };
    lemma_round_trip(inv);
    assert(item_runs(inv) =~= es);
    assert(steps(inv) =~= appends(es));
}

/// Positional expressions followed by an options object: the expansion
/// appends each of the expressions, in their order, and then merges the
/// options.
pub proof fn lemma_positional_then_options(es: Seq<Seq<Tree>>, options: Seq<Pair>)
    requires
        forall|i: int| 0 <= i < es.len() ==> is_positional(#[trigger] es[i]),
        forall|i: int|
            0 <= i < options.len() ==> minimal(Mode::Pair, pair_tokens(#[trigger] options[i])),
    ensures
        expansion(join(es.push(object_tokens(options)))) == Ok::<_, Failure>(
            guarded(block(appends(es).push(Step::Merge(options)))),
        ),
{
    let elems = if es.len() == 0 {
        None
    } else {
        Some(es)
    };
    let inv = Invocation { elems, opts: Some(options), closure: None };
    lemma_round_trip(inv);
    assert(item_runs(inv) =~= es.push(object_tokens(options)));
    assert(steps(inv) =~= appends(es).push(Step::Merge(options)));
    let ts = unparse(inv);
    if ts.len() == 0 {
        assert(parse_spec(ts) == Ok::<_, Failure>(
            Invocation { elems: None, opts: None, closure: None },
        ));
    }
}

} // verus!
