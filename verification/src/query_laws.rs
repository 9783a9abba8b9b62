//! What a search promises as a whole: its results are matching items, best first, none
//! twice, at most as many as asked for, and no matching item that was left out ranks
//! before one that was returned.

use vstd::prelude::*;
use crate::domain::SearchItem;
use crate::query::{search_hits, score_text, rounded_millionths, digit_char, relevance, rank_key, value_or_zero, hit_view, item_relevance, matching_upto, query_tokens, rank_order, ranking, raw_uppercase, lemma_rank_order, truncate};
use crate::sorting::{lemma_sort_by, sort_by, sorted_by};
use crate::ipc::{response_bytes, response_of, Fault, ResponseView};
use crate::ipc_laws::{lemma_response_round_trip, wire_score};
use crate::domain::ItemKind;
use crate::wire::{digit_run, float_literal};
use vstd::utf8::{encode_utf8, is_ascii_chars, is_ascii_chars_encode_utf8};

verus! {

broadcast use vstd::seq_lib::to_multiset_contains;

/// The matching indices below `n` rise strictly, lie below `n`, match, and include every
/// matching index below `n`.
pub proof fn lemma_matching_upto(items: Seq<SearchItem>, tokens: Seq<Seq<char>>, upper: bool, n: int)
    requires
        0 <= n <= items.len(),
    ensures
        forall|j: int, k: int|
            0 <= j < k < matching_upto(items, tokens, upper, n).len() ==> #[trigger] matching_upto(
                items,
                tokens,
                upper,
                n,
            )[j] < #[trigger] matching_upto(items, tokens, upper, n)[k],
        forall|j: int|
            0 <= j < matching_upto(items, tokens, upper, n).len() ==> 0 <= #[trigger] matching_upto(
                items,
                tokens,
                upper,
                n,
            )[j] < n && item_relevance(items[matching_upto(items, tokens, upper, n)[j]], tokens, upper) is Some,
        forall|e: int|
            0 <= e < n && (#[trigger] item_relevance(items[e], tokens, upper)) is Some ==> matching_upto(
                items,
                tokens,
                upper,
                n,
            ).contains(e),
    decreases n,
{
    if n > 0 {
        lemma_matching_upto(items, tokens, upper, n - 1);
        let rest = matching_upto(items, tokens, upper, n - 1);
        let m = matching_upto(items, tokens, upper, n);
        assert forall|e: int| 0 <= e < n && (#[trigger] item_relevance(items[e], tokens, upper)) is Some implies m.contains(
            e,
        ) by {
            if e < n - 1 {
                let j = choose|j: int| 0 <= j < rest.len() && rest[j] == e;
                assert(m[j] == e);
            } else {
                assert(m[m.len() - 1] == e);
            }
        }
    }
}

/// A strictly rising sequence, sorted and cut to `limit`: sorted, without duplicates,
/// made of its elements, complete when shorter than `limit`, and nothing left out
/// orders before what was kept.
pub proof fn lemma_sorted_prefix(m: Seq<int>, lt: spec_fn(int, int) -> bool, limit: nat)
    requires
        crate::sorting::strict_weak_order(lt),
        forall|j: int, k: int| 0 <= j < k < m.len() ==> #[trigger] m[j] < #[trigger] m[k],
    ensures
        ({
            let r = truncate(sort_by(m, lt), limit);
            &&& sorted_by(r, lt)
            &&& r.no_duplicates()
            &&& r.len() <= limit
            &&& forall|j: int| 0 <= j < r.len() ==> m.contains(#[trigger] r[j])
            &&& forall|e: int| #[trigger] m.contains(e) && r.len() < limit ==> r.contains(e)
            &&& forall|e: int, j: int| #[trigger] m.contains(e) && !r.contains(e) && 0 <= j < r.len() ==> !lt(e, #[trigger] r[j])
        }),
{
    let s = sort_by(m, lt);
    let r = truncate(s, limit);
    lemma_sort_by(m, lt);
    assert(m.no_duplicates());
    m.lemma_multiset_has_no_duplicates();
    assert forall|x: int| s.to_multiset().contains(x) implies s.to_multiset().count(x) == 1 by {}
    s.lemma_multiset_has_no_duplicates_conv();
    assert forall|j: int| 0 <= j < r.len() implies m.contains(#[trigger] r[j]) by {
        assert(r[j] == s[j]);
        assert(s.to_multiset().count(s[j]) > 0);
    }
    assert forall|e: int| #[trigger] m.contains(e) implies s.contains(e) by {
        assert(m.to_multiset().count(e) > 0);
    }
    assert forall|e: int, j: int| #[trigger] m.contains(e) && !r.contains(e) && 0 <= j < r.len() implies !lt(
        e,
        #[trigger] r[j],
    ) by {
        assert(s.contains(e));
        let q = choose|q: int| 0 <= q < s.len() && s[q] == e;
        if q < r.len() {
            assert(r[q] == e);
        }
        assert(r[j] == s[j]);
    }
    assert(r.no_duplicates()) by {
        assert forall|i: int, j: int| 0 <= i < r.len() && 0 <= j < r.len() && i != j implies r[i] != r[j] by {
            assert(r[i] == s[i] && r[j] == s[j]);
        }
    }
    assert(sorted_by(r, lt)) by {
        assert forall|i: int, j: int| 0 <= i < j < r.len() implies !lt(#[trigger] r[j], #[trigger] r[i]) by {
            assert(r[i] == s[i] && r[j] == s[j]);
        }
    }
}

/// The law of `SearchEngine::search`: the returned items all match the query and are
/// ordered best first; none is returned twice; there are at most `limit` of them, and
/// fewer only when every matching item was returned; and no matching item left out
/// ranks before a returned one.
pub proof fn lemma_search_returns_best(items: Seq<SearchItem>, query: Seq<char>, limit: nat)
    ensures
        ({
            let r = ranking(items, query, limit);
            let tokens = query_tokens(query);
            let upper = raw_uppercase(query);
            let lt = rank_order(items, tokens, upper);
            &&& sorted_by(r, lt)
            &&& r.no_duplicates()
            &&& r.len() <= limit
            &&& forall|j: int|
                0 <= j < r.len() ==> 0 <= #[trigger] r[j] < items.len() && item_relevance(items[r[j]], tokens, upper)
                    is Some
            &&& forall|e: int|
                0 <= e < items.len() && (#[trigger] item_relevance(items[e], tokens, upper)) is Some && r.len()
                    < limit ==> r.contains(e)
            &&& forall|e: int, j: int|
                0 <= e < items.len() && (#[trigger] item_relevance(items[e], tokens, upper)) is Some
                    && !r.contains(e) && 0 <= j < r.len() ==> !lt(e, #[trigger] r[j])
        }),
{
    let tokens = query_tokens(query);
    let upper = raw_uppercase(query);
    let lt = rank_order(items, tokens, upper);
    let m = matching_upto(items, tokens, upper, items.len() as int);
    let r = ranking(items, query, limit);
    lemma_rank_order(items, tokens, upper);
    lemma_matching_upto(items, tokens, upper, items.len() as int);
    lemma_sorted_prefix(m, lt, limit);
    assert(r == truncate(sort_by(m, lt), limit));
    assert forall|j: int| 0 <= j < r.len() implies 0 <= #[trigger] r[j] < items.len() && item_relevance(
        items[r[j]],
        tokens,
        upper,
    ) is Some by {
        assert(m.contains(r[j]));
    }
}

/// A relevance comes out of `relevance` within `[0, 1]`.
pub proof fn lemma_relevance_in_unit(
    name: Seq<char>,
    path: Seq<char>,
    kind: ItemKind,
    hidden: bool,
    tokens: Seq<Seq<char>>,
    upper: bool,
)
    ensures
        match relevance(name, path, kind, hidden, tokens, upper) {
            Some(p) => p.1 > 0 ==> 0 <= p.0 <= 100 * p.1,
            None => true,
        },
{
}

/// The text of a relevance in `[0, 1]` is an ASCII float literal: it can travel in a
/// result line.
pub proof fn lemma_score_text_on_the_wire(v: (int, int))
    requires
        1 <= v.1,
        0 <= v.0 <= 100 * v.1,
    ensures
        wire_score(score_text(v)),
{
    let m = rounded_millionths(v);
    assert(0 <= m <= 1000000) by (nonlinear_arith)
        requires
            m == (2 * v.0 * 10000 + v.1) / (2 * v.1),
            1 <= v.1,
            0 <= v.0 <= 100 * v.1,
    ;
    let t = score_text(v);
    assert(is_ascii_chars(t));
    is_ascii_chars_encode_utf8(t);
    let b = encode_utf8(t);
    assert(crate::text::all_ascii(b));
    assert(b[0] == 48 + m / 1000000);
    assert(b[1] == 0x2E);
    let frac = b.skip(1).drop_first();
    assert(frac.len() == 6);
    assert forall|i: int| 0 <= i < 6 implies crate::wire::is_digit(#[trigger] frac[i]) by {
        assert(frac[i] == b[i + 2]);
    }
    assert(digit_run(b) == 1) by {
        reveal_with_fuel(digit_run, 2);
    }
    assert(digit_run(frac) == 6) by {
        reveal_with_fuel(digit_run, 7);
    }
    assert(frac.skip(6) =~= Seq::<u8>::empty());
    assert(float_literal(b));
}

/// The law of the daemon's search answers: the results of any search, with any
/// elapsed time, travel over the wire and decode to exactly those results.
pub proof fn lemma_search_answer_round_trip(items: Seq<SearchItem>, query: Seq<char>, limit: usize, elapsed_us: u64)
    ensures
        ({
            let r = ResponseView::Search { elapsed_us, hits: search_hits(items, query, limit as nat) };
            response_of(response_bytes(r)) == Ok::<ResponseView, Fault>(r)
        }),
{
    let hits = search_hits(items, query, limit as nat);
    let r = ranking(items, query, limit as nat);
    lemma_search_returns_best(items, query, limit as nat);
    assert forall|k: int| 0 <= k < hits.len() implies wire_score(#[trigger] hits[k].score) by {
        let item = items[r[k]];
        let toks = query_tokens(query);
        let up = raw_uppercase(query);
        let v = rank_key(item, toks, up).value;
        lemma_relevance_in_unit(
            crate::text::lowercase_all(item.name@),
            crate::text::lowercase_all(crate::text::lossy_text(item.path@)),
            item.kind,
            item.hidden,
            toks,
            up,
        );
        assert(hits[k] == hit_view(item, v));
        lemma_score_text_on_the_wire(v);
    }
    lemma_response_round_trip(ResponseView::Search { elapsed_us, hits });
}

} // verus!
