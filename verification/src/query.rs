//! The in-memory query engine: every query token must match an item's name or path;
//! where and how well it matches gives the item its relevance, and the best results
//! come back ranked.
//!
//! Relevance is exact: a value `num / (100 * scale)`, where `scale` is 1 but for a
//! subsequence match, whose compactness is a fraction with a denominator of at most
//! 65535.

use vstd::prelude::*;
use crate::text::{contains_seq, starts_with, contains_chars, has_prefix_chars, same_elements_chars};
use crate::matching::{density, segments, subsequence_density, initials, initials_of, path_segments};
use crate::domain::{HitView, ItemKind, SearchHit, SearchItem};
use crate::sorting::{insert_pos, insert_sorted, lemma_insert_sorted_take, lemma_sort_by, sort_by, sorted_by, strict_weak_order};
use crate::text::{chars_of, is_ascii_lower_char, is_ascii_upper_char, lossy_chars, lossy_text, lowercase_all, lowercase_chars};
use crate::matching::{split_words, trim, trim_chars, words};
use vstd::utf8::encode_utf8;
use crate::path::{components, lemma_parts_lt_total, lemma_parts_lt_transitive, path_lt};

verus! {

/// A relevance value `num / (100 * scale)`.
#[derive(Clone, Copy, Debug, PartialEq, Eq, Structural)]
pub struct Score {
    pub num: u64,
    pub scale: u64,
}

impl Score {
    pub open spec fn pair(self) -> (int, int) {
        (self.num as int, self.scale as int)
    }
}

pub open spec fn opt_pair(s: Option<Score>) -> Option<(int, int)> {
    match s {
        Some(v) => Some(v.pair()),
        None => None,
    }
}

// ---------------------------------------------------------------------------
// One token
// ---------------------------------------------------------------------------

/// How a token matches one path segment, in hundredths: as a prefix, inside it, or as
/// a subsequence of it.
pub open spec fn segment_score(segment: Seq<char>, token: Seq<char>) -> Option<int> {
    if starts_with(segment, token) {
        Some(62)
    } else if contains_seq(segment, token) {
        Some(50)
    } else if density(segment, token) is Some {
        Some(42)
    } else {
        None
    }
}

/// The best segment score over all segments.
pub open spec fn best_segment(segs: Seq<Seq<char>>, token: Seq<char>) -> Option<int>
    decreases segs.len(),
{
    if segs.len() == 0 {
        None
    } else {
        let rest = best_segment(segs.drop_last(), token);
        match (rest, segment_score(segs.last(), token)) {
            (None, s) => s,
            (r, None) => r,
            (Some(a), Some(b)) => Some(
                if a >= b {
                    a
                } else {
                    b
                },
            ),
        }
    }
}

/// The best segment score is the highest of the segments' own scores: no matching
/// segment scores above it, it is the score of some segment, and there is one exactly
/// when some segment matches.
pub proof fn lemma_best_segment_is_highest(segs: Seq<Seq<char>>, token: Seq<char>)
    ensures
        forall|k: int|
            0 <= k < segs.len() && (#[trigger] segment_score(segs[k], token)) is Some ==> (best_segment(
                segs,
                token,
            ) matches Some(w) && w >= segment_score(segs[k], token)->0),
        best_segment(segs, token) matches Some(w) ==> exists|k: int|
            0 <= k < segs.len() && #[trigger] segment_score(segs[k], token) == Some(w),
        best_segment(segs, token) is None ==> forall|k: int|
            0 <= k < segs.len() ==> (#[trigger] segment_score(segs[k], token)) is None,
    decreases segs.len(),
{
    if segs.len() > 0 {
        let init = segs.drop_last();
        lemma_best_segment_is_highest(init, token);
        assert forall|k: int| 0 <= k < init.len() implies #[trigger] init[k] == segs[k] by {}
        let b = best_segment(segs, token);
        assert forall|k: int|
            0 <= k < segs.len() && (#[trigger] segment_score(segs[k], token)) is Some implies (b matches Some(w)
                && w >= segment_score(segs[k], token)->0) by {
            if k < init.len() {
                assert(init[k] == segs[k]);
                assert(segment_score(init[k], token) is Some);
            }
        }
        if let Some(w) = b {
            let rest = best_segment(init, token);
            if rest == Some(w) {
                let k = choose|k: int| 0 <= k < init.len() && #[trigger] segment_score(init[k], token) == Some(w);
                assert(init[k] == segs[k]);
                assert(segment_score(segs[k], token) == Some(w));
            } else {
                assert(segment_score(segs[segs.len() - 1], token) == Some(w));
            }
        } else {
            assert forall|k: int| 0 <= k < segs.len() implies (#[trigger] segment_score(segs[k], token)) is None by {
                if k < init.len() {
                    assert(init[k] == segs[k]);
                    assert(segment_score(init[k], token) is None);
                }
            }
        }
    }
}

/// The law of a token's path score: when the token is not in the name, an item scores
/// by its best path segment: at least what any matching segment of its path scores,
/// and exactly one of those scores.
pub proof fn lemma_token_scores_by_best_segment(token: Seq<char>, name: Seq<char>, path: Seq<char>, k: int)
    requires
        name != token,
        !starts_with(name, token),
        !contains_seq(name, token),
        0 <= k < segments(path).len(),
        segment_score(segments(path)[k], token) is Some,
    ensures
        token_score(token, name, path) matches Some((w, scale)) && scale == 1 && w >= segment_score(
            segments(path)[k],
            token,
        )->0 && exists|j: int|
            0 <= j < segments(path).len() && #[trigger] segment_score(segments(path)[j], token) == Some(w),
{
    lemma_best_segment_is_highest(segments(path), token);
    assert(segment_score(segments(path)[k], token) is Some);
}

/// How one token matches an item (`name` and `path` already lower-cased): the name
/// itself, a prefix of it, inside it, a path segment, a compact subsequence of the
/// name, or anywhere in the path.
pub open spec fn token_score(token: Seq<char>, name: Seq<char>, path: Seq<char>) -> Option<(int, int)> {
    if name == token {
        Some((100, 1))
    } else if starts_with(name, token) {
        Some((88, 1))
    } else if contains_seq(name, token) {
        Some((74, 1))
    } else if best_segment(segments(path), token) is Some {
        Some((best_segment(segments(path), token)->0, 1))
    } else if density(name, token) is Some {
        let (q, s) = density(name, token)->0;
        Some(
            (
                (48 * s + 18 * (if q <= s {
                    q
                } else {
                    s
                })) as int,
                s as int,
            ),
        )
    } else if contains_seq(path, token) {
        Some((30, 1))
    } else {
        None
    }
}

/// Segment score of one segment, in hundredths.
pub fn segment_match_score(segment: &Vec<char>, token: &Vec<char>) -> (r: Option<u64>)
    ensures
        match (r, segment_score(segment@, token@)) {
            (Some(a), Some(b)) => a == b,
            (None, None) => true,
            _ => false,
        },
{
    if has_prefix_chars(segment.as_slice(), token.as_slice()) {
        Some(62)
    } else if contains_chars(segment.as_slice(), token.as_slice()) {
        Some(50)
    } else if subsequence_density(segment, token).is_some() {
        Some(42)
    } else {
        None
    }
}

pub open spec fn views_of(v: Seq<Vec<char>>) -> Seq<Seq<char>> {
    v.map_values(|w: Vec<char>| w@)
}

/// The score of one token against a lower-cased name and path; `segs` holds the
/// segments of `path`.
pub fn token_score_of(token: &Vec<char>, name: &Vec<char>, path: &Vec<char>, segs: &Vec<Vec<char>>) -> (r:
    Option<Score>)
    requires
        views_of(segs@) == segments(path@),
    ensures
        opt_pair(r) == token_score(token@, name@, path@),
        r matches Some(v) ==> 1 <= v.scale <= 65535 && v.num <= 100 * v.scale,
{
    if same_elements_chars(name.as_slice(), token.as_slice()) {
        return Some(Score { num: 100, scale: 1 });
    }
    if has_prefix_chars(name.as_slice(), token.as_slice()) {
        return Some(Score { num: 88, scale: 1 });
    }
    if contains_chars(name.as_slice(), token.as_slice()) {
        return Some(Score { num: 74, scale: 1 });
    }
    let mut best: Option<u64> = None;
    let mut i: usize = 0;
    while i < segs.len()
        invariant
            i <= segs.len(),
            views_of(segs@) == segments(path@),
            match (best, best_segment(views_of(segs@).take(i as int), token@)) {
                (Some(a), Some(b)) => a == b,
                (None, None) => true,
                _ => false,
            },
            best matches Some(b) ==> b <= 62,
        decreases segs.len() - i,
    {
        let s = segment_match_score(&segs[i], token);
        proof {
            let t = views_of(segs@).take(i + 1);
            assert(t.drop_last() == views_of(segs@).take(i as int));
            assert(t.last() == segs@[i as int]@);
        }
        best = match (best, s) {
            (None, s) => s,
            (r, None) => r,
            (Some(a), Some(b)) => Some(
                if a >= b {
                    a
                } else {
                    b
                },
            ),
        };
        i += 1;
    }
    assert(views_of(segs@).take(segs.len() as int) == views_of(segs@));
    if let Some(b) = best {
        return Some(Score { num: b, scale: 1 });
    }
    if let Some((q, s)) = subsequence_density(name, token) {
        let m = if q <= s {
            q
        } else {
            s
        };
        return Some(Score { num: 48 * s + 18 * m, scale: s });
    }
    if contains_chars(path.as_slice(), token.as_slice()) {
        return Some(Score { num: 30, scale: 1 });
    }
    None
}

// ---------------------------------------------------------------------------
// A whole query
// ---------------------------------------------------------------------------

/// `a` is a smaller relevance than `b` (both scales positive).
pub open spec fn below(a: (int, int), b: (int, int)) -> bool {
    a.0 * b.1 < b.0 * a.1
}

/// The lowest score over the tokens that match, in token order (the earlier one of two
/// equal values); `None` where no token matches.
pub open spec fn base_score(tokens: Seq<Seq<char>>, name: Seq<char>, path: Seq<char>) -> Option<(int, int)>
    decreases tokens.len(),
{
    if tokens.len() == 0 {
        None
    } else {
        let rest = base_score(tokens.drop_last(), name, path);
        match (rest, token_score(tokens.last(), name, path)) {
            (r, None) => r,
            (None, t) => t,
            (Some(a), Some(b)) => if below(b, a) {
                Some(b)
            } else {
                Some(a)
            },
        }
    }
}

pub open spec fn all_matched(tokens: Seq<Seq<char>>, name: Seq<char>, path: Seq<char>) -> bool {
    forall|k: int| 0 <= k < tokens.len() ==> (#[trigger] token_score(tokens[k], name, path)) is Some
}

/// The tokens written one after another.
pub open spec fn concat_all(tokens: Seq<Seq<char>>) -> Seq<char>
    decreases tokens.len(),
{
    if tokens.len() == 0 {
        seq![]
    } else {
        concat_all(tokens.drop_last()) + tokens.last()
    }
}

/// The tokens joined by single spaces.
pub open spec fn join_words(tokens: Seq<Seq<char>>) -> Seq<char>
    decreases tokens.len(),
{
    if tokens.len() == 0 {
        seq![]
    } else if tokens.len() == 1 {
        tokens[0]
    } else {
        join_words(tokens.drop_last()).push(' ') + tokens.last()
    }
}

/// Directories rank a little higher, hidden items lower, and the value stays in `[0, 1]`.
pub open spec fn adjust(v: (int, int), kind: ItemKind, hidden: bool) -> (int, int) {
    let d = if kind == ItemKind::Directory {
        v.0 + 2 * v.1
    } else {
        v.0
    };
    let h = if hidden {
        d - 12 * v.1
    } else {
        d
    };
    let c = if h < 0 {
        0
    } else if h > 100 * v.1 {
        100 * v.1
    } else {
        h
    };
    (c, v.1)
}

/// The relevance of an item (lower-cased `name` and `path`) for the query tokens; `None`
/// where it does not match.
///
/// Every token must match. The lowest token score is the base. A query typed in
/// capitals whose letters are the initials of the path segments or of the name's words
/// gains a bonus for each, and a lone capitalised token that matched nothing else (or
/// only the whole name) matches at 0.46 through those initials. Several tokens gain a
/// bonus where the name holds them, joined by spaces, as a subsequence, and score at
/// least 0.82 where it holds them as a run.
pub open spec fn relevance(
    name: Seq<char>,
    path: Seq<char>,
    kind: ItemKind,
    hidden: bool,
    tokens: Seq<Seq<char>>,
    upper: bool,
) -> Option<(int, int)> {
    if tokens.len() > 1 && !all_matched(tokens, name, path) {
        None
    } else {
        let flat = concat_all(tokens);
        let pi = initials(path, false);
        let ni = initials(name, true);
        let path_hit = pi.len() > 0 && contains_seq(pi, flat);
        let name_hit = ni.len() > 0 && contains_seq(ni, flat);
        let acronym = upper && flat.len() >= 2;
        let fallback = tokens.len() == 1 && upper && tokens[0].len() >= 2 && (path_hit || name_hit);
        match base_score(tokens, name, path) {
            None => if fallback {
                Some(adjust((46, 1), kind, hidden))
            } else {
                None
            },
            Some(b) => if fallback && b.0 >= 100 * b.1 {
                Some(adjust((46, 1), kind, hidden))
            } else {
                let v1 = b.0 + (if acronym && path_hit {
                    10 * b.1
                } else {
                    0
                }) + (if acronym && name_hit {
                    10 * b.1
                } else {
                    0
                });
                let joined = join_words(tokens);
                let v2 = if tokens.len() >= 2 && density(name, joined) is Some {
                    v1 + 5 * b.1
                } else {
                    v1
                };
                let v3 = if tokens.len() >= 2 && contains_seq(name, joined) && v2 < 82 * b.1 {
                    82 * b.1
                } else {
                    v2
                };
                Some(adjust((v3, b.1), kind, hidden))
            },
        }
    }
}

fn concat_tokens(tokens: &Vec<Vec<char>>) -> (out: Vec<char>)
    ensures
        out@ == concat_all(views_of(tokens@)),
{
    let mut out: Vec<char> = Vec::new();
    let mut i: usize = 0;
    while i < tokens.len()
        invariant
            i <= tokens.len(),
            out@ == concat_all(views_of(tokens@).take(i as int)),
        decreases tokens.len() - i,
    {
        let ghost before = out@;
        let t = &tokens[i];
        let mut j: usize = 0;
        while j < t.len()
            invariant
                j <= t.len(),
                out@ == before + t@.take(j as int),
            decreases t.len() - j,
        {
            out.push(t[j]);
            j += 1;
            assert(t@.take(j as int) == t@.take(j - 1).push(t@[j - 1]));
        }
        assert(t@.take(t.len() as int) == t@);
        proof {
            let v = views_of(tokens@).take(i + 1);
            assert(v.drop_last() == views_of(tokens@).take(i as int));
            assert(v.last() == t@);
        }
        i += 1;
    }
    assert(views_of(tokens@).take(tokens.len() as int) == views_of(tokens@));
    out
}

fn join_tokens(tokens: &Vec<Vec<char>>) -> (out: Vec<char>)
    ensures
        out@ == join_words(views_of(tokens@)),
{
    let mut out: Vec<char> = Vec::new();
    let mut i: usize = 0;
    while i < tokens.len()
        invariant
            i <= tokens.len(),
            out@ == join_words(views_of(tokens@).take(i as int)),
        decreases tokens.len() - i,
    {
        if i > 0 {
            out.push(' ');
        }
        let ghost before = out@;
        let t = &tokens[i];
        let mut j: usize = 0;
        while j < t.len()
            invariant
                j <= t.len(),
                out@ == before + t@.take(j as int),
            decreases t.len() - j,
        {
            out.push(t[j]);
            j += 1;
            assert(t@.take(j as int) == t@.take(j - 1).push(t@[j - 1]));
        }
        assert(t@.take(t.len() as int) == t@);
        proof {
            let v = views_of(tokens@).take(i + 1);
            assert(v.drop_last() == views_of(tokens@).take(i as int));
            assert(v.last() == t@);
            if i == 0 {
                assert(before =~= Seq::<char>::empty());
                assert(v[0] == t@);
            }
        }
        i += 1;
    }
    assert(views_of(tokens@).take(tokens.len() as int) == views_of(tokens@));
    out
}

fn adjust_score(v: Score, kind: ItemKind, hidden: bool) -> (r: Score)
    requires
        1 <= v.scale <= 65535,
        v.num <= 125 * v.scale,
    ensures
        r.pair() == adjust(v.pair(), kind, hidden),
        r.scale == v.scale,
        r.num <= 100 * r.scale,
{
    let d = if kind == ItemKind::Directory {
        v.num + 2 * v.scale
    } else {
        v.num
    };
    let h = if hidden {
        if d < 12 * v.scale {
            0
        } else {
            d - 12 * v.scale
        }
    } else {
        d
    };
    let c = if h > 100 * v.scale {
        100 * v.scale
    } else {
        h
    };
    Score { num: c, scale: v.scale }
}

fn is_below(a: Score, b: Score) -> (r: bool)
    requires
        a.num <= 100 * 65535,
        b.num <= 100 * 65535,
        a.scale <= 65535,
        b.scale <= 65535,
    ensures
        r == below(a.pair(), b.pair()),
{
    assert(a.num * b.scale <= 100 * 65535 * 65535) by (nonlinear_arith)
        requires
            a.num <= 100 * 65535,
            b.scale <= 65535,
    ;
    assert(b.num * a.scale <= 100 * 65535 * 65535) by (nonlinear_arith)
        requires
            b.num <= 100 * 65535,
            a.scale <= 65535,
    ;
    a.num * b.scale < b.num * a.scale
}

/// The lowest token score, and whether some token did not match.
fn base_of(tokens: &Vec<Vec<char>>, name: &Vec<char>, path: &Vec<char>, segs: &Vec<Vec<char>>) -> (r: (
    Option<Score>,
    bool,
))
    requires
        views_of(segs@) == segments(path@),
    ensures
        opt_pair(r.0) == base_score(views_of(tokens@), name@, path@),
        r.0 matches Some(v) ==> 1 <= v.scale <= 65535 && v.num <= 100 * v.scale,
        r.1 == !all_matched(views_of(tokens@), name@, path@),
{
    let ghost toks = views_of(tokens@);
    let mut base: Option<Score> = None;
    let mut any_failed = false;
    let mut i: usize = 0;
    while i < tokens.len()
        invariant
            i <= tokens.len(),
            toks == views_of(tokens@),
            views_of(segs@) == segments(path@),
            opt_pair(base) == base_score(toks.take(i as int), name@, path@),
            base matches Some(v) ==> 1 <= v.scale <= 65535 && v.num <= 100 * v.scale,
            any_failed == !all_matched(toks.take(i as int), name@, path@),
        decreases tokens.len() - i,
    {
        let t = token_score_of(&tokens[i], name, path, segs);
        proof {
            let v = toks.take(i + 1);
            assert(v.drop_last() == toks.take(i as int));
            assert(v.last() == tokens@[i as int]@);
            assert(v[i as int] == tokens@[i as int]@);
            if !all_matched(toks.take(i as int), name@, path@) {
                let k = choose|k: int|
                    0 <= k < i && !(#[trigger] token_score(toks.take(i as int)[k], name@, path@) is Some);
                assert(v[k] == toks.take(i as int)[k]);
            }
            if all_matched(toks.take(i as int), name@, path@) && t is Some {
                assert forall|k: int| 0 <= k < v.len() implies (#[trigger] token_score(v[k], name@, path@)) is Some by {
                    if k < i {
                        assert(v[k] == toks.take(i as int)[k]);
                    }
                }
            }
        }
        match t {
            None => {
                any_failed = true;
            },
            Some(ts) => {
                base = match base {
                    None => Some(ts),
                    Some(b) => if is_below(ts, b) {
                        Some(ts)
                    } else {
                        Some(b)
                    },
                };
            },
        }
        i += 1;
    }
    assert(toks.take(tokens.len() as int) == toks);
    (base, any_failed)
}

/// The relevance of an item, given its lower-cased name and path and the query tokens.
pub fn relevance_of(
    name: &Vec<char>,
    path: &Vec<char>,
    kind: ItemKind,
    hidden: bool,
    tokens: &Vec<Vec<char>>,
    raw_query_uppercase: bool,
) -> (r: Option<Score>)
    ensures
        opt_pair(r) == relevance(name@, path@, kind, hidden, views_of(tokens@), raw_query_uppercase),
        r matches Some(v) ==> 1 <= v.scale <= 65535 && v.num <= 100 * v.scale,
{
    let ghost toks = views_of(tokens@);
    let segs = path_segments(path);
    let (base, any_failed) = base_of(tokens, name, path, &segs);
    if any_failed && tokens.len() > 1 {
        return None;
    }
    let flat = concat_tokens(tokens);
    let pi = initials_of(path, false);
    let ni = initials_of(name, true);
    let path_hit = pi.len() > 0 && contains_chars(pi.as_slice(), flat.as_slice());
    let name_hit = ni.len() > 0 && contains_chars(ni.as_slice(), flat.as_slice());
    let acronym = raw_query_uppercase && flat.len() >= 2;
    let fallback = tokens.len() == 1 && raw_query_uppercase && tokens[0].len() >= 2 && (path_hit
        || name_hit);
    proof {
        if tokens.len() == 1 {
            assert(toks[0] == tokens@[0]@);
        }
    }
    match base {
        None => {
            if fallback {
                Some(adjust_score(Score { num: 46, scale: 1 }, kind, hidden))
            } else {
                None
            }
        },
        Some(b) => {
            if fallback && b.num >= 100 * b.scale {
                return Some(adjust_score(Score { num: 46, scale: 1 }, kind, hidden));
            }
            let mut v = b.num;
            if acronym && path_hit {
                v = v + 10 * b.scale;
            }
            if acronym && name_hit {
                v = v + 10 * b.scale;
            }
            if tokens.len() >= 2 {
                let joined = join_tokens(tokens);
                if subsequence_density(name, &joined).is_some() {
                    v = v + 5 * b.scale;
                }
                if contains_chars(name.as_slice(), joined.as_slice()) && v < 82 * b.scale {
                    v = 82 * b.scale;
                }
            }
            Some(adjust_score(Score { num: v, scale: b.scale }, kind, hidden))
        },
    }
}

// ---------------------------------------------------------------------------
// Ranking order
// ---------------------------------------------------------------------------

/// Two relevance values are equal (both scales positive).
pub open spec fn same_value(a: (int, int), b: (int, int)) -> bool {
    a.0 * b.1 == b.0 * a.1
}

/// What orders two results: relevance, then the byte length of the name, then the path.
pub struct RankKey {
    pub value: (int, int),
    pub name_len: nat,
    pub path: Seq<u8>,
}

/// `a` ranks before `b`: higher relevance, or equal relevance and a shorter name, or
/// equal relevance and name length and a path that orders first.
pub open spec fn key_before(a: RankKey, b: RankKey) -> bool {
    below(b.value, a.value) || (same_value(a.value, b.value) && (a.name_len < b.name_len || (a.name_len
        == b.name_len && path_lt(a.path, b.path))))
}

proof fn lemma_cross(a0: int, a1: int, b0: int, b1: int, c0: int, c1: int)
    requires
        a1 > 0,
        b1 > 0,
        c1 > 0,
    ensures
        a0 * b1 <= b0 * a1 && b0 * c1 <= c0 * b1 ==> a0 * c1 <= c0 * a1,
        a0 * b1 < b0 * a1 && b0 * c1 <= c0 * b1 ==> a0 * c1 < c0 * a1,
        a0 * b1 <= b0 * a1 && b0 * c1 < c0 * b1 ==> a0 * c1 < c0 * a1,
{
    if a0 * b1 <= b0 * a1 && b0 * c1 <= c0 * b1 {
        assert(a0 * b1 * c1 <= b0 * a1 * c1) by (nonlinear_arith)
            requires
                a0 * b1 <= b0 * a1,
                c1 > 0,
        ;
        assert(b0 * c1 * a1 <= c0 * b1 * a1) by (nonlinear_arith)
            requires
                b0 * c1 <= c0 * b1,
                a1 > 0,
        ;
        assert(b0 * a1 * c1 == b0 * c1 * a1) by (nonlinear_arith);
        assert(a0 * b1 * c1 == a0 * c1 * b1) by (nonlinear_arith);
        assert(c0 * b1 * a1 == c0 * a1 * b1) by (nonlinear_arith);
        assert(a0 * c1 * b1 <= c0 * a1 * b1);
        assert(a0 * c1 <= c0 * a1) by (nonlinear_arith)
            requires
                a0 * c1 * b1 <= c0 * a1 * b1,
                b1 > 0,
        ;
        if a0 * b1 < b0 * a1 || b0 * c1 < c0 * b1 {
            if a0 * b1 < b0 * a1 {
                assert(a0 * b1 * c1 < b0 * a1 * c1) by (nonlinear_arith)
                    requires
                        a0 * b1 < b0 * a1,
                        c1 > 0,
                ;
            } else {
                assert(b0 * c1 * a1 < c0 * b1 * a1) by (nonlinear_arith)
                    requires
                        b0 * c1 < c0 * b1,
                        a1 > 0,
                ;
            }
            assert(a0 * c1 * b1 < c0 * a1 * b1);
            assert(a0 * c1 < c0 * a1) by (nonlinear_arith)
                requires
                    a0 * c1 * b1 < c0 * a1 * b1,
                    b1 > 0,
            ;
        }
    }
}

pub open spec fn positive_scale(k: RankKey) -> bool {
    k.value.1 > 0
}

/// The ranking order is a strict weak order on keys whose relevance has a positive
/// scale.
pub proof fn lemma_key_order(a: RankKey, b: RankKey, c: RankKey)
    requires
        positive_scale(a),
        positive_scale(b),
        positive_scale(c),
    ensures
        !key_before(a, a),
        key_before(a, b) && key_before(b, c) ==> key_before(a, c),
        key_before(a, c) ==> key_before(a, b) || key_before(b, c),
{
    let (a0, a1) = a.value;
    let (b0, b1) = b.value;
    let (c0, c1) = c.value;
    lemma_cross(a0, a1, b0, b1, c0, c1);
    lemma_cross(c0, c1, b0, b1, a0, a1);
    lemma_cross(b0, b1, a0, a1, c0, c1);
    lemma_cross(c0, c1, a0, a1, b0, b1);
    lemma_cross(a0, a1, c0, c1, b0, b1);
    lemma_cross(b0, b1, c0, c1, a0, a1);
    lemma_parts_lt_total(components(a.path), components(a.path));
    lemma_parts_lt_total(components(a.path), components(b.path));
    lemma_parts_lt_total(components(b.path), components(c.path));
    lemma_parts_lt_total(components(a.path), components(c.path));
    if path_lt(a.path, b.path) && path_lt(b.path, c.path) {
        lemma_parts_lt_transitive(components(a.path), components(b.path), components(c.path));
    }
    if path_lt(b.path, a.path) && path_lt(a.path, c.path) {
        lemma_parts_lt_transitive(components(b.path), components(a.path), components(c.path));
    }
    if path_lt(a.path, c.path) && path_lt(c.path, b.path) {
        lemma_parts_lt_transitive(components(a.path), components(c.path), components(b.path));
    }
}

// ---------------------------------------------------------------------------
// Score text
// ---------------------------------------------------------------------------

/// A relevance in millionths, rounded half up.
pub open spec fn rounded_millionths(v: (int, int)) -> int {
    (2 * v.0 * 10000 + v.1) / (2 * v.1)
}

pub open spec fn digit_char(d: int) -> char {
    ((48 + d) as u8) as char
}

/// The decimal text of a relevance in `[0, 1]` with six digits after the point.
pub open spec fn score_text(v: (int, int)) -> Seq<char> {
    let m = rounded_millionths(v);
    seq![
        digit_char(m / 1000000),
        '.',
        digit_char(m / 100000 % 10),
        digit_char(m / 10000 % 10),
        digit_char(m / 1000 % 10),
        digit_char(m / 100 % 10),
        digit_char(m / 10 % 10),
        digit_char(m % 10),
    ]
}

fn digit(d: u64) -> (c: char)
    requires
        d < 10,
    ensures
        c == digit_char(d as int),
{
    ((48 + d) as u8) as char
}

/// The decimal text of a relevance, as results carry it.
pub fn score_string(v: Score) -> (text: String)
    requires
        1 <= v.scale <= 65535,
        v.num <= 100 * v.scale,
    ensures
        text@ == score_text(v.pair()),
{
    assert(2 * v.num * 10000 <= 2 * 100 * 65535 * 10000) by (nonlinear_arith)
        requires
            v.num <= 100 * v.scale,
            v.scale <= 65535,
    ;
    let m = (2 * v.num * 10000 + v.scale) / (2 * v.scale);
    assert(m <= 1000000) by (nonlinear_arith)
        requires
            m == (2 * v.num * 10000 + v.scale) / (2 * v.scale),
            v.num <= 100 * v.scale,
            v.scale >= 1,
    ;
    let chars = vec![
        digit(m / 1000000),
        '.',
        digit(m / 100000 % 10),
        digit(m / 10000 % 10),
        digit(m / 1000 % 10),
        digit(m / 100 % 10),
        digit(m / 10 % 10),
        digit(m % 10),
    ];
    assert(chars@ =~= score_text(v.pair()));
    crate::text::string_from_chars(&chars)
}

// ---------------------------------------------------------------------------
// Items and queries
// ---------------------------------------------------------------------------

/// The relevance of an item: its name and path are lower-cased, the path read as
/// text as `String::from_utf8_lossy` reads it.
pub open spec fn item_relevance(item: SearchItem, tokens: Seq<Seq<char>>, upper: bool) -> Option<(int, int)> {
    relevance(
        lowercase_all(item.name@),
        lowercase_all(lossy_text(item.path@)),
        item.kind,
        item.hidden,
        tokens,
        upper,
    )
}

/// The relevance of one item for the query tokens.
pub fn score(item: &SearchItem, tokens: &Vec<Vec<char>>, raw_query_uppercase: bool) -> (r: Option<Score>)
    ensures
        opt_pair(r) == item_relevance(*item, views_of(tokens@), raw_query_uppercase),
        r matches Some(v) ==> 1 <= v.scale <= 65535 && v.num <= 100 * v.scale,
{
    let name = lowercase_chars(&chars_of(item.name.as_str()));
    let path = lowercase_chars(&lossy_chars(item.path.as_slice()));
    relevance_of(&name, &path, item.kind, item.hidden, tokens, raw_query_uppercase)
}

/// The tokens of a query: its trimmed, lower-cased text split at white space.
pub open spec fn query_tokens(query: Seq<char>) -> Seq<Seq<char>> {
    words(lowercase_all(trim(query)))
}

/// The trimmed query has no ASCII lower-case letter and at least one upper-case one.
pub open spec fn raw_uppercase(query: Seq<char>) -> bool {
    let t = trim(query);
    &&& forall|i: int| 0 <= i < t.len() ==> !is_ascii_lower_char(#[trigger] t[i])
    &&& exists|i: int| 0 <= i < t.len() && is_ascii_upper_char(#[trigger] t[i])
}

fn is_raw_uppercase(t: &Vec<char>) -> (r: bool)
    ensures
        r == ((forall|i: int| 0 <= i < t@.len() ==> !is_ascii_lower_char(#[trigger] t@[i])) && (exists|i: int|
            0 <= i < t@.len() && is_ascii_upper_char(#[trigger] t@[i]))),
{
    let mut any_upper = false;
    let mut i: usize = 0;
    while i < t.len()
        invariant
            i <= t.len(),
            forall|k: int| 0 <= k < i ==> !is_ascii_lower_char(#[trigger] t@[k]),
            any_upper == exists|k: int| 0 <= k < i && is_ascii_upper_char(#[trigger] t@[k]),
        decreases t.len() - i,
    {
        let c = t[i];
        if 'a' <= c && c <= 'z' {
            return false;
        }
        if 'A' <= c && c <= 'Z' {
            any_upper = true;
        }
        i += 1;
    }
    any_upper
}

// ---------------------------------------------------------------------------
// Ranking
// ---------------------------------------------------------------------------

pub open spec fn value_or_zero(v: Option<(int, int)>) -> (int, int) {
    match v {
        Some(p) => if p.1 > 0 {
            p
        } else {
            (0, 1)
        },
        None => (0, 1),
    }
}

/// What ranks an item: its relevance, the byte length of its name, its path.
pub open spec fn rank_key(item: SearchItem, tokens: Seq<Seq<char>>, upper: bool) -> RankKey {
    RankKey {
        value: value_or_zero(item_relevance(item, tokens, upper)),
        name_len: encode_utf8(item.name@).len(),
        path: item.path@,
    }
}

/// Item `i` ranks before item `j`.
pub open spec fn rank_order(items: Seq<SearchItem>, tokens: Seq<Seq<char>>, upper: bool) -> spec_fn(
    int,
    int,
) -> bool {
    |i: int, j: int| key_before(rank_key(items[i], tokens, upper), rank_key(items[j], tokens, upper))
}

pub proof fn lemma_rank_order(items: Seq<SearchItem>, tokens: Seq<Seq<char>>, upper: bool)
    ensures
        strict_weak_order(rank_order(items, tokens, upper)),
{
    let lt = rank_order(items, tokens, upper);
    assert forall|a: int| !#[trigger] lt(a, a) by {
        let k = rank_key(items[a], tokens, upper);
        lemma_key_order(k, k, k);
    }
    assert forall|a: int, b: int, c: int| #[trigger] lt(a, b) && #[trigger] lt(b, c) implies lt(a, c) by {
        lemma_key_order(
            rank_key(items[a], tokens, upper),
            rank_key(items[b], tokens, upper),
            rank_key(items[c], tokens, upper),
        );
    }
    assert forall|a: int, b: int, c: int|
        #![trigger lt(a, c), lt(a, b)]
        #![trigger lt(a, c), lt(b, c)]
        lt(a, c) implies lt(a, b) || lt(b, c) by {
        lemma_key_order(
            rank_key(items[a], tokens, upper),
            rank_key(items[b], tokens, upper),
            rank_key(items[c], tokens, upper),
        );
    }
}

/// The indices below `n` of the items that match, in order.
pub open spec fn matching_upto(items: Seq<SearchItem>, tokens: Seq<Seq<char>>, upper: bool, n: int) -> Seq<
    int,
>
    decreases n,
{
    if n <= 0 {
        seq![]
    } else {
        let rest = matching_upto(items, tokens, upper, n - 1);
        if item_relevance(items[n - 1], tokens, upper) is Some {
            rest.push(n - 1)
        } else {
            rest
        }
    }
}

pub open spec fn truncate<A>(s: Seq<A>, limit: nat) -> Seq<A> {
    if limit < s.len() {
        s.take(limit as int)
    } else {
        s
    }
}

/// The best `limit` of the matching items among the first `n`, best first; items that
/// rank the same keep their order.
pub open spec fn top_upto(
    items: Seq<SearchItem>,
    tokens: Seq<Seq<char>>,
    upper: bool,
    limit: nat,
    n: int,
) -> Seq<int> {
    truncate(sort_by(matching_upto(items, tokens, upper, n), rank_order(items, tokens, upper)), limit)
}

/// The indices of the items a search returns, best first.
pub open spec fn ranking(items: Seq<SearchItem>, query: Seq<char>, limit: nat) -> Seq<int> {
    top_upto(items, query_tokens(query), raw_uppercase(query), limit, items.len() as int)
}

/// A result for an item with the given relevance.
pub open spec fn hit_view(item: SearchItem, value: (int, int)) -> HitView {
    HitView {
        id: item.id,
        score: score_text(value),
        kind: item.kind,
        hidden: item.hidden,
        name: item.name@,
        path: item.path@,
    }
}

/// The results of a search: for each ranked item, the item with its relevance.
pub open spec fn search_hits(items: Seq<SearchItem>, query: Seq<char>, limit: nat) -> Seq<HitView> {
    let r = ranking(items, query, limit);
    Seq::new(
        r.len(),
        |j: int| hit_view(items[r[j]], rank_key(items[r[j]], query_tokens(query), raw_uppercase(query)).value),
    )
}

proof fn lemma_no_tokens(items: Seq<SearchItem>, upper: bool, n: int)
    ensures
        matching_upto(items, seq![], upper, n) == Seq::<int>::empty(),
    decreases n,
{
    if n > 0 {
        lemma_no_tokens(items, upper, n - 1);
    }
}

/// A matching item on its way into the ranking.
struct Candidate {
    index: usize,
    score: Score,
    name_len: usize,
}

spec fn candidate_ok(c: Candidate, items: Seq<SearchItem>, tokens: Seq<Seq<char>>, upper: bool) -> bool {
    &&& c.index < items.len()
    &&& 1 <= c.score.scale <= 65535
    &&& c.score.num <= 100 * c.score.scale
    &&& rank_key(items[c.index as int], tokens, upper).value == c.score.pair()
    &&& rank_key(items[c.index as int], tokens, upper).name_len == c.name_len
}

spec fn indices_of(cs: Seq<Candidate>) -> Seq<int> {
    cs.map_values(|c: Candidate| c.index as int)
}

/// Whether the item at `i`, with relevance `v` and name length `n`, ranks before the
/// candidate `c`.
fn ranks_before(items: &Vec<SearchItem>, i: usize, v: Score, n: usize, c: &Candidate) -> (r: bool)
    requires
        i < items.len(),
        c.index < items.len(),
        1 <= v.scale <= 65535,
        v.num <= 100 * v.scale,
        1 <= c.score.scale <= 65535,
        c.score.num <= 100 * c.score.scale,
    ensures
        r == key_before(
            RankKey { value: v.pair(), name_len: n as nat, path: items@[i as int].path@ },
            RankKey { value: c.score.pair(), name_len: c.name_len as nat, path: items@[c.index as int].path@ },
        ),
{
    if is_below(c.score, v) {
        true
    } else if is_below(v, c.score) {
        false
    } else if n != c.name_len {
        n < c.name_len
    } else {
        crate::path::path_less(items[i].path.as_slice(), items[c.index].path.as_slice())
    }
}

/// Where a new candidate goes in the ranked list: after every candidate it does not
/// rank before.
fn insert_position(
    items: &Vec<SearchItem>,
    top: &Vec<Candidate>,
    cand: &Candidate,
    Ghost(toks): Ghost<Seq<Seq<char>>>,
    Ghost(upper): Ghost<bool>,
) -> (p: usize)
    requires
        candidate_ok(*cand, items@, toks, upper),
        forall|k: int| 0 <= k < top@.len() ==> candidate_ok(#[trigger] top@[k], items@, toks, upper),
    ensures
        p == insert_pos(indices_of(top@), cand.index as int, rank_order(items@, toks, upper)),
{
    let ghost t = indices_of(top@);
    let ghost x = cand.index as int;
    let ghost lt = rank_order(items@, toks, upper);
    let mut p: usize = top.len();
    assert(t.take(p as int) == t);
    while p > 0 && ranks_before(items, cand.index, cand.score, cand.name_len, &top[p - 1])
        invariant
            p <= top@.len(),
            t == indices_of(top@),
            candidate_ok(*cand, items@, toks, upper),
            x == cand.index,
            lt == rank_order(items@, toks, upper),
            forall|k: int| 0 <= k < top@.len() ==> candidate_ok(#[trigger] top@[k], items@, toks, upper),
            insert_pos(t, x, lt) == insert_pos(t.take(p as int), x, lt),
        decreases p,
    {
        proof {
            let tp = t.take(p as int);
            assert(tp.last() == t[p - 1]);
            assert(tp.drop_last() == t.take(p - 1));
            assert(candidate_ok(top@[p - 1], items@, toks, upper));
        }
        p -= 1;
    }
    proof {
        if p > 0 {
            let tp = t.take(p as int);
            assert(tp.last() == t[p - 1]);
            assert(candidate_ok(top@[p - 1], items@, toks, upper));
        } else {
            assert(t.take(0) =~= Seq::<int>::empty());
        }
    }
    p
}

proof fn lemma_truncate_insert(sorted: Seq<int>, x: int, lt: spec_fn(int, int) -> bool, limit: nat)
    requires
        strict_weak_order(lt),
        sorted_by(sorted, lt),
    ensures
        truncate(insert_sorted(sorted, x, lt), limit) == truncate(insert_sorted(truncate(sorted, limit), x, lt), limit),
{
    if limit < sorted.len() {
        lemma_insert_sorted_take(sorted, x, lt, limit as int);
        crate::sorting::lemma_insert_pos(sorted, x, lt);
        crate::sorting::lemma_insert_pos(sorted.take(limit as int), x, lt);
    }
}

/// The candidates after inserting one at `p` and keeping at most `limit`.
proof fn lemma_insert_candidate(before: Seq<Candidate>, after: Seq<Candidate>, cand: Candidate, p: int, limit: nat)
    requires
        0 <= p <= before.len(),
        p < limit,
        before.len() <= limit,
        after == (if before.len() + 1 > limit {
            before.insert(p, cand).drop_last()
        } else {
            before.insert(p, cand)
        }),
    ensures
        indices_of(after) == truncate(indices_of(before).insert(p, cand.index as int), limit),
        after.len() <= limit,
        forall|k: int| 0 <= k < after.len() ==> (#[trigger] after[k] == cand || exists|j: int| 0 <= j < before.len() && after[k] == before[j]),
{
    let ins = indices_of(before).insert(p, cand.index as int);
    assert(indices_of(before.insert(p, cand)) =~= ins);
    if before.len() + 1 > limit {
        assert(indices_of(after) =~= ins.take(limit as int));
    }
    assert forall|k: int| 0 <= k < after.len() implies (#[trigger] after[k] == cand || exists|j: int| 0 <= j < before.len() && after[k] == before[j]) by {
        if k < p {
            assert(after[k] == before[k]);
        } else if k > p {
            assert(after[k] == before[k - 1]);
        }
    }
}

/// Offers a matching item to the ranked list of the best `limit` so far.
fn offer(
    items: &Vec<SearchItem>,
    top: &mut Vec<Candidate>,
    cand: Candidate,
    limit: usize,
    Ghost(toks): Ghost<Seq<Seq<char>>>,
    Ghost(upper): Ghost<bool>,
    Ghost(sorted): Ghost<Seq<int>>,
)
    requires
        limit > 0,
        strict_weak_order(rank_order(items@, toks, upper)),
        sorted_by(sorted, rank_order(items@, toks, upper)),
        indices_of(old(top)@) == truncate(sorted, limit as nat),
        candidate_ok(cand, items@, toks, upper),
        forall|k: int| 0 <= k < old(top)@.len() ==> candidate_ok(#[trigger] old(top)@[k], items@, toks, upper),
    ensures
        indices_of(final(top)@) == truncate(
            insert_sorted(sorted, cand.index as int, rank_order(items@, toks, upper)),
            limit as nat,
        ),
        final(top)@.len() <= limit,
        forall|k: int| 0 <= k < final(top)@.len() ==> candidate_ok(#[trigger] final(top)@[k], items@, toks, upper),
{
    let ghost lt = rank_order(items@, toks, upper);
    let ghost t = indices_of(top@);
    let ghost x = cand.index as int;
    let p = insert_position(items, top, &cand, Ghost(toks), Ghost(upper));
    let ghost before_top = top@;
    proof {
        crate::sorting::lemma_insert_pos(t, x, lt);
        lemma_truncate_insert(sorted, x, lt, limit as nat);
        assert(t.len() == top@.len());
    }
    if p < limit {
        top.insert(p, cand);
        if top.len() > limit {
            top.pop();
        }
        proof {
            lemma_insert_candidate(before_top, top@, cand, p as int, limit as nat);
            assert forall|k: int| 0 <= k < top@.len() implies candidate_ok(#[trigger] top@[k], items@, toks, upper) by {
                if top@[k] != cand {
                    let j = choose|j: int| 0 <= j < before_top.len() && top@[k] == before_top[j];
                    assert(candidate_ok(before_top[j], items@, toks, upper));
                }
            }
        }
    } else {
        proof {
            assert(p == t.len());
            assert(insert_sorted(t, x, lt) == t.push(x));
            assert(truncate(insert_sorted(t, x, lt), limit as nat) =~= t);
        }
    }
}

/// An in-memory search engine over a list of items.
pub struct SearchEngine {
    items: Vec<SearchItem>,
}

impl View for SearchEngine {
    type V = Seq<SearchItem>;

    closed spec fn view(&self) -> Seq<SearchItem> {
        self.items@
    }
}

impl SearchEngine {
    pub fn new(items: Vec<SearchItem>) -> (engine: SearchEngine)
        ensures
            engine@ == items@,
    {
        SearchEngine { items }
    }

    pub fn len(&self) -> (n: usize)
        ensures
            n == self@.len(),
    {
        self.items.len()
    }

    pub fn is_empty(&self) -> (b: bool)
        ensures
            b == (self@.len() == 0),
    {
        self.items.len() == 0
    }

    /// The best `limit` results for a query, best first.
    pub fn search(&self, query: &str, limit: usize) -> (hits: Vec<SearchHit>)
        ensures
            hits@.map_values(|h: SearchHit| h@) == search_hits(self@, query@, limit as nat),
    {
        let ghost items = self.items@;
        let q = chars_of(query);
        let trimmed = trim_chars(&q);
        let normalized = lowercase_chars(&trimmed);
        let tokens = split_words(&normalized);
        let upper = is_raw_uppercase(&trimmed);
        let ghost toks = query_tokens(query@);
        let ghost lt = rank_order(items, toks, upper);
        assert(views_of(tokens@) == toks);
        proof {
            lemma_rank_order(items, toks, upper);
        }
        if limit == 0 || tokens.len() == 0 {
            proof {
                if tokens.len() == 0 {
                    assert(toks =~= Seq::<Seq<char>>::empty());
                    lemma_no_tokens(items, upper, items.len() as int);
                }
                lemma_sort_by(matching_upto(items, toks, upper, items.len() as int), lt);
            }
            let empty: Vec<SearchHit> = Vec::new();
            assert(empty@.map_values(|h: SearchHit| h@) =~= search_hits(items, query@, limit as nat));
            return empty;
        }
        let mut top: Vec<Candidate> = Vec::new();
        let mut i: usize = 0;
        while i < self.items.len()
            invariant
                items == self.items@,
                i <= items.len(),
                views_of(tokens@) == toks,
                lt == rank_order(items, toks, upper),
                strict_weak_order(lt),
                limit > 0,
                top@.len() <= limit,
                indices_of(top@) == top_upto(items, toks, upper, limit as nat, i as int),
                forall|k: int| 0 <= k < top@.len() ==> candidate_ok(#[trigger] top@[k], items, toks, upper),
            decreases items.len() - i,
        {
            let ghost m = matching_upto(items, toks, upper, i as int);
            let ghost sorted = sort_by(m, lt);
            proof {
                lemma_sort_by(m, lt);
            }
            match score(&self.items[i], &tokens, upper) {
                None => {
                    assert(matching_upto(items, toks, upper, i + 1) == m);
                },
                Some(v) => {
                    let n = self.items[i].name.as_str().as_bytes().len();
                    let ghost x = i as int;
                    assert(matching_upto(items, toks, upper, i + 1) == m.push(x));
                    assert(m.push(x).drop_last() == m);
                    assert(sort_by(m.push(x), lt) == insert_sorted(sorted, x, lt));
                    offer(&self.items, &mut top, Candidate { index: i, score: v, name_len: n }, limit, Ghost(toks), Ghost(upper), Ghost(sorted));
                },
            }
            i += 1;
        }
        let ghost r = top_upto(items, toks, upper, limit as nat, items.len() as int);
        let mut hits: Vec<SearchHit> = Vec::new();
        let mut k: usize = 0;
        while k < top.len()
            invariant
                items == self.items@,
                indices_of(top@) == r,
                forall|j: int| 0 <= j < top@.len() ==> candidate_ok(#[trigger] top@[j], items, toks, upper),
                k <= top@.len(),
                hits@.len() == k,
                forall|j: int|
                    0 <= j < k ==> #[trigger] hits@[j]@ == hit_view(items[r[j]], rank_key(items[r[j]], toks, upper).value),
            decreases top.len() - k,
        {
            let c = &top[k];
            assert(candidate_ok(top@[k as int], items, toks, upper));
            let item = self.items[c.index].duplicate();
            let text = score_string(c.score);
            hits.push(SearchHit { item, score: text });
            k += 1;
        }
        assert(hits@.map_values(|h: SearchHit| h@) =~= search_hits(items, query@, limit as nat));
        hits
    }
}

} // verus!
