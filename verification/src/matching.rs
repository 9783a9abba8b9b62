//! Text matching used by the query engine: trimming, word splitting, path segments,
//! initials, and the compactness of a subsequence match.

use vstd::prelude::*;
use vstd::utf8::*;
use crate::text::{char_width, is_ascii_alnum, is_ascii_alnum_char, is_space, is_space_char, split_on, utf8_width};

verus! {

// ---------------------------------------------------------------------------
// Trimming
// ---------------------------------------------------------------------------

pub open spec fn trim_front(s: Seq<char>) -> Seq<char>
    decreases s.len(),
{
    if s.len() > 0 && is_space_char(s[0]) {
        trim_front(s.drop_first())
    } else {
        s
    }
}

pub open spec fn trim_back(s: Seq<char>) -> Seq<char>
    decreases s.len(),
{
    if s.len() > 0 && is_space_char(s.last()) {
        trim_back(s.drop_last())
    } else {
        s
    }
}

/// `str::trim`: leading and trailing white space removed.
pub open spec fn trim(s: Seq<char>) -> Seq<char> {
    trim_back(trim_front(s))
}

pub fn trim_chars(s: &Vec<char>) -> (t: Vec<char>)
    ensures
        t@ == trim(s@),
{
    let n = s.len();
    let mut i: usize = 0;
    assert(s@.skip(0) == s@);
    while i < n && is_space(s[i])
        invariant
            n == s.len(),
            i <= n,
            trim_front(s@) == trim_front(s@.skip(i as int)),
        decreases n - i,
    {
        assert(s@.skip(i as int)[0] == s@[i as int]);
        assert(s@.skip(i as int).drop_first() == s@.skip(i + 1));
        i += 1;
    }
    assert(trim_front(s@.skip(i as int)) == s@.skip(i as int)) by {
        if i < n {
            assert(s@.skip(i as int)[0] == s@[i as int]);
        }
    }
    let mut j: usize = n;
    assert(s@.subrange(i as int, n as int) == s@.skip(i as int));
    while j > i && is_space(s[j - 1])
        invariant
            n == s.len(),
            i <= j <= n,
            trim(s@) == trim_back(s@.subrange(i as int, j as int)),
        decreases j,
    {
        assert(s@.subrange(i as int, j as int).last() == s@[j - 1]);
        assert(s@.subrange(i as int, j as int).drop_last() == s@.subrange(i as int, j - 1));
        j -= 1;
    }
    assert(trim_back(s@.subrange(i as int, j as int)) == s@.subrange(i as int, j as int)) by {
        if j > i {
            assert(s@.subrange(i as int, j as int).last() == s@[j - 1]);
        }
    }
    let mut t: Vec<char> = Vec::new();
    let mut k: usize = i;
    while k < j
        invariant
            i <= k <= j <= n,
            n == s.len(),
            t@ == s@.subrange(i as int, k as int),
        decreases j - k,
    {
        t.push(s[k]);
        k += 1;
        assert(t@ =~= s@.subrange(i as int, k as int));
    }
    t
}

// ---------------------------------------------------------------------------
// Words
// ---------------------------------------------------------------------------

/// `str::split_whitespace`: maximal runs of non-white-space characters.
pub open spec fn words(s: Seq<char>) -> Seq<Seq<char>>
    decreases s.len(),
{
    if s.len() == 0 {
        seq![]
    } else {
        let rest = words(s.drop_last());
        if is_space_char(s.last()) {
            rest
        } else if s.len() >= 2 && !is_space_char(s[s.len() - 2]) {
            rest.update(rest.len() - 1, rest.last().push(s.last()))
        } else {
            rest.push(seq![s.last()])
        }
    }
}

pub proof fn lemma_words_nonempty(s: Seq<char>)
    ensures
        forall|k: int| 0 <= k < words(s).len() ==> #[trigger] words(s)[k].len() > 0,
        s.len() > 0 && !is_space_char(s.last()) ==> words(s).len() > 0,
    decreases s.len(),
{
    if s.len() > 0 {
        let rest = words(s.drop_last());
        lemma_words_nonempty(s.drop_last());
        if !is_space_char(s.last()) && s.len() >= 2 && !is_space_char(s[s.len() - 2]) {
            assert(s.drop_last().last() == s[s.len() - 2]);
            assert(rest.len() > 0);
            let w = rest.update(rest.len() - 1, rest.last().push(s.last()));
            assert(words(s) == w);
            assert forall|k: int| 0 <= k < w.len() implies #[trigger] w[k].len() > 0 by {
                if k < rest.len() - 1 {
                    assert(w[k] == rest[k]);
                }
            }
        } else if !is_space_char(s.last()) {
            let w = rest.push(seq![s.last()]);
            assert(words(s) == w);
            assert forall|k: int| 0 <= k < w.len() implies #[trigger] w[k].len() > 0 by {
                if k < rest.len() {
                    assert(w[k] == rest[k]);
                }
            }
        }
    }
}

pub fn split_words(s: &Vec<char>) -> (out: Vec<Vec<char>>)
    ensures
        out@.map_values(|w: Vec<char>| w@) == words(s@),
{
    let mut out: Vec<Vec<char>> = Vec::new();
    let mut current: Vec<char> = Vec::new();
    let mut i: usize = 0;
    assert(s@.take(0) =~= Seq::<char>::empty());
    while i < s.len()
        invariant
            i <= s.len(),
            current@.len() > 0 ==> i > 0 && !is_space_char(s@[i - 1]),
            i > 0 && !is_space_char(s@[i - 1]) ==> current@.len() > 0,
            current@.len() == 0 ==> out@.map_values(|w: Vec<char>| w@) == words(s@.take(i as int)),
            current@.len() > 0 ==> out@.map_values(|w: Vec<char>| w@).push(current@) == words(
                s@.take(i as int),
            ),
        decreases s.len() - i,
    {
        let c = s[i];
        let ghost prev = words(s@.take(i as int));
        assert(s@.take(i + 1).drop_last() == s@.take(i as int));
        assert(s@.take(i + 1).last() == c);
        if is_space(c) {
            if current.len() > 0 {
                let word = current;
                out.push(word);
                current = Vec::new();
            }
        } else {
            if current.len() > 0 {
                assert(s@.take(i + 1)[i - 1] == s@[i - 1]);
                current.push(c);
                assert(out@.map_values(|w: Vec<char>| w@).push(current@) =~= prev.update(
                    prev.len() - 1,
                    prev.last().push(c),
                ));
            } else {
                current.push(c);
                assert(current@ =~= seq![c]);
                assert(out@.map_values(|w: Vec<char>| w@).push(current@) =~= prev.push(seq![c]));
            }
        }
        i += 1;
    }
    assert(s@.take(s.len() as int) == s@);
    if current.len() > 0 {
        out.push(current);
    }
    out
}

// ---------------------------------------------------------------------------
// Path segments and initials
// ---------------------------------------------------------------------------

/// The non-empty pieces of a sequence of pieces, in order.
pub open spec fn nonempty_pieces(ps: Seq<Seq<char>>) -> Seq<Seq<char>>
    decreases ps.len(),
{
    if ps.len() == 0 {
        seq![]
    } else if ps.last().len() > 0 {
        nonempty_pieces(ps.drop_last()).push(ps.last())
    } else {
        nonempty_pieces(ps.drop_last())
    }
}

/// The non-empty pieces of a path between `/` separators.
pub open spec fn segments(path: Seq<char>) -> Seq<Seq<char>> {
    nonempty_pieces(split_on(path, '/'))
}

pub fn path_segments(path: &Vec<char>) -> (out: Vec<Vec<char>>)
    ensures
        out@.map_values(|w: Vec<char>| w@) == segments(path@),
{
    let mut out: Vec<Vec<char>> = Vec::new();
    let mut current: Vec<char> = Vec::new();
    let mut i: usize = 0;
    proof {
        crate::text::lemma_split_on_nonempty(path@.take(0), '/');
        assert(path@.take(0) =~= Seq::<char>::empty());
        assert(split_on(Seq::<char>::empty(), '/') =~= seq![Seq::<char>::empty()]);
        assert(nonempty_pieces(seq![Seq::<char>::empty()].drop_last()) =~= Seq::<Seq<char>>::empty());
    }
    while i < path.len()
        invariant
            i <= path.len(),
            split_on(path@.take(i as int), '/').len() >= 1,
            split_on(path@.take(i as int), '/').last() == current@,
            out@.map_values(|w: Vec<char>| w@) == nonempty_pieces(
                split_on(path@.take(i as int), '/').drop_last(),
            ),
        decreases path.len() - i,
    {
        let c = path[i];
        let ghost prev = split_on(path@.take(i as int), '/');
        assert(path@.take(i + 1).drop_last() == path@.take(i as int));
        assert(path@.take(i + 1).last() == c);
        if c == '/' {
            let ghost before = out@.map_values(|w: Vec<char>| w@);
            assert(split_on(path@.take(i + 1), '/') == prev.push(seq![]));
            assert(prev.push(seq![]).drop_last() == prev);
            if current.len() > 0 {
                let piece = current;
                out.push(piece);
                assert(prev == prev.drop_last().push(prev.last()));
                assert(out@.map_values(|w: Vec<char>| w@) =~= nonempty_pieces(prev));
            } else {
                assert(prev == prev.drop_last().push(prev.last()));
            }
            current = Vec::new();
            assert(current@ =~= Seq::<char>::empty());
        } else {
            current.push(c);
            let ghost next = prev.update(prev.len() - 1, prev.last().push(c));
            assert(split_on(path@.take(i + 1), '/') == next);
            assert(next.drop_last() =~= prev.drop_last());
        }
        i += 1;
    }
    assert(path@.take(path.len() as int) == path@);
    let ghost all = split_on(path@, '/');
    assert(all == all.drop_last().push(all.last()));
    if current.len() > 0 {
        out.push(current);
    }
    assert(out@.map_values(|w: Vec<char>| w@) =~= nonempty_pieces(all));
    out
}

/// For each piece between separators, its first ASCII letter or digit (pieces without
/// one contribute nothing).
pub open spec fn initials_state(s: Seq<char>, name_mode: bool) -> (Seq<char>, bool)
    decreases s.len(),
{
    if s.len() == 0 {
        (seq![], true)
    } else {
        let (acc, need) = initials_state(s.drop_last(), name_mode);
        let c = s.last();
        if is_separator(c, name_mode) {
            (acc, true)
        } else if need && is_ascii_alnum_char(c) {
            (acc.push(c), false)
        } else {
            (acc, need)
        }
    }
}

/// Path pieces are separated by `/`; name pieces by `_`, `-`, space or `/`.
pub open spec fn is_separator(c: char, name_mode: bool) -> bool {
    c == '/' || (name_mode && (c == '_' || c == '-' || c == ' '))
}

pub open spec fn initials(s: Seq<char>, name_mode: bool) -> Seq<char> {
    initials_state(s, name_mode).0
}

pub fn initials_of(s: &Vec<char>, name_mode: bool) -> (out: Vec<char>)
    ensures
        out@ == initials(s@, name_mode),
{
    let mut out: Vec<char> = Vec::new();
    let mut need = true;
    let mut i: usize = 0;
    assert(s@.take(0) =~= Seq::<char>::empty());
    while i < s.len()
        invariant
            i <= s.len(),
            initials_state(s@.take(i as int), name_mode) == (out@, need),
        decreases s.len() - i,
    {
        let c = s[i];
        assert(s@.take(i + 1).drop_last() == s@.take(i as int));
        assert(s@.take(i + 1).last() == c);
        if c == '/' || (name_mode && (c == '_' || c == '-' || c == ' ')) {
            need = true;
        } else if need && is_ascii_alnum(c) {
            out.push(c);
            need = false;
        }
        i += 1;
    }
    assert(s@.take(s.len() as int) == s@);
    out
}

// ---------------------------------------------------------------------------
// Subsequence matching
// ---------------------------------------------------------------------------

/// The first index at or after `from` holding `c`.
pub open spec fn find_from(s: Seq<char>, c: char, from: int) -> Option<int>
    decreases s.len() - from,
{
    if from < 0 || from >= s.len() {
        None
    } else if s[from] == c {
        Some(from)
    } else {
        find_from(s, c, from + 1)
    }
}

/// Positions of a greedy left-to-right match of `q` as a subsequence of `s`, starting
/// at `from`.
pub open spec fn match_positions(s: Seq<char>, q: Seq<char>, from: int) -> Option<Seq<int>>
    decreases q.len(),
{
    if q.len() == 0 {
        Some(seq![])
    } else {
        match find_from(s, q[0], from) {
            None => None,
            Some(i) => match match_positions(s, q.drop_first(), i + 1) {
                None => None,
                Some(rest) => Some(seq![i] + rest),
            },
        }
    }
}

/// How compactly `q` occurs as a subsequence of `s`: the number of query characters
/// and the byte span from the first to the last matched character, each capped at
/// 65535 (the query length may stand for a fraction `length / span`).
pub open spec fn density(s: Seq<char>, q: Seq<char>) -> Option<(nat, nat)> {
    match match_positions(s, q, 0) {
        None => None,
        Some(p) => {
            let first = if p.len() > 0 {
                crate::text::byte_offset(s, p[0])
            } else {
                0
            };
            let last = if p.len() > 0 {
                crate::text::byte_offset(s, p.last())
            } else {
                0
            };
            let span = (if last >= first {
                last - first
            } else {
                0
            }) + 1;
            Some((cap16(q.len()), cap16(span as nat)))
        },
    }
}

pub open spec fn cap16(n: nat) -> nat {
    if n > 65535 {
        65535
    } else {
        n
    }
}

pub proof fn lemma_byte_offset_monotone(s: Seq<char>, a: int, b: int)
    requires
        0 <= a <= b <= s.len(),
    ensures
        crate::text::byte_offset(s, a) <= crate::text::byte_offset(s, b),
        crate::text::byte_offset(s, b) <= 4 * b,
    decreases b,
{
    if b > 0 {
        if a < b {
            lemma_byte_offset_monotone(s, a, b - 1);
        } else {
            lemma_byte_offset_monotone(s, 0, b - 1);
        }
    }
}

pub open spec fn opt_prepend_positions(prefix: Seq<int>, r: Option<Seq<int>>) -> Option<Seq<int>> {
    match r {
        Some(rest) => Some(prefix + rest),
        None => None,
    }
}

/// The greedy subsequence match of `q` in `s`, summarized as in [`density`].
pub fn subsequence_density(s: &Vec<char>, q: &Vec<char>) -> (r: Option<(u64, u64)>)
    ensures
        match (r, density(s@, q@)) {
            (Some((a, b)), Some((c, d))) => a as nat == c && b as nat == d,
            (None, None) => true,
            _ => false,
        },
{
    // `cursor` is the next candidate index. Once something matched, `dist` is the byte
    // distance from the first matched character to `cursor`, and `last_dist` the one to
    // the last matched character, both capped at 65535.
    let mut cursor: usize = 0;
    let mut dist: u64 = 0;
    let mut last_dist: u64 = 0;
    let ghost mut found: Seq<int> = seq![];
    let mut k: usize = 0;
    assert(q@.skip(0) == q@);
    proof {
        match match_positions(s@, q@, 0) {
            Some(p) => {
                assert(Seq::<int>::empty() + p =~= p);
            },
            None => {},
        }
    }
    while k < q.len()
        invariant
            k <= q.len(),
            cursor <= s.len(),
            found.len() == k,
            forall|m: int| 0 <= m < k ==> 0 <= #[trigger] found[m] < cursor,
            k > 0 ==> found.last() == cursor - 1,
            match_positions(s@, q@, 0) == opt_prepend_positions(
                found,
                match_positions(s@, q@.skip(k as int), cursor as int),
            ),
            k > 0 ==> dist == cap16((crate::text::byte_offset(s@, cursor as int) - crate::text::byte_offset(
                s@,
                found[0],
            )) as nat),
            k > 0 ==> last_dist == cap16((crate::text::byte_offset(s@, found.last()) - crate::text::byte_offset(
                s@,
                found[0],
            )) as nat),
            k > 0 ==> crate::text::byte_offset(s@, found[0]) <= crate::text::byte_offset(s@, found.last()),
            k > 0 ==> crate::text::byte_offset(s@, found.last()) <= crate::text::byte_offset(s@, cursor as int),
            k == 0 ==> dist == 0 && last_dist == 0,
            dist <= 65535,
            last_dist <= 65535,
        decreases q.len() - k,
    {
        let needle = q[k];
        let ghost rest_q = q@.skip(k as int);
        assert(rest_q[0] == needle);
        assert(rest_q.drop_first() == q@.skip(k + 1));
        let ghost start = cursor as int;
        // Advance to the next occurrence of `needle`.
        while cursor < s.len() && s[cursor] != needle
            invariant
                start <= cursor <= s.len(),
                find_from(s@, needle, start) == find_from(s@, needle, cursor as int),
                k > 0 ==> found[0] < start,
                k > 0 ==> dist == cap16((crate::text::byte_offset(s@, cursor as int) - crate::text::byte_offset(
                    s@,
                    found[0],
                )) as nat),
                k > 0 ==> crate::text::byte_offset(s@, found[0]) <= crate::text::byte_offset(s@, cursor as int),
                k == 0 ==> dist == 0,
                dist <= 65535,
                found.len() == k,
            decreases s.len() - cursor,
        {
            if k > 0 {
                let w = utf8_width(s[cursor]) as u64;
                dist = if dist + w > 65535 {
                    65535
                } else {
                    dist + w
                };
            }
            cursor += 1;
        }
        if cursor == s.len() {
            return None;
        }
        assert(find_from(s@, needle, start) == Some(cursor as int));
        proof {
            let old_found = found;
            found = found.push(cursor as int);
            match match_positions(s@, q@.skip(k + 1), cursor + 1) {
                Some(t) => {
                    assert(old_found + (seq![cursor as int] + t) =~= found + t);
                },
                None => {},
            }
            if k > 0 {
                assert(found[0] == old_found[0]);
            }
        }
        if k == 0 {
            dist = 0;
        }
        last_dist = dist;
        let w = utf8_width(s[cursor]) as u64;
        dist = if dist + w > 65535 {
            65535
        } else {
            dist + w
        };
        cursor += 1;
        k += 1;
    }
    assert(q@.skip(q.len() as int) =~= Seq::<char>::empty());
    assert(found + Seq::<int>::empty() =~= found);
    assert(match_positions(s@, q@, 0) == Some(found));
    let span: u64 = if last_dist + 1 > 65535 {
        65535
    } else {
        last_dist + 1
    };
    let q16: u64 = if q.len() > 65535 {
        65535
    } else {
        q.len() as u64
    };
    Some((q16, span))
}

} // verus!
