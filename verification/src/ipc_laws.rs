//! Laws of the wire protocol: decoding undoes encoding, and reading a frame gives
//! back what writing it wrote.

use vstd::prelude::*;
use vstd::utf8::*;
use crate::domain::{kind_bytes, lemma_kind_bytes_round_trip, HitView};
use crate::ipc::{DaemonStatus, hit_of, hit_line, hits_of, hit_lines, flag_byte, bool_field, response_bytes, response_of, kw_ack, kw_pong, kw_error, kw_results, ResponseView, frame_bytes, kw_ping, kw_search, kw_shutdown, kw_status, number_field, prefix_value, request_bytes, request_of, tab, text_field, Fault, RequestView, MAX_FRAME_SIZE, MAX_SEARCH_LIMIT};
use crate::text::{
    all_ascii, all_digits, ascii_chars, decimal, digits_value, lemma_decimal_digits,
    lemma_decimal_parses, parse_bounded, split_on,
};
use crate::wire::{
    float_literal, lemma_ascii_valid_utf8, digit_run, is_digit, exponent_ok, equals_ignore_case, lower_ascii, lemma_escape_round_trip, lemma_split_append,
    lemma_split_no_sep, lines_of, escape_bytes, strip_cr, unescape_bytes,
};

verus! {

broadcast use vstd::utf8::encode_utf8_valid_utf8, vstd::utf8::encode_utf8_decode_utf8;

pub proof fn lemma_digits_free_of(s: Seq<u8>, c: u8)
    requires
        all_digits(s),
        !(0x30 <= c <= 0x39),
    ensures
        !s.contains(c),
{
    if s.contains(c) {
        let i = choose|i: int| 0 <= i < s.len() && s[i] == c;
        assert(crate::text::is_digit_byte(s[i]));
    }
}

pub proof fn lemma_concat_ascii(a: Seq<u8>, b: Seq<u8>)
    requires
        all_ascii(a),
        all_ascii(b),
    ensures
        all_ascii(a + b),
{
    assert forall|i: int| 0 <= i < (a + b).len() implies (a + b)[i] < 0x80 by {
        if i < a.len() {
            assert((a + b)[i] == a[i]);
        } else {
            assert((a + b)[i] == b[i - a.len()]);
        }
    }
}

pub proof fn lemma_concat_free_of(a: Seq<u8>, b: Seq<u8>, c: u8)
    requires
        !a.contains(c),
        !b.contains(c),
    ensures
        !(a + b).contains(c),
{
    if (a + b).contains(c) {
        let i = choose|i: int| 0 <= i < (a + b).len() && (a + b)[i] == c;
        if i < a.len() {
            assert(a[i] == c);
        } else {
            assert(b[i - a.len()] == c);
        }
    }
}

/// Decoding an encoded request gives back the request, for every request whose
/// search limit is within the protocol's bound.
pub proof fn lemma_request_round_trip(r: RequestView)
    requires
        r matches RequestView::Search { limit, .. } ==> limit <= MAX_SEARCH_LIMIT,
    ensures
        request_of(request_bytes(r)) == Ok::<RequestView, Fault>(r),
{
    let tab = tab();
    match r {
        RequestView::Ping => {
            let b = kw_ping();
            assert(all_ascii(b));
            lemma_ascii_valid_utf8(b);
            assert(!b.contains(tab)) by {
                if b.contains(tab) {
                    let i = choose|i: int| 0 <= i < b.len() && b[i] == tab;
                }
            }
            lemma_split_no_sep(b, tab);
        },
        RequestView::Status => {
            let b = kw_status();
            assert(all_ascii(b));
            lemma_ascii_valid_utf8(b);
            assert(!b.contains(tab)) by {
                if b.contains(tab) {
                    let i = choose|i: int| 0 <= i < b.len() && b[i] == tab;
                }
            }
            lemma_split_no_sep(b, tab);
            assert(b != kw_ping()) by {
                assert(b.len() != kw_ping().len());
            }
        },
        RequestView::Shutdown => {
            let b = kw_shutdown();
            assert(all_ascii(b));
            lemma_ascii_valid_utf8(b);
            assert(!b.contains(tab)) by {
                if b.contains(tab) {
                    let i = choose|i: int| 0 <= i < b.len() && b[i] == tab;
                }
            }
            lemma_split_no_sep(b, tab);
            assert(b != kw_ping() && b != kw_status()) by {
                assert(b.len() != kw_ping().len() && b.len() != kw_status().len());
            }
        },
        RequestView::Search { query, limit } => {
            let kw = kw_search();
            let d = decimal(limit as nat);
            let e = escape_bytes(encode_utf8(query));
            let b = request_bytes(r);
            lemma_decimal_digits(limit as nat);
            lemma_escape_round_trip(encode_utf8(query));
            lemma_digits_free_of(d, tab);
            assert(!kw.contains(tab)) by {
                if kw.contains(tab) {
                    let i = choose|i: int| 0 <= i < kw.len() && kw[i] == tab;
                }
            }
            assert(all_ascii(kw.push(tab)));
            assert(all_ascii(d.push(tab))) by {
                assert forall|i: int| 0 <= i < d.push(tab).len() implies d.push(tab)[i] < 0x80 by {
                    if i < d.len() {
                        assert(d.push(tab)[i] == d[i]);
                    }
                }
            }
            lemma_concat_ascii(kw.push(tab), d.push(tab));
            lemma_concat_ascii(kw.push(tab) + d.push(tab), e);
            assert(b == kw.push(tab) + d.push(tab) + e);
            lemma_ascii_valid_utf8(b);
            lemma_split_no_sep(kw, tab);
            lemma_split_append(kw, tab, d);
            assert(kw.push(tab) + d.push(tab) == (kw.push(tab) + d).push(tab));
            lemma_split_append(kw.push(tab) + d, tab, e);
            let f = split_on(b, tab);
            assert(f == seq![kw, d, e]);
            assert(kw != kw_ping() && kw != kw_status() && kw != kw_shutdown()) by {
                assert(kw.len() != kw_ping().len() && kw.len() != kw_shutdown().len());
                assert(kw[1] != kw_status()[1]);
            }
            lemma_decimal_parses(limit as nat, usize::MAX as nat);
            assert(number_field(f, 1, usize::MAX as nat) == Ok::<nat, Fault>(limit as nat));
            assert(unescape_bytes(e) == Some(encode_utf8(query)));
            assert(text_field(f, 2) == Ok::<Seq<char>, Fault>(query));
        },
    }
}

/// A frame read from the bytes that `write_frame` appended gives back the payload and
/// leaves whatever followed it.
pub proof fn lemma_frame_round_trip(payload: Seq<u8>, rest: Seq<u8>)
    requires
        payload.len() <= MAX_FRAME_SIZE,
    ensures
        ({
            let input = frame_bytes(payload) + rest;
            &&& input.len() >= 4
            &&& prefix_value(input) == payload.len()
            &&& input.len() >= 4 + prefix_value(input)
            &&& input.subrange(4, 4 + prefix_value(input) as int) == payload
            &&& input.skip(4 + prefix_value(input) as int) == rest
        }),
{
    let input = frame_bytes(payload) + rest;
    let n = payload.len();
    assert(input[0] == (n / 16777216 % 256) as u8);
    assert(input[1] == (n / 65536 % 256) as u8);
    assert(input[2] == (n / 256 % 256) as u8);
    assert(input[3] == (n % 256) as u8);
    assert(n / 16777216 % 256 * 16777216 + n / 65536 % 256 * 65536 + n / 256 % 256 * 256 + n % 256
        == n) by (nonlinear_arith)
        requires
            n <= 1048576,
    ;
    assert(input.subrange(4, 4 + n as int) =~= payload);
    assert(input.skip(4 + n as int) =~= rest);
}

// ---------------------------------------------------------------------------
// Responses
// ---------------------------------------------------------------------------

/// ASCII text without tab, line feed or carriage return: it fits in one field.
pub open spec fn plain_field(b: Seq<u8>) -> bool {
    &&& all_ascii(b)
    &&& !b.contains(0x09u8)
    &&& !b.contains(0x0Au8)
    &&& !b.contains(0x0Du8)
}

/// ASCII text without line breaks: it fits in one line.
pub open spec fn line_field(b: Seq<u8>) -> bool {
    &&& all_ascii(b)
    &&& !b.contains(0x0Au8)
    &&& !b.contains(0x0Du8)
}

proof fn lemma_line_concat(a: Seq<u8>, b: Seq<u8>)
    requires
        line_field(a),
        line_field(b),
    ensures
        line_field(a + b),
{
    lemma_concat_ascii(a, b);
    lemma_concat_free_of(a, b, 0x0Au8);
    lemma_concat_free_of(a, b, 0x0Du8);
}

proof fn lemma_high_bytes_plain(b: Seq<u8>)
    requires
        forall|i: int| 0 <= i < b.len() ==> 0x20 <= #[trigger] b[i] < 0x80,
    ensures
        plain_field(b),
{
    assert forall|c: u8| c < 0x20 implies !b.contains(c) by {
        if b.contains(c) {
            let i = choose|i: int| 0 <= i < b.len() && b[i] == c;
        }
    }
}

proof fn lemma_digit_run(t: Seq<u8>)
    ensures
        digit_run(t) <= t.len(),
        forall|i: int| 0 <= i < digit_run(t) ==> is_digit(#[trigger] t[i]),
    decreases t.len(),
{
    if t.len() > 0 && is_digit(t[0]) {
        lemma_digit_run(t.drop_first());
        assert forall|i: int| 0 <= i < digit_run(t) implies is_digit(#[trigger] t[i]) by {
            if i > 0 {
                assert(t[i] == t.drop_first()[i - 1]);
            }
        }
    }
}

proof fn lemma_exponent_bytes(s: Seq<u8>)
    requires
        exponent_ok(s),
    ensures
        forall|i: int| 0 <= i < s.len() ==> 0x2B <= #[trigger] s[i] < 0x80,
{
    if s.len() > 0 {
        let t = if s.len() > 1 && (s[1] == 0x2B || s[1] == 0x2D) {
            s.skip(2)
        } else {
            s.skip(1)
        };
        lemma_digit_run(t);
        assert forall|i: int| 0 <= i < s.len() implies 0x2B <= #[trigger] s[i] < 0x80 by {
            if s.len() > 1 && (s[1] == 0x2B || s[1] == 0x2D) {
                if i >= 2 {
                    assert(s[i] == t[i - 2]);
                }
            } else if i >= 1 {
                assert(s[i] == t[i - 1]);
            }
        }
    }
}

proof fn lemma_word_bytes(t: Seq<u8>, word: Seq<u8>)
    requires
        equals_ignore_case(t, word),
        forall|i: int| 0 <= i < word.len() ==> 0x61 <= #[trigger] word[i] <= 0x7A,
    ensures
        forall|i: int| 0 <= i < t.len() ==> 0x2B <= #[trigger] t[i] < 0x80,
{
    assert forall|i: int| 0 <= i < t.len() implies 0x2B <= #[trigger] t[i] < 0x80 by {
        assert(lower_ascii(t[i]) == word[i]);
    }
}

/// A float literal is plain ASCII: it fits in one field.
pub proof fn lemma_float_literal_plain(s: Seq<u8>)
    requires
        float_literal(s),
    ensures
        plain_field(s),
{
    let signed = s.len() > 0 && (s[0] == 0x2B || s[0] == 0x2D);
    let t = if signed {
        s.drop_first()
    } else {
        s
    };
    let inf = seq![0x69u8, 0x6E, 0x66];
    let infinity = seq![0x69u8, 0x6E, 0x66, 0x69, 0x6E, 0x69, 0x74, 0x79];
    let nan = seq![0x6Eu8, 0x61, 0x6E];
    assert(forall|i: int| 0 <= i < t.len() ==> 0x2B <= #[trigger] t[i] < 0x80) by {
        if equals_ignore_case(t, inf) {
            lemma_word_bytes(t, inf);
        } else if equals_ignore_case(t, infinity) {
            lemma_word_bytes(t, infinity);
        } else if equals_ignore_case(t, nan) {
            lemma_word_bytes(t, nan);
        } else {
            let a = digit_run(t);
            lemma_digit_run(t);
            let after_int = t.skip(a as int);
            if after_int.len() > 0 && after_int[0] == 0x2E {
                let frac = after_int.drop_first();
                let b = digit_run(frac);
                lemma_digit_run(frac);
                lemma_exponent_bytes(frac.skip(b as int));
                assert forall|i: int| 0 <= i < t.len() implies 0x2B <= #[trigger] t[i] < 0x80 by {
                    if i > a {
                        assert(t[i] == frac[i - a - 1]);
                        if i - a - 1 >= b {
                            assert(frac[i - a - 1] == frac.skip(b as int)[i - a - 1 - b]);
                        }
                    } else if i == a {
                        assert(t[i] == after_int[0]);
                    }
                }
            } else {
                lemma_exponent_bytes(after_int);
                assert forall|i: int| 0 <= i < t.len() implies 0x2B <= #[trigger] t[i] < 0x80 by {
                    if i >= a {
                        assert(t[i] == after_int[i - a]);
                    }
                }
            }
        }
    }
    assert forall|i: int| 0 <= i < s.len() implies 0x20 <= #[trigger] s[i] < 0x80 by {
        if signed {
            if i > 0 {
                assert(s[i] == t[i - 1]);
            }
        } else {
            assert(s[i] == t[i]);
        }
    }
    lemma_high_bytes_plain(s);
}

/// A result whose score text is an ASCII float literal, as results from a search are.
pub open spec fn wire_score(score: Seq<char>) -> bool {
    all_ascii(encode_utf8(score)) && float_literal(encode_utf8(score))
}

proof fn lemma_plain_pieces(h: HitView)
    requires
        wire_score(h.score),
    ensures
        plain_field(decimal(h.id as nat)),
        plain_field(encode_utf8(h.score)),
        plain_field(kind_bytes(h.kind)),
        plain_field(seq![flag_byte(h.hidden)]),
        plain_field(escape_bytes(encode_utf8(h.name))),
        plain_field(escape_bytes(h.path)),
{
    lemma_decimal_digits(h.id as nat);
    lemma_digits_free_of(decimal(h.id as nat), 0x09u8);
    lemma_digits_free_of(decimal(h.id as nat), 0x0Au8);
    lemma_digits_free_of(decimal(h.id as nat), 0x0Du8);
    lemma_float_literal_plain(encode_utf8(h.score));
    lemma_kind_bytes_round_trip(h.kind);
    lemma_high_bytes_plain(seq![flag_byte(h.hidden)]);
    lemma_escape_round_trip(encode_utf8(h.name));
    lemma_escape_round_trip(h.path);
}

/// A result line decodes to the result, and is plain ASCII.
pub proof fn lemma_hit_round_trip(h: HitView)
    requires
        wire_score(h.score),
    ensures
        hit_of(hit_line(h)) == Ok::<HitView, Fault>(h),
        line_field(hit_line(h)),
        hit_line(h).len() > 0,
{
    let t = tab();
    let d = decimal(h.id as nat);
    let sc = encode_utf8(h.score);
    let k = kind_bytes(h.kind);
    let fl = seq![flag_byte(h.hidden)];
    let e1 = escape_bytes(encode_utf8(h.name));
    let e2 = escape_bytes(h.path);
    lemma_plain_pieces(h);
    let a1 = d.push(t) + sc;
    let a2 = a1.push(t) + k;
    let a3 = a2.push(t) + fl;
    let a4 = a3.push(t) + e1;
    let a5 = a4.push(t) + e2;
    assert(hit_line(h) =~= a5);
    lemma_split_no_sep(d, t);
    lemma_split_append(d, t, sc);
    lemma_split_append(a1, t, k);
    lemma_split_append(a2, t, fl);
    lemma_split_append(a3, t, e1);
    lemma_split_append(a4, t, e2);
    let f = split_on(a5, t);
    assert(f =~= seq![d, sc, k, fl, e1, e2]);
    lemma_decimal_parses(h.id as nat, u64::MAX as nat);
    assert(number_field(f, 0, u64::MAX as nat) == Ok::<nat, Fault>(h.id as nat));
    lemma_ascii_valid_utf8(sc);
    assert(ascii_chars(sc) == h.score);
    lemma_kind_bytes_round_trip(h.kind);
    assert(bool_field(f, 3) == Ok::<bool, Fault>(h.hidden)) by {
        if h.hidden {
            assert(fl =~= seq![0x31u8]);
        } else {
            assert(fl =~= seq![0x30u8]);
        }
    }
    lemma_escape_round_trip(encode_utf8(h.name));
    lemma_escape_round_trip(h.path);
    assert(text_field(f, 4) == Ok::<Seq<char>, Fault>(h.name));
    // The line is ASCII without line breaks: so are its pieces and the tabs between.
    let tb = seq![t];
    assert(line_field(tb)) by {
        assert forall|c: u8| c == 0x0A || c == 0x0D implies !tb.contains(c) by {
            if tb.contains(c) {
                let i = choose|i: int| 0 <= i < tb.len() && tb[i] == c;
            }
        }
    }
    lemma_line_concat(d, tb);
    assert(d.push(t) == d + tb);
    lemma_line_concat(d.push(t), sc);
    lemma_line_concat(a1, tb);
    assert(a1.push(t) == a1 + tb);
    lemma_line_concat(a1.push(t), k);
    lemma_line_concat(a2, tb);
    assert(a2.push(t) == a2 + tb);
    lemma_line_concat(a2.push(t), fl);
    lemma_line_concat(a3, tb);
    assert(a3.push(t) == a3 + tb);
    lemma_line_concat(a3.push(t), e1);
    lemma_line_concat(a4, tb);
    assert(a4.push(t) == a4 + tb);
    lemma_line_concat(a4.push(t), e2);
}

pub open spec fn lines_of_hits(hits: Seq<HitView>) -> Seq<Seq<u8>> {
    hits.map_values(|h: HitView| hit_line(h))
}

/// A header followed by result lines splits into the header and one line per result.
proof fn lemma_split_hit_lines(head: Seq<u8>, hits: Seq<HitView>)
    requires
        line_field(head),
        forall|k: int| 0 <= k < hits.len() ==> wire_score(#[trigger] hits[k].score),
    ensures
        split_on(head + hit_lines(hits), 0x0Au8) == seq![head] + lines_of_hits(hits),
        all_ascii(head + hit_lines(hits)),
    decreases hits.len(),
{
    if hits.len() == 0 {
        assert(head + hit_lines(hits) =~= head);
        lemma_split_no_sep(head, 0x0Au8);
        assert(seq![head] + lines_of_hits(hits) =~= seq![head]);
    } else {
        let rest = hits.drop_last();
        assert forall|k: int| 0 <= k < rest.len() implies wire_score(#[trigger] rest[k].score) by {
            assert(rest[k] == hits[k]);
        }
        lemma_split_hit_lines(head, rest);
        let last = hits.last();
        assert(wire_score(hits[hits.len() - 1].score));
        lemma_hit_round_trip(last);
        let before = head + hit_lines(rest);
        assert(head + hit_lines(hits) =~= before.push(0x0Au8) + hit_line(last));
        lemma_split_append(before, 0x0Au8, hit_line(last));
        assert(lines_of_hits(hits) =~= lines_of_hits(rest).push(hit_line(last)));
        assert(seq![head] + lines_of_hits(hits) =~= (seq![head] + lines_of_hits(rest)).push(hit_line(last)));
        let lf = seq![0x0Au8];
        assert(all_ascii(lf));
        lemma_concat_ascii(before, lf);
        assert(before.push(0x0Au8) == before + lf);
        lemma_concat_ascii(before.push(0x0Au8), hit_line(last));
    }
}

/// Result lines decode, in order, to the results.
proof fn lemma_hits_round_trip(hits: Seq<HitView>)
    requires
        forall|k: int| 0 <= k < hits.len() ==> wire_score(#[trigger] hits[k].score),
    ensures
        hits_of(lines_of_hits(hits)) == Ok::<Seq<HitView>, Fault>(hits),
    decreases hits.len(),
{
    if hits.len() > 0 {
        let rest = hits.drop_first();
        assert forall|k: int| 0 <= k < rest.len() implies wire_score(#[trigger] rest[k].score) by {
            assert(rest[k] == hits[k + 1]);
        }
        lemma_hits_round_trip(rest);
        assert(wire_score(hits[0].score));
        lemma_hit_round_trip(hits[0]);
        assert(lines_of_hits(hits).drop_first() =~= lines_of_hits(rest));
        assert(lines_of_hits(hits)[0] == hit_line(hits[0]));
        assert(seq![hits[0]] + rest =~= hits);
    } else {
        assert(lines_of_hits(hits) =~= Seq::<Seq<u8>>::empty());
        assert(hits =~= Seq::<HitView>::empty());
    }
}

/// `str::lines` splits a header and result lines back apart.
proof fn lemma_lines_of_response(head: Seq<u8>, hits: Seq<HitView>)
    requires
        line_field(head),
        head.len() > 0,
        forall|k: int| 0 <= k < hits.len() ==> wire_score(#[trigger] hits[k].score),
    ensures
        lines_of(head + hit_lines(hits)) == seq![head] + lines_of_hits(hits),
        all_ascii(head + hit_lines(hits)),
{
    lemma_split_hit_lines(head, hits);
    let p = seq![head] + lines_of_hits(hits);
    let n = p.len();
    assert forall|k: int| 0 <= k < n implies line_field(#[trigger] p[k]) && p[k].len() > 0 by {
        if k > 0 {
            assert(p[k] == hit_line(hits[k - 1]));
            assert(wire_score(hits[k - 1].score));
            lemma_hit_round_trip(hits[k - 1]);
        }
    }
    assert forall|k: int| 0 <= k < n implies strip_cr(#[trigger] p[k]) == p[k] by {
        assert(line_field(p[k]) && p[k].len() > 0);
        if p[k].last() == 0x0D {
            assert(p[k].contains(p[k][p[k].len() - 1]));
        }
    }
    let body = p.take(n - 1).map_values(|l: Seq<u8>| strip_cr(l));
    assert(body =~= p.take(n - 1));
    assert(p[n - 1].len() > 0);
    assert(body.push(p[n - 1]) =~= p);
}

proof fn lemma_keywords()
    ensures
        plain_field(kw_ack()),
        plain_field(kw_pong()),
        plain_field(kw_status()),
        plain_field(kw_error()),
        plain_field(kw_results()),
        line_field(seq![tab()]),
        kw_ack().len() == 3,
        kw_pong().len() == 4,
        kw_error().len() == 5,
        kw_status().len() == 6,
        kw_results().len() == 7,
        lines_of_hits(Seq::<HitView>::empty()) == Seq::<Seq<u8>>::empty(),
{
    lemma_high_bytes_plain(kw_ack());
    lemma_high_bytes_plain(kw_pong());
    lemma_high_bytes_plain(kw_status());
    lemma_high_bytes_plain(kw_error());
    lemma_high_bytes_plain(kw_results());
    let tb = seq![tab()];
    assert forall|c: u8| c == 0x0A || c == 0x0D implies !tb.contains(c) by {
        if tb.contains(c) {
            let i = choose|i: int| 0 <= i < tb.len() && tb[i] == c;
        }
    }
    assert(lines_of_hits(Seq::<HitView>::empty()) =~= Seq::<Seq<u8>>::empty());
}

proof fn lemma_digits_plain(n: nat)
    ensures
        plain_field(decimal(n)),
{
    lemma_decimal_digits(n);
    lemma_digits_free_of(decimal(n), 0x09u8);
    lemma_digits_free_of(decimal(n), 0x0Au8);
    lemma_digits_free_of(decimal(n), 0x0Du8);
}

/// A single-line response: its only line is the whole payload, and it is valid UTF-8.
proof fn lemma_single_line(b: Seq<u8>)
    requires
        line_field(b),
        b.len() > 0,
    ensures
        lines_of(b) == seq![b],
        valid_utf8(b),
{
    let empty = Seq::<HitView>::empty();
    lemma_keywords();
    assert(b + hit_lines(empty) =~= b);
    lemma_lines_of_response(b, empty);
    assert(seq![b] + lines_of_hits(empty) =~= seq![b]);
    lemma_ascii_valid_utf8(b);
}

proof fn lemma_pong_round_trip(v: u16)
    ensures
        response_of(response_bytes(ResponseView::Pong { protocol_version: v })) == Ok::<ResponseView, Fault>(
            ResponseView::Pong { protocol_version: v },
        ),
{
    let t = tab();
    let tb = seq![t];
    let pong = kw_pong();
    lemma_keywords();
    let d = decimal(v as nat);
    lemma_digits_plain(v as nat);
    lemma_decimal_digits(v as nat);
    let b = pong.push(t) + d;
    assert(pong.push(t) == pong + tb);
    lemma_line_concat(pong, tb);
    lemma_line_concat(pong.push(t), d);
    lemma_single_line(b);
    lemma_split_no_sep(pong, t);
    lemma_split_append(pong, t, d);
    assert(split_on(b, t) =~= seq![pong, d]);
    lemma_decimal_parses(v as nat, u16::MAX as nat);
}

proof fn lemma_status_round_trip(st: DaemonStatus)
    ensures
        response_of(response_bytes(ResponseView::Status(st))) == Ok::<ResponseView, Fault>(
            ResponseView::Status(st),
        ),
{
    let t = tab();
    let tb = seq![t];
    let status = kw_status();
    lemma_keywords();
    let d1 = decimal(st.indexed_items as nat);
    let d2 = decimal(st.skipped_paths as nat);
    let fl = seq![flag_byte(st.truncated)];
    lemma_digits_plain(st.indexed_items as nat);
    lemma_digits_plain(st.skipped_paths as nat);
    lemma_high_bytes_plain(fl);
    let a1 = status.push(t) + d1;
    let a2 = a1.push(t) + d2;
    let b = a2.push(t) + fl;
    assert(b =~= response_bytes(ResponseView::Status(st)));
    assert(status.push(t) == status + tb);
    assert(a1.push(t) == a1 + tb);
    assert(a2.push(t) == a2 + tb);
    lemma_line_concat(status, tb);
    lemma_line_concat(status.push(t), d1);
    lemma_line_concat(a1, tb);
    lemma_line_concat(a1.push(t), d2);
    lemma_line_concat(a2, tb);
    lemma_line_concat(a2.push(t), fl);
    lemma_single_line(b);
    lemma_split_no_sep(status, t);
    lemma_split_append(status, t, d1);
    lemma_split_append(a1, t, d2);
    lemma_split_append(a2, t, fl);
    let f = split_on(b, t);
    assert(f =~= seq![status, d1, d2, fl]);
    lemma_decimal_parses(st.indexed_items as nat, usize::MAX as nat);
    lemma_decimal_parses(st.skipped_paths as nat, usize::MAX as nat);
    assert(bool_field(f, 3) == Ok::<bool, Fault>(st.truncated)) by {
        if st.truncated {
            assert(fl =~= seq![0x31u8]);
        } else {
            assert(fl =~= seq![0x30u8]);
        }
    }
    assert(status != kw_ack() && status != kw_pong());
}

proof fn lemma_error_round_trip(m: Seq<char>)
    ensures
        response_of(response_bytes(ResponseView::Error(m))) == Ok::<ResponseView, Fault>(ResponseView::Error(m)),
{
    let t = tab();
    let tb = seq![t];
    let error = kw_error();
    lemma_keywords();
    let e = escape_bytes(encode_utf8(m));
    lemma_escape_round_trip(encode_utf8(m));
    let b = error.push(t) + e;
    assert(error.push(t) == error + tb);
    lemma_line_concat(error, tb);
    lemma_line_concat(error.push(t), e);
    lemma_single_line(b);
    lemma_split_no_sep(error, t);
    lemma_split_append(error, t, e);
    assert(split_on(b, t) =~= seq![error, e]);
    assert(error != kw_ack() && error != kw_pong() && error != kw_status());
}

proof fn lemma_search_response_round_trip(elapsed_us: u64, hits: Seq<HitView>)
    requires
        hits.len() <= usize::MAX,
        forall|k: int| 0 <= k < hits.len() ==> wire_score(#[trigger] hits[k].score),
    ensures
        response_of(response_bytes(ResponseView::Search { elapsed_us, hits })) == Ok::<ResponseView, Fault>(
            ResponseView::Search { elapsed_us, hits },
        ),
{
    let t = tab();
    let tb = seq![t];
    let results = kw_results();
    lemma_keywords();
    let d1 = decimal(elapsed_us as nat);
    let d2 = decimal(hits.len());
    lemma_digits_plain(elapsed_us as nat);
    lemma_digits_plain(hits.len());
    let a1 = results.push(t) + d1;
    let head = a1.push(t) + d2;
    assert(results.push(t) == results + tb);
    assert(a1.push(t) == a1 + tb);
    lemma_line_concat(results, tb);
    lemma_line_concat(results.push(t), d1);
    lemma_line_concat(a1, tb);
    lemma_line_concat(a1.push(t), d2);
    let b = head + hit_lines(hits);
    assert(b == response_bytes(ResponseView::Search { elapsed_us, hits }));
    lemma_lines_of_response(head, hits);
    lemma_ascii_valid_utf8(b);
    lemma_split_no_sep(results, t);
    lemma_split_append(results, t, d1);
    lemma_split_append(a1, t, d2);
    assert(split_on(head, t) =~= seq![results, d1, d2]);
    lemma_decimal_parses(elapsed_us as nat, u64::MAX as nat);
    lemma_decimal_parses(hits.len(), usize::MAX as nat);
    lemma_hits_round_trip(hits);
    let ls = lines_of(b);
    assert(ls[0] == head);
    assert(ls.drop_first() =~= lines_of_hits(hits));
    assert(results != kw_ack() && results != kw_pong() && results != kw_status() && results != kw_error());
}

/// Decoding an encoded response gives back the response, for every response whose
/// result scores are ASCII float literals (as the scores of a search are) and whose
/// result count fits in a `usize`.
pub proof fn lemma_response_round_trip(r: ResponseView)
    requires
        r matches ResponseView::Search { hits, .. } ==> hits.len() <= usize::MAX && forall|k: int|
            0 <= k < hits.len() ==> wire_score(#[trigger] hits[k].score),
    ensures
        response_of(response_bytes(r)) == Ok::<ResponseView, Fault>(r),
{
    match r {
        ResponseView::Acknowledged => {
            lemma_keywords();
            lemma_single_line(kw_ack());
            lemma_split_no_sep(kw_ack(), tab());
        },
        ResponseView::Pong { protocol_version } => lemma_pong_round_trip(protocol_version),
        ResponseView::Status(st) => lemma_status_round_trip(st),
        ResponseView::Error(m) => lemma_error_round_trip(m),
        ResponseView::Search { elapsed_us, hits } => lemma_search_response_round_trip(elapsed_us, hits),
    }
}

/// A search request whose limit is over the protocol's bound is refused when it is
/// decoded, with the reason that says so.
pub proof fn lemma_excessive_limit_rejected(query: Seq<char>, limit: usize)
    requires
        limit > MAX_SEARCH_LIMIT,
    ensures
        request_of(request_bytes(RequestView::Search { query, limit })) == Err::<RequestView, Fault>(
            Fault::InvalidMessage("search limit exceeds 1000"@),
        ),
{
    let tab = tab();
    let kw = kw_search();
    let d = decimal(limit as nat);
    let e = escape_bytes(encode_utf8(query));
    let b = request_bytes(RequestView::Search { query, limit });
    lemma_decimal_digits(limit as nat);
    lemma_escape_round_trip(encode_utf8(query));
    lemma_digits_free_of(d, tab);
    assert(!kw.contains(tab)) by {
        if kw.contains(tab) {
            let i = choose|i: int| 0 <= i < kw.len() && kw[i] == tab;
        }
    }
    assert(all_ascii(kw.push(tab)));
    assert(all_ascii(d.push(tab))) by {
        assert forall|i: int| 0 <= i < d.push(tab).len() implies d.push(tab)[i] < 0x80 by {
            if i < d.len() {
                assert(d.push(tab)[i] == d[i]);
            }
        }
    }
    lemma_concat_ascii(kw.push(tab), d.push(tab));
    lemma_concat_ascii(kw.push(tab) + d.push(tab), e);
    assert(b == kw.push(tab) + d.push(tab) + e);
    lemma_ascii_valid_utf8(b);
    lemma_split_no_sep(kw, tab);
    lemma_split_append(kw, tab, d);
    assert(kw.push(tab) + d.push(tab) == (kw.push(tab) + d).push(tab));
    lemma_split_append(kw.push(tab) + d, tab, e);
    let f = split_on(b, tab);
    assert(f == seq![kw, d, e]);
    assert(kw != kw_ping() && kw != kw_status() && kw != kw_shutdown()) by {
        assert(kw.len() != kw_ping().len() && kw.len() != kw_shutdown().len());
        assert(kw[1] != kw_status()[1]);
    }
    lemma_decimal_parses(limit as nat, usize::MAX as nat);
    assert(number_field(f, 1, usize::MAX as nat) == Ok::<nat, Fault>(limit as nat));
}

} // verus!
