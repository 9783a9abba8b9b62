//! Building blocks of the text wire format: percent-escaped fields, line and field
//! splitting, and the lexical form of decimal scores.

use vstd::prelude::*;
use vstd::utf8::*;
use crate::text::{all_ascii, split_on, lemma_split_on_nonempty};

verus! {

pub open spec fn is_safe_byte(b: u8) -> bool {
    ||| 0x30 <= b <= 0x39
    ||| 0x41 <= b <= 0x5A
    ||| 0x61 <= b <= 0x7A
    ||| b == 0x2D  // -
    ||| b == 0x5F  // _
    ||| b == 0x2E  // .
    ||| b == 0x2F  // /
    ||| b == 0x7E  // ~
    ||| b == 0x20  // space
}

/// Upper-case hexadecimal digit of a nibble.
pub open spec fn hex_digit(v: u8) -> u8 {
    if v < 10 {
        (0x30 + v) as u8
    } else {
        (0x41 + v - 10) as u8
    }
}

/// Value of a hexadecimal digit of either case.
pub open spec fn hex_value(b: u8) -> Option<u8> {
    if 0x30 <= b <= 0x39 {
        Some((b - 0x30) as u8)
    } else if 0x61 <= b <= 0x66 {
        Some((b - 0x61 + 10) as u8)
    } else if 0x41 <= b <= 0x46 {
        Some((b - 0x41 + 10) as u8)
    } else {
        None
    }
}

/// The escaped form of one byte: itself when safe, else `%` and two upper-case hex digits.
pub open spec fn escape_byte(b: u8) -> Seq<u8> {
    if is_safe_byte(b) {
        seq![b]
    } else {
        seq![0x25u8, hex_digit(b / 16), hex_digit(b % 16)]
    }
}

/// Percent-escaping of a byte string.
pub open spec fn escape_bytes(s: Seq<u8>) -> Seq<u8>
    decreases s.len(),
{
    if s.len() == 0 {
        seq![]
    } else {
        escape_byte(s[0]) + escape_bytes(s.drop_first())
    }
}

/// Undoing percent-escaping; `None` for a `%` without two hex digits after it.
pub open spec fn unescape_bytes(s: Seq<u8>) -> Option<Seq<u8>>
    decreases s.len(),
{
    if s.len() == 0 {
        Some(seq![])
    } else if s[0] == 0x25 {
        if s.len() < 3 {
            None
        } else {
            match (hex_value(s[1]), hex_value(s[2])) {
                (Some(hi), Some(lo)) => match unescape_bytes(s.skip(3)) {
                    Some(rest) => Some(seq![(hi * 16 + lo) as u8] + rest),
                    None => None,
                },
                _ => None,
            }
        }
    } else {
        match unescape_bytes(s.skip(1)) {
            Some(rest) => Some(seq![s[0]] + rest),
            None => None,
        }
    }
}

pub proof fn lemma_escape_concat(a: Seq<u8>, b: Seq<u8>)
    ensures
        escape_bytes(a + b) == escape_bytes(a) + escape_bytes(b),
    decreases a.len(),
{
    if a.len() > 0 {
        lemma_escape_concat(a.drop_first(), b);
        assert((a + b).drop_first() == a.drop_first() + b);
    } else {
        assert(a + b == b);
    }
}

pub proof fn lemma_escape_byte_facts(b: u8)
    ensures
        all_ascii(escape_byte(b)),
        !escape_byte(b).contains(0x09u8),
        !escape_byte(b).contains(0x0Au8),
        !escape_byte(b).contains(0x0Du8),
        unescape_bytes(escape_byte(b)) == Some(seq![b]),
{
    if !is_safe_byte(b) {
        let e = escape_byte(b);
        assert(hex_value(hex_digit(b / 16)) == Some((b / 16) as u8));
        assert(hex_value(hex_digit(b % 16)) == Some((b % 16) as u8));
        assert(e.skip(3) =~= Seq::<u8>::empty());
        assert(unescape_bytes(Seq::<u8>::empty()) == Some(Seq::<u8>::empty()));
        assert(unescape_bytes(e.skip(3)) == Some(Seq::<u8>::empty()));
        assert(((b / 16) as u8 * 16 + (b % 16) as u8) as u8 == b);
        assert(unescape_bytes(e) == Some(seq![b] + Seq::<u8>::empty()));
        assert(seq![b] + Seq::<u8>::empty() =~= seq![b]);
    } else {
        let e = escape_byte(b);
        assert(e.skip(1) =~= Seq::<u8>::empty());
        assert(unescape_bytes(Seq::<u8>::empty()) == Some(Seq::<u8>::empty()));
        assert(unescape_bytes(e.skip(1)) == Some(Seq::<u8>::empty()));
        assert(seq![b] + Seq::<u8>::empty() =~= seq![b]);
    }
}

pub proof fn lemma_unescape_prefix(e: Seq<u8>, b: u8, rest: Seq<u8>)
    requires
        e == escape_byte(b),
    ensures
        unescape_bytes(e + rest) == match unescape_bytes(rest) {
            Some(r) => Some(seq![b] + r),
            None => None::<Seq<u8>>,
        },
{
    if is_safe_byte(b) {
        assert((e + rest).skip(1) == rest);
    } else {
        assert(hex_value(hex_digit(b / 16)) == Some((b / 16) as u8));
        assert(hex_value(hex_digit(b % 16)) == Some((b % 16) as u8));
        assert((e + rest).skip(3) == rest);
        assert(((b / 16) as u8 * 16 + (b % 16) as u8) as u8 == b);
    }
}

/// Escaping then unescaping gives back the bytes; escaped text is ASCII and holds
/// no tab, line feed or carriage return.
pub proof fn lemma_escape_round_trip(s: Seq<u8>)
    ensures
        unescape_bytes(escape_bytes(s)) == Some(s),
        all_ascii(escape_bytes(s)),
        !escape_bytes(s).contains(0x09u8),
        !escape_bytes(s).contains(0x0Au8),
        !escape_bytes(s).contains(0x0Du8),
    decreases s.len(),
{
    if s.len() == 0 {
        assert(escape_bytes(s) =~= Seq::<u8>::empty());
    } else {
        lemma_escape_round_trip(s.drop_first());
        lemma_escape_byte_facts(s[0]);
        lemma_unescape_prefix(escape_byte(s[0]), s[0], escape_bytes(s.drop_first()));
        assert(seq![s[0]] + s.drop_first() == s);
        let e = escape_byte(s[0]);
        let r = escape_bytes(s.drop_first());
        assert forall|i: int| 0 <= i < (e + r).len() implies (e + r)[i] < 0x80 by {
            if i < e.len() {
                assert((e + r)[i] == e[i]);
            } else {
                assert((e + r)[i] == r[i - e.len()]);
            }
        }
        assert forall|c: u8| c == 0x09 || c == 0x0A || c == 0x0D implies !(e + r).contains(c) by {
            if (e + r).contains(c) {
                let i = choose|i: int| 0 <= i < (e + r).len() && (e + r)[i] == c;
                if i < e.len() {
                    assert(e.contains(c));
                } else {
                    assert(r.contains(c)) by {
                        assert(r[i - e.len()] == c);
                    }
                }
            }
        }
    }
}

fn hex(value: u8) -> (c: u8)
    requires
        value < 16,
    ensures
        c == hex_digit(value),
{
    if value < 10 {
        0x30 + value
    } else {
        0x41 + value - 10
    }
}

fn unhex(value: u8) -> (r: Option<u8>)
    ensures
        r == hex_value(value),
{
    if 0x30 <= value && value <= 0x39 {
        Some(value - 0x30)
    } else if 0x61 <= value && value <= 0x66 {
        Some(value - 0x61 + 10)
    } else if 0x41 <= value && value <= 0x46 {
        Some(value - 0x41 + 10)
    } else {
        None
    }
}

/// Appends the escaped form of `bytes` to `out`.
pub fn encode_bytes_into(bytes: &[u8], out: &mut Vec<u8>)
    ensures
        final(out)@ == old(out)@ + escape_bytes(bytes@),
{
    let ghost start = out@;
    let mut i: usize = 0;
    assert(escape_bytes(bytes@.take(0)) =~= Seq::<u8>::empty());
    while i < bytes.len()
        invariant
            i <= bytes.len(),
            out@ == start + escape_bytes(bytes@.take(i as int)),
        decreases bytes.len() - i,
    {
        let b = bytes[i];
        let ghost before = out@;
        if (0x30 <= b && b <= 0x39) || (0x41 <= b && b <= 0x5A) || (0x61 <= b && b <= 0x7A) || b
            == 0x2D || b == 0x5F || b == 0x2E || b == 0x2F || b == 0x7E || b == 0x20 {
            out.push(b);
        } else {
            out.push(0x25);
            out.push(hex(b / 16));
            out.push(hex(b % 16));
        }
        assert(out@ =~= before + escape_byte(b));
        proof {
            lemma_escape_concat(bytes@.take(i as int), seq![b]);
            assert(bytes@.take(i + 1) == bytes@.take(i as int) + seq![b]);
            assert(escape_bytes(seq![b]) =~= escape_byte(b)) by {
                assert(seq![b].drop_first() =~= Seq::<u8>::empty());
                assert(escape_bytes(Seq::<u8>::empty()) =~= Seq::<u8>::empty());
                assert(escape_bytes(seq![b].drop_first()) =~= Seq::<u8>::empty());
            }
        }
        i += 1;
    }
    assert(bytes@.take(bytes.len() as int) == bytes@);
}

pub open spec fn prepend_opt(prefix: Seq<u8>, r: Option<Seq<u8>>) -> Option<Seq<u8>> {
    match r {
        Some(rest) => Some(prefix + rest),
        None => None,
    }
}

/// Undoes percent-escaping.
pub fn decode_bytes(value: &[u8]) -> (r: Option<Vec<u8>>)
    ensures
        r matches Some(v) ==> unescape_bytes(value@) == Some(v@),
        r is None ==> unescape_bytes(value@) is None,
{
    let mut output: Vec<u8> = Vec::new();
    let mut index: usize = 0;
    assert(value@.skip(0) == value@);
    assert(Seq::<u8>::empty() + value@ == value@);
    while index < value.len()
        invariant
            index <= value.len(),
            unescape_bytes(value@) == prepend_opt(output@, unescape_bytes(value@.skip(index as int))),
        decreases value.len() - index,
    {
        let ghost rest = value@.skip(index as int);
        if value[index] == 0x25 {
            if value.len() - index < 3 {
                return None;
            }
            let hi = unhex(value[index + 1]);
            let lo = unhex(value[index + 2]);
            assert(rest[1] == value@[index + 1] && rest[2] == value@[index + 2]);
            match (hi, lo) {
                (Some(h), Some(l)) => {
                    assert(rest.skip(3) == value@.skip(index + 3));
                    let ghost before = output@;
                    output.push(h * 16 + l);
                    assert(output@ == before + seq![(h * 16 + l) as u8]);
                    proof {
                        match unescape_bytes(value@.skip(index + 3)) {
                            Some(t) => {
                                assert(before + (seq![(h * 16 + l) as u8] + t) =~= output@ + t);
                            },
                            None => {},
                        }
                    }
                    index += 3;
                },
                _ => {
                    return None;
                },
            }
        } else {
            assert(rest.skip(1) == value@.skip(index + 1));
            let ghost before = output@;
            output.push(value[index]);
            proof {
                match unescape_bytes(value@.skip(index + 1)) {
                    Some(t) => {
                        assert(before + (seq![value@[index as int]] + t) =~= output@ + t);
                    },
                    None => {},
                }
            }
            index += 1;
        }
    }
    assert(value@.skip(value.len() as int) =~= Seq::<u8>::empty());
    assert(output@ + Seq::<u8>::empty() == output@);
    Some(output)
}

// ---------------------------------------------------------------------------
// Splitting laws
// ---------------------------------------------------------------------------

pub proof fn lemma_split_no_sep(s: Seq<u8>, sep: u8)
    requires
        !s.contains(sep),
    ensures
        split_on(s, sep) == seq![s],
    decreases s.len(),
{
    if s.len() > 0 {
        assert(!s.drop_last().contains(sep)) by {
            if s.drop_last().contains(sep) {
                let i = choose|i: int| 0 <= i < s.drop_last().len() && s.drop_last()[i] == sep;
                assert(s[i] == sep);
            }
        }
        lemma_split_no_sep(s.drop_last(), sep);
        assert(s.last() != sep) by {
            assert(s[s.len() - 1] == s.last());
        }
        assert(s.drop_last().push(s.last()) == s);
        let rest = split_on(s.drop_last(), sep);
        assert(rest == seq![s.drop_last()]);
        assert(rest.update(rest.len() - 1, rest.last().push(s.last())) =~= seq![s]);
    } else {
        assert(s =~= Seq::<u8>::empty());
        assert(split_on(s, sep) =~= seq![s]);
    }
}

/// Appending a separator and a separator-free piece adds exactly that piece.
pub proof fn lemma_split_append(a: Seq<u8>, sep: u8, b: Seq<u8>)
    requires
        !b.contains(sep),
    ensures
        split_on(a.push(sep) + b, sep) == split_on(a, sep).push(b),
    decreases b.len(),
{
    if b.len() == 0 {
        assert(a.push(sep) + b == a.push(sep));
        assert(a.push(sep).drop_last() == a);
        assert(b =~= Seq::<u8>::empty());
        assert(split_on(a.push(sep), sep) =~= split_on(a, sep).push(b));
    } else {
        assert(!b.drop_last().contains(sep)) by {
            if b.drop_last().contains(sep) {
                let i = choose|i: int| 0 <= i < b.drop_last().len() && b.drop_last()[i] == sep;
                assert(b[i] == sep);
            }
        }
        lemma_split_append(a, sep, b.drop_last());
        assert((a.push(sep) + b).drop_last() == a.push(sep) + b.drop_last());
        assert((a.push(sep) + b).last() == b.last());
        assert(b.last() != sep) by {
            assert(b[b.len() - 1] == b.last());
        }
        lemma_split_on_nonempty(a, sep);
        assert(b.drop_last().push(b.last()) == b);
        let rest = split_on(a.push(sep) + b.drop_last(), sep);
        assert(rest == split_on(a, sep).push(b.drop_last()));
        assert(rest.update(rest.len() - 1, rest.last().push(b.last())) =~= split_on(a, sep).push(b));
    }
}

proof fn lemma_low_byte(b: u8)
    requires
        b < 0x80,
    ensures
        (b & 0x7F) == b,
{
    assert((b & 0x7F) == b) by (bit_vector)
        requires
            b < 0x80,
    ;
}

pub proof fn lemma_ascii_valid_utf8(s: Seq<u8>)
    requires
        all_ascii(s),
    ensures
        valid_utf8(s),
        decode_utf8(s) == s.map_values(|b: u8| b as char),
    decreases s.len(),
{
    if s.len() > 0 {
        let rest = s.subrange(1, s.len() as int);
        assert(all_ascii(rest)) by {
            assert forall|i: int| 0 <= i < rest.len() implies rest[i] < 0x80 by {
                assert(rest[i] == s[i + 1]);
            }
        }
        lemma_ascii_valid_utf8(rest);
        assert(s[0] < 0x80);
        assert(pop_first_scalar(s) == rest);
        assert(s.map_values(|b: u8| b as char) =~= seq![s[0] as char] + rest.map_values(
            |b: u8| b as char,
        ));
        lemma_low_byte(s[0]);
        assert(decode_first_scalar(s) == s[0] as u32);
        assert((s[0] as u32) as char == s[0] as char);
    }
}

// ---------------------------------------------------------------------------
// Lines
// ---------------------------------------------------------------------------

pub open spec fn strip_cr(line: Seq<u8>) -> Seq<u8> {
    if line.len() > 0 && line.last() == 0x0D {
        line.drop_last()
    } else {
        line
    }
}

/// `str::lines`: pieces between line feeds, a carriage return before a line feed
/// dropped, and no final empty line after a trailing line feed.
pub open spec fn lines_of(s: Seq<u8>) -> Seq<Seq<u8>> {
    let p = split_on(s, 0x0Au8);
    let n = p.len();
    let body = p.take(n - 1).map_values(|l: Seq<u8>| strip_cr(l));
    if p[n - 1].len() > 0 {
        body.push(p[n - 1])
    } else {
        body
    }
}

/// Splits text into lines the way `str::lines` does.
pub fn split_lines(s: &[u8]) -> (out: Vec<Vec<u8>>)
    ensures
        out@.map_values(|l: Vec<u8>| l@) == lines_of(s@),
{
    let pieces = crate::text::split_at_byte(s, 0x0A);
    let ghost p = split_on(s@, 0x0Au8);
    let n = pieces.len();
    let mut out: Vec<Vec<u8>> = Vec::new();
    let mut i: usize = 0;
    while i + 1 < n
        invariant
            n == pieces.len(),
            n >= 1,
            i + 1 <= n,
            pieces@.map_values(|l: Vec<u8>| l@) == p,
            out@.map_values(|l: Vec<u8>| l@) == p.take(i as int).map_values(|l: Seq<u8>| strip_cr(l)),
        decreases n - i,
    {
        let piece = &pieces[i];
        assert(piece@ == p[i as int]);
        let mut line: Vec<u8> = Vec::new();
        let len = piece.len();
        let keep = if len > 0 && piece[len - 1] == 0x0D {
            len - 1
        } else {
            len
        };
        line.extend_from_slice(crate::text::copy_bytes(piece.as_slice()).as_slice());
        line.truncate(keep);
        assert(line@ =~= strip_cr(p[i as int]));
        let ghost before = out@;
        let ghost lv = line@;
        out.push(line);
        assert(out@.map_values(|l: Vec<u8>| l@) =~= before.map_values(|l: Vec<u8>| l@).push(lv));
        assert(p.take(i + 1) == p.take(i as int).push(p[i as int]));
        assert(p.take(i + 1).map_values(|l: Seq<u8>| strip_cr(l)) =~= p.take(i as int).map_values(
            |l: Seq<u8>| strip_cr(l),
        ).push(strip_cr(p[i as int])));
        i += 1;
    }
    let last = &pieces[n - 1];
    assert(last@ == p[n - 1]);
    if last.len() > 0 {
        out.push(crate::text::copy_bytes(last.as_slice()));
    }
    out
}

// ---------------------------------------------------------------------------
// Decimal scores
// ---------------------------------------------------------------------------

pub open spec fn is_digit(b: u8) -> bool {
    0x30 <= b <= 0x39
}

/// Number of leading ASCII digits.
pub open spec fn digit_run(s: Seq<u8>) -> nat
    decreases s.len(),
{
    if s.len() > 0 && is_digit(s[0]) {
        1 + digit_run(s.drop_first())
    } else {
        0
    }
}

pub open spec fn lower_ascii(b: u8) -> u8 {
    if 0x41 <= b <= 0x5A {
        (b + 32) as u8
    } else {
        b
    }
}

pub open spec fn equals_ignore_case(s: Seq<u8>, word: Seq<u8>) -> bool {
    s.len() == word.len() && forall|i: int| 0 <= i < s.len() ==> lower_ascii(#[trigger] s[i]) == word[i]
}

/// An exponent suffix: `e` or `E`, an optional sign, at least one digit.
pub open spec fn exponent_ok(s: Seq<u8>) -> bool {
    s.len() == 0 || ((s[0] == 0x65 || s[0] == 0x45) && {
        let t = if s.len() > 1 && (s[1] == 0x2B || s[1] == 0x2D) {
            s.skip(2)
        } else {
            s.skip(1)
        };
        t.len() > 0 && digit_run(t) == t.len()
    })
}

/// The text that `f32::from_str` accepts: an optional sign, then `inf`, `infinity` or
/// `nan` in any case, or digits with an optional fraction (at least one digit in all)
/// and an optional exponent.
pub open spec fn float_literal(s: Seq<u8>) -> bool {
    let t = if s.len() > 0 && (s[0] == 0x2B || s[0] == 0x2D) {
        s.drop_first()
    } else {
        s
    };
    ||| equals_ignore_case(t, seq![0x69u8, 0x6E, 0x66])
    ||| equals_ignore_case(t, seq![0x69u8, 0x6E, 0x66, 0x69, 0x6E, 0x69, 0x74, 0x79])
    ||| equals_ignore_case(t, seq![0x6Eu8, 0x61, 0x6E])
    ||| {
        let a = digit_run(t);
        let after_int = t.skip(a as int);
        if after_int.len() > 0 && after_int[0] == 0x2E {
            let frac = after_int.drop_first();
            let b = digit_run(frac);
            (a + b > 0) && exponent_ok(frac.skip(b as int))
        } else {
            a > 0 && exponent_ok(after_int)
        }
    }
}

fn count_digits(s: &[u8], from: usize) -> (n: usize)
    requires
        from <= s.len(),
    ensures
        n == digit_run(s@.skip(from as int)),
        from + n <= s.len(),
{
    let mut i: usize = s.len();
    // Count from the end backwards is awkward; walk forward instead.
    let mut k: usize = from;
    while k < s.len() && 0x30 <= s[k] && s[k] <= 0x39
        invariant
            from <= k <= s.len(),
            forall|j: int| from <= j < k ==> is_digit(s@[j]),
            digit_run(s@.skip(from as int)) == (k - from) + digit_run(s@.skip(k as int)),
        decreases s.len() - k,
    {
        assert(s@.skip(k as int).drop_first() == s@.skip(k + 1));
        assert(s@.skip(k as int)[0] == s@[k as int]);
        k += 1;
    }
    assert(digit_run(s@.skip(k as int)) == 0) by {
        if k < s.len() {
            assert(s@.skip(k as int)[0] == s@[k as int]);
        }
    }
    let _ = i;
    k - from
}

fn is_word_ignore_case(s: &[u8], from: usize, word: &[u8]) -> (r: bool)
    requires
        from <= s.len(),
    ensures
        r == equals_ignore_case(s@.skip(from as int), word@),
{
    if s.len() - from != word.len() {
        return false;
    }
    let mut i: usize = 0;
    while i < word.len()
        invariant
            s.len() - from == word.len(),
            i <= word.len(),
            forall|j: int| 0 <= j < i ==> lower_ascii(#[trigger] s@.skip(from as int)[j]) == word@[j],
        decreases word.len() - i,
    {
        let b = s[from + i];
        assert(s@.skip(from as int)[i as int] == b);
        let lower = if 0x41 <= b && b <= 0x5A {
            b + 32
        } else {
            b
        };
        if lower != word[i] {
            return false;
        }
        i += 1;
    }
    true
}

fn exponent_valid(s: &[u8], from: usize) -> (r: bool)
    requires
        from <= s.len(),
    ensures
        r == exponent_ok(s@.skip(from as int)),
{
    let ghost t = s@.skip(from as int);
    if from == s.len() {
        return true;
    }
    assert(t[0] == s@[from as int]);
    if !(s[from] == 0x65 || s[from] == 0x45) {
        return false;
    }
    let mut start = from + 1;
    if start < s.len() && (s[start] == 0x2B || s[start] == 0x2D) {
        assert(t[1] == s@[start as int]);
        start = start + 1;
        assert(t.skip(2) == s@.skip(start as int));
    } else {
        assert(t.len() > 1 ==> t[1] == s@[start as int]);
        assert(t.skip(1) == s@.skip(start as int));
    }
    let n = count_digits(s, start);
    n > 0 && start + n == s.len()
}

/// Whether `s` is text that `f32::from_str` accepts.
pub fn is_float_literal(s: &[u8]) -> (r: bool)
    ensures
        r == float_literal(s@),
{
    let from: usize = if s.len() > 0 && (s[0] == 0x2B || s[0] == 0x2D) {
        1
    } else {
        0
    };
    let ghost t = s@.skip(from as int);
    assert(from == 1 ==> t == s@.drop_first());
    assert(from == 0 ==> t == s@);
    let inf = vec![0x69u8, 0x6E, 0x66];
    let infinity = vec![0x69u8, 0x6E, 0x66, 0x69, 0x6E, 0x69, 0x74, 0x79];
    let nan = vec![0x6Eu8, 0x61, 0x6E];
    assert(inf@ =~= seq![0x69u8, 0x6E, 0x66]);
    assert(infinity@ =~= seq![0x69u8, 0x6E, 0x66, 0x69, 0x6E, 0x69, 0x74, 0x79]);
    assert(nan@ =~= seq![0x6Eu8, 0x61, 0x6E]);
    if is_word_ignore_case(s, from, inf.as_slice()) || is_word_ignore_case(s, from, infinity.as_slice())
        || is_word_ignore_case(s, from, nan.as_slice()) {
        return true;
    }
    let a = count_digits(s, from);
    let after = from + a;
    assert(t.skip(a as int) == s@.skip(after as int));
    if after < s.len() && s[after] == 0x2E {
        assert(s@.skip(after as int)[0] == s@[after as int]);
        assert(s@.skip(after as int).drop_first() == s@.skip(after + 1));
        let b = count_digits(s, after + 1);
        assert(s@.skip(after + 1).skip(b as int) == s@.skip(after + 1 + b));
        (a + b > 0) && exponent_valid(s, after + 1 + b)
    } else {
        assert(after < s.len() ==> s@.skip(after as int)[0] == s@[after as int]);
        a > 0 && exponent_valid(s, after)
    }
}

} // verus!
