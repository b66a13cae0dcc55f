//! Text primitives shared by the record parser and the emitters: decimal
//! formatting and parsing of integers, and separator-based splitting.
//!
//! A numeric field of a glyph record is a plain decimal with an optional sign
//! and an optional fractional part; its value is floored to an integer and
//! clamped to the engine's coordinate range.  Anything else is a textual
//! field.

use crate::geom::COORD_LIMIT;
use vstd::prelude::*;

verus! {

/// The value of a decimal digit character, or `-1` for any other character.
pub open spec fn digit_val(c: char) -> int {
    if c == '0' {
        0
    } else if c == '1' {
        1
    } else if c == '2' {
        2
    } else if c == '3' {
        3
    } else if c == '4' {
        4
    } else if c == '5' {
        5
    } else if c == '6' {
        6
    } else if c == '7' {
        7
    } else if c == '8' {
        8
    } else if c == '9' {
        9
    } else {
        -1
    }
}

pub open spec fn is_digit_char(c: char) -> bool {
    digit_val(c) >= 0
}

/// The character of a decimal digit.
pub open spec fn digit_char(d: int) -> char {
    if d == 0 {
        '0'
    } else if d == 1 {
        '1'
    } else if d == 2 {
        '2'
    } else if d == 3 {
        '3'
    } else if d == 4 {
        '4'
    } else if d == 5 {
        '5'
    } else if d == 6 {
        '6'
    } else if d == 7 {
        '7'
    } else if d == 8 {
        '8'
    } else {
        '9'
    }
}

/// The canonical decimal spelling of a nonnegative integer.
pub open spec fn spec_nat_chars(n: int) -> Seq<char>
    decreases n,
{
    if n <= 9 {
        seq![digit_char(n)]
    } else {
        spec_nat_chars(n / 10).push(digit_char(n % 10))
    }
}

/// The canonical decimal spelling of an integer, minus sign included.
pub open spec fn spec_int_chars(n: int) -> Seq<char> {
    if n < 0 {
        seq!['-'] + spec_nat_chars(-n)
    } else {
        spec_nat_chars(n)
    }
}

/// The value of a sequence of decimal digits, most significant first.
pub open spec fn digits_val(s: Seq<char>) -> int
    decreases s.len(),
{
    if s.len() == 0 {
        0
    } else {
        digits_val(s.drop_last()) * 10 + digit_val(s.last())
    }
}

/// Whether some character of `s` is not `'0'`.
pub open spec fn has_nonzero(s: Seq<char>) -> bool {
    exists|i: int| 0 <= i < s.len() && (#[trigger] s[i]) != '0'
}

pub open spec fn all_digits(s: Seq<char>) -> bool {
    forall|i: int| 0 <= i < s.len() ==> is_digit_char(#[trigger] s[i])
}

/// The index of the first occurrence of `sep` in `s`, or `-1`.
pub open spec fn first_index(s: Seq<char>, sep: char) -> int
    decreases s.len(),
{
    if s.len() == 0 {
        -1
    } else if s[0] == sep {
        0
    } else {
        let r = first_index(s.drop_first(), sep);
        if r < 0 {
            -1
        } else {
            r + 1
        }
    }
}

/// `s` split at every occurrence of `sep`; `n` separators give `n + 1`
/// pieces, in order, separators dropped.
pub open spec fn spec_split(s: Seq<char>, sep: char) -> Seq<Seq<char>>
    decreases s.len(),
{
    let i = first_index(s, sep);
    if 0 <= i < s.len() {
        seq![s.take(i)] + spec_split(s.skip(i + 1), sep)
    } else {
        seq![s]
    }
}

/// The numeric reading of a record field: an optional sign, then decimal
/// digits with at most one point, floored to an integer.  `None` for a
/// textual field.
#[verifier::opaque]
pub open spec fn spec_token_num(t: Seq<char>) -> Option<int> {
    let signed = t.len() > 0 && (t[0] == '+' || t[0] == '-');
    let neg = t.len() > 0 && t[0] == '-';
    let body = if signed {
        t.drop_first()
    } else {
        t
    };
    let dot = first_index(body, '.');
    if dot < 0 {
        if body.len() > 0 && all_digits(body) {
            Some(
                if neg {
                    -digits_val(body)
                } else {
                    digits_val(body)
                },
            )
        } else {
            None
        }
    } else {
        let ip = body.take(dot);
        let fp = body.skip(dot + 1);
        if all_digits(ip) && all_digits(fp) && ip.len() + fp.len() > 0 {
            let frac_pos = has_nonzero(fp);
            Some(
                if neg {
                    if frac_pos {
                        -digits_val(ip) - 1
                    } else {
                        -digits_val(ip)
                    }
                } else {
                    digits_val(ip)
                },
            )
        } else {
            None
        }
    }
}

/// An integer clamped to the engine's coordinate range.
pub open spec fn spec_clamp(v: int) -> int {
    if v < -(COORD_LIMIT as int) {
        -(COORD_LIMIT as int)
    } else if v > COORD_LIMIT as int {
        COORD_LIMIT as int
    } else {
        v
    }
}

/// The parsed value of a numeric field: its floor, clamped.
pub open spec fn spec_field_num(t: Seq<char>) -> Option<int> {
    match spec_token_num(t) {
        Some(v) => Some(spec_clamp(v)),
        None => None,
    }
}

pub fn digit_of(c: char) -> (r: i64)
    ensures
        r == digit_val(c),
{
    match c {
        '0' => 0,
        '1' => 1,
        '2' => 2,
        '3' => 3,
        '4' => 4,
        '5' => 5,
        '6' => 6,
        '7' => 7,
        '8' => 8,
        '9' => 9,
        _ => -1,
    }
}

pub fn digit_char_of(d: u64) -> (r: char)
    requires
        d <= 9,
    ensures
        r == digit_char(d as int),
{
    match d {
        0 => '0',
        1 => '1',
        2 => '2',
        3 => '3',
        4 => '4',
        5 => '5',
        6 => '6',
        7 => '7',
        8 => '8',
        _ => '9',
    }
}

/// The canonical decimal spelling of a nonnegative integer.
pub fn fmt_nat_units(n: u64, out: &mut Vec<char>)
    ensures
        final(out)@ == old(out)@ + spec_nat_chars(n as int),
    decreases n,
{
    if n <= 9 {
        out.push(digit_char_of(n));
    } else {
        fmt_nat_units(n / 10, out);
        out.push(digit_char_of(n % 10));
        proof {
            assert(final(out)@ =~= old(out)@ + spec_nat_chars(n as int));
        }
    }
}

/// Appends the canonical decimal spelling of `n` to `out`.
pub fn fmt_int(n: i64, out: &mut Vec<char>)
    ensures
        final(out)@ == old(out)@ + spec_int_chars(n as int),
{
    if n < 0 {
        out.push('-');
        let magnitude: u64 = if n == i64::MIN {
            9_223_372_036_854_775_808
        } else {
            (-n) as u64
        };
        fmt_nat_units(magnitude, out);
        proof {
            assert(final(out)@ =~= old(out)@ + spec_int_chars(n as int));
        }
    } else {
        fmt_nat_units(n as u64, out);
    }
}

/// Finds the first occurrence of `sep` in `s` at or after `from`.
fn find_char(s: &str, from: usize, len: usize, sep: char) -> (r: Option<usize>)
    requires
        from <= len,
        len == s@.len(),
    ensures
        match r {
            Some(j) => from <= j < len && s@[j as int] == sep && first_index(
                s@.skip(from as int),
                sep,
            ) == j - from,
            None => first_index(s@.skip(from as int), sep) < 0,
        },
{
    let mut i = from;
    while i < len
        invariant
            from <= i <= len,
            len == s@.len(),
            forall|k: int| from <= k < i ==> s@[k] != sep,
        decreases len - i,
    {
        if s.get_char(i) == sep {
            proof {
                lemma_first_index_found(s@.skip(from as int), sep, i - from);
            }
            return Some(i);
        }
        i += 1;
    }
    proof {
        lemma_first_index_absent(s@.skip(from as int), sep);
    }
    None
}

/// In a sequence whose first `j` characters differ from `sep` and whose
/// `j`-th character is `sep`, the first occurrence is at `j`.
pub proof fn lemma_first_index_found(t: Seq<char>, sep: char, j: int)
    requires
        0 <= j < t.len(),
        t[j] == sep,
        forall|k: int| 0 <= k < j ==> t[k] != sep,
    ensures
        first_index(t, sep) == j,
    decreases j,
{
    if j > 0 {
        lemma_first_index_found(t.drop_first(), sep, j - 1);
    }
}

/// A sequence without `sep` has no first occurrence of it.
pub proof fn lemma_first_index_absent(t: Seq<char>, sep: char)
    requires
        forall|k: int| 0 <= k < t.len() ==> t[k] != sep,
    ensures
        first_index(t, sep) < 0,
    decreases t.len(),
{
    if t.len() > 0 {
        lemma_first_index_absent(t.drop_first(), sep);
    }
}

/// The first occurrence of `sep`, when there is one, lies within `s`.
pub proof fn lemma_first_index_range(s: Seq<char>, sep: char)
    ensures
        first_index(s, sep) < s.len(),
        first_index(s, sep) >= 0 ==> s[first_index(s, sep)] == sep,
        first_index(s, sep) >= -1,
    decreases s.len(),
{
    if s.len() > 0 && s[0] != sep {
        lemma_first_index_range(s.drop_first(), sep);
    }
}

/// Splits `s` at every occurrence of `sep`.
pub fn split_str(s: &str, sep: char) -> (r: Vec<String>)
    ensures
        r@.map_values(|t: String| t@) == spec_split(s@, sep),
        r@.len() >= 1,
    decreases s@.len(),
{
    let len = s.unicode_len();
    proof {
        lemma_first_index_range(s@, sep);
    }
    match find_char(s, 0, len, sep) {
        None => {
            let mut r: Vec<String> = Vec::new();
            r.push(String::from_str(s));
            proof {
                assert(s@.skip(0) =~= s@);
                assert(r@.map_values(|t: String| t@) =~= spec_split(s@, sep));
            }
            r
        },
        Some(j) => {
            let head = s.substring_char(0, j);
            let tail = s.substring_char(j + 1, len);
            proof {
                assert(s@.skip(0) =~= s@);
                assert(tail@ =~= s@.skip(j + 1));
                assert(head@ =~= s@.take(j as int));
            }
            let mut r: Vec<String> = Vec::new();
            r.push(String::from_str(head));
            let mut rest = split_str(tail, sep);
            r.append(&mut rest);
            proof {
                assert(r@.map_values(|t: String| t@) =~= spec_split(s@, sep));
            }
            r
        },
    }
}

/// Whether every character of `s` in `[from, to)` is a decimal digit.
fn check_digits(s: &str, from: usize, to: usize) -> (ok: bool)
    requires
        from <= to <= s@.len(),
    ensures
        ok == all_digits(s@.subrange(from as int, to as int)),
{
    let ghost sub = s@.subrange(from as int, to as int);
    let mut i = from;
    while i < to
        invariant
            from <= i <= to <= s@.len(),
            sub == s@.subrange(from as int, to as int),
            forall|k: int| 0 <= k < i - from ==> is_digit_char(#[trigger] sub[k]),
        decreases to - i,
    {
        if digit_of(s.get_char(i)) < 0 {
            proof {
                assert(sub[i - from] == s@[i as int]);
            }
            return false;
        }
        i += 1;
    }
    true
}

/// The value of the digits of `s` in `[from, to)`, saturated above the
/// coordinate range so that clamping is unaffected.
fn eval_digits(s: &str, from: usize, to: usize) -> (acc: i64)
    requires
        from <= to <= s@.len(),
        all_digits(s@.subrange(from as int, to as int)),
    ensures
        0 <= acc <= 10 * COORD_LIMIT + 9,
        digits_val(s@.subrange(from as int, to as int)) <= COORD_LIMIT as int ==> acc
            == digits_val(s@.subrange(from as int, to as int)),
        digits_val(s@.subrange(from as int, to as int)) > COORD_LIMIT as int ==> acc
            > COORD_LIMIT,
{
    let ghost sub = s@.subrange(from as int, to as int);
    proof {
        lemma_digits_val_nonneg(sub);
    }
    let mut acc: i64 = 0;
    let mut i = from;
    while i < to
        invariant
            from <= i <= to <= s@.len(),
            sub == s@.subrange(from as int, to as int),
            all_digits(sub),
            0 <= acc <= 10 * COORD_LIMIT + 9,
            digits_val(sub.take(i - from)) <= COORD_LIMIT as int ==> acc == digits_val(
                sub.take(i - from),
            ),
            digits_val(sub.take(i - from)) > COORD_LIMIT as int ==> acc > COORD_LIMIT,
        decreases to - i,
    {
        let d = digit_of(s.get_char(i));
        proof {
            assert(sub[i - from] == s@[i as int]);
            assert(sub.take(i - from + 1).drop_last() =~= sub.take(i - from));
            assert(sub.take(i - from + 1).last() == sub[i - from]);
            lemma_digits_val_nonneg(sub.take(i - from));
        }
        if acc <= COORD_LIMIT {
            acc = acc * 10 + d;
        }
        i += 1;
    }
    proof {
        assert(sub.take(to - from) =~= sub);
    }
    acc
}

/// A digit sequence has a nonnegative value, monotone in its prefixes.
proof fn lemma_digits_val_nonneg(s: Seq<char>)
    requires
        all_digits(s),
    ensures
        digits_val(s) >= 0,
        forall|k: int|
            0 <= k <= s.len() ==> digits_val(#[trigger] s.take(k)) <= digits_val(s),
    decreases s.len(),
{
    if s.len() > 0 {
        assert(forall|i: int| 0 <= i < s.drop_last().len() ==> s.drop_last()[i] == s[i]);
        lemma_digits_val_nonneg(s.drop_last());
        assert(digit_val(s.last()) >= 0);
        assert forall|k: int| 0 <= k <= s.len() implies digits_val(#[trigger] s.take(k))
            <= digits_val(s) by {
            if k < s.len() {
                assert(s.take(k) =~= s.drop_last().take(k));
            } else {
                assert(s.take(k) =~= s);
            }
        }
    }
}

/// Whether some character of `s` in `[from, to)` is not `'0'`.
fn any_nonzero(s: &str, from: usize, to: usize) -> (r: bool)
    requires
        from <= to <= s@.len(),
    ensures
        r == has_nonzero(s@.subrange(from as int, to as int)),
{
    let ghost sub = s@.subrange(from as int, to as int);
    let mut i = from;
    while i < to
        invariant
            from <= i <= to <= s@.len(),
            sub == s@.subrange(from as int, to as int),
            forall|k: int| 0 <= k < i - from ==> (#[trigger] sub[k]) == '0',
        decreases to - i,
    {
        if s.get_char(i) != '0' {
            proof {
                assert(sub[i - from] == s@[i as int]);
                assert(has_nonzero(sub));
            }
            return true;
        }
        i += 1;
    }
    proof {
        assert(!has_nonzero(sub));
    }
    false
}

/// Parses a record field as a number: its floor, clamped to the coordinate
/// range.  Returns `None` for a textual field.
pub fn parse_field_num(s: &str) -> (r: Option<i64>)
    ensures
        match spec_field_num(s@) {
            Some(v) => r == Some(v as i64),
            None => r is None,
        },
{
    let len = s.unicode_len();
    let mut start: usize = 0;
    let mut neg = false;
    if len > 0 {
        let c0 = s.get_char(0);
        if c0 == '+' || c0 == '-' {
            neg = c0 == '-';
            start = 1;
        }
    }
    let ghost body = s@.skip(start as int);
    proof {
        lemma_first_index_range(body, '.');
        if start == 0 {
            assert(body =~= s@);
        } else {
            assert(body =~= s@.drop_first());
        }
    }
    match find_char(s, start, len, '.') {
        None => {
            proof {
                assert(body =~= s@.subrange(start as int, len as int));
            }
            if start == len {
                proof {
                    assert(body.len() == 0);
                    reveal(spec_token_num);
                    assert(spec_token_num(s@) is None);
                }
                return None;
            }
            if !check_digits(s, start, len) {
                proof {
                    assert(!all_digits(body));
                    reveal(spec_token_num);
                    assert(spec_token_num(s@) is None);
                }
                return None;
            }
            let v = eval_digits(s, start, len);
            proof {
                lemma_digits_val_nonneg(body);
                reveal(spec_token_num);
                assert(spec_token_num(s@) == Some(if neg { -digits_val(body) } else { digits_val(body) }));
            }
            if v > COORD_LIMIT {
                let rr = if neg { -COORD_LIMIT } else { COORD_LIMIT };
                proof {
                    assert(digits_val(body) > COORD_LIMIT);
                    assert(spec_field_num(s@) == Some(rr as int));
                }
                Some(rr)
            } else {
                let rr = if neg { -v } else { v };
                proof {
                    assert(digits_val(body) == v);
                    assert(spec_field_num(s@) == Some(rr as int));
                }
                Some(rr)
            }
        },
        Some(j) => {
            let ghost dot = j - start;
            proof {
                assert(body =~= s@.subrange(start as int, len as int));
                assert(body.take(dot) =~= s@.subrange(start as int, j as int));
                assert(body.skip(dot + 1) =~= s@.subrange(j + 1, len as int));
            }
            proof {
                assert(first_index(body, '.') == dot);
                assert(0 <= dot);
            }
            let ok1 = check_digits(s, start, j);
            let ok2 = check_digits(s, j + 1, len);
            if !ok1 || !ok2 {
                proof {
                    assert(!(all_digits(body.take(dot)) && all_digits(body.skip(dot + 1))));
                    reveal(spec_token_num);
                    assert(spec_token_num(s@) is None);
                }
                return None;
            }
            if j == start && j + 1 == len {
                // a bare point has no digits at all
                proof {
                    reveal(spec_token_num);
                    assert(spec_token_num(s@) is None);
                }
                return None;
            }
            let iv = eval_digits(s, start, j);
            proof {
                lemma_digits_val_nonneg(body.take(dot));
            }
            let frac_pos = any_nonzero(s, j + 1, len);
            proof {
                assert(frac_pos == has_nonzero(body.skip(dot + 1)));
                reveal(spec_token_num);
                assert(spec_token_num(s@) is Some);
            }
            if iv > COORD_LIMIT {
                let rr = if neg { -COORD_LIMIT } else { COORD_LIMIT };
                proof {
                    assert(digits_val(body.take(dot)) > COORD_LIMIT);
                    assert(spec_field_num(s@) == Some(rr as int));
                }
                Some(rr)
            } else if neg {
                proof {
                    assert(digits_val(body.take(dot)) == iv);
                }
                let w: i64 = if frac_pos { -iv - 1 } else { -iv };
                let rr = if w < -COORD_LIMIT { -COORD_LIMIT } else { w };
                proof {
                    reveal(spec_token_num);
                    assert(spec_token_num(s@) == Some(
                        if frac_pos { -digits_val(body.take(dot)) - 1 } else { -digits_val(body.take(dot)) }
                    ));
                    assert(spec_token_num(s@) == Some(w as int));
                    assert(spec_field_num(s@) == Some(spec_clamp(w as int)));
                    assert(rr as int == spec_clamp(w as int));
                    assert(spec_field_num(s@) == Some(rr as int));
                }
                Some(rr)
            } else {
                proof {
                    assert(digits_val(body.take(dot)) == iv);
                    assert(spec_field_num(s@) == Some(iv as int));
                }
                Some(iv)
            }
        },
    }
}

/// Appends every character of `s` to `out`.
pub fn push_str_chars(out: &mut Vec<char>, s: &str)
    ensures
        final(out)@ == old(out)@ + s@,
{
    let n = s.unicode_len();
    let mut i: usize = 0;
    while i < n
        invariant
            i <= n,
            n == s@.len(),
            out@ == old(out)@ + s@.take(i as int),
        decreases n - i,
    {
        out.push(s.get_char(i));
        proof {
            assert(s@.take(i + 1) =~= s@.take(i as int).push(s@[i as int]));
            assert(out@ =~= old(out)@ + s@.take(i + 1));
        }
        i += 1;
    }
    proof {
        assert(s@.take(n as int) =~= s@);
    }
}

/// Relies on String implementing FromIterator over characters: collecting
/// yields the string of exactly the collected characters, in order.
#[verifier::external_body]
pub(crate) fn chars_to_string(v: &Vec<char>) -> (s: String)
    ensures
        s@ == v@,
{
    v.iter().collect()
}

/// The canonical spelling of an integer reads back as that integer: its
/// characters are a sign followed by digits, so the numeric field grammar
/// accepts it and evaluates it exactly.
pub proof fn lemma_int_chars_roundtrip(n: int)
    ensures
        spec_token_num(spec_int_chars(n)) == Some(n),
        forall|c: char| spec_int_chars(n).contains(c) ==> c != ':' && c != '$',
{
    reveal(spec_token_num);
    lemma_nat_chars_digits(if n < 0 {
        -n
    } else {
        n
    });
    let t = spec_int_chars(n);
    if n < 0 {
        let body = t.drop_first();
        assert(body =~= spec_nat_chars(-n));
        assert(t[0] == '-');
        lemma_no_dot_in_digits(body);
        lemma_first_index_absent(body, '.');
    } else {
        assert(t == spec_nat_chars(n));
        assert(is_digit_char(t[0]));
        assert(t[0] != '+' && t[0] != '-');
        lemma_no_dot_in_digits(t);
        lemma_first_index_absent(t, '.');
    }
    assert forall|c: char| t.contains(c) implies c != ':' && c != '$' by {
        let i = choose|i: int| 0 <= i < t.len() && t[i] == c;
        if n < 0 && i == 0 {
        } else {
            assert(is_digit_char(c));
        }
    }
}

/// Digits are not points, signs or separators.
proof fn lemma_no_dot_in_digits(s: Seq<char>)
    requires
        all_digits(s),
    ensures
        forall|k: int| 0 <= k < s.len() ==> s[k] != '.',
{
    assert forall|k: int| 0 <= k < s.len() implies s[k] != '.' by {
        assert(is_digit_char(s[k]));
    }
}

/// The canonical digits of `n` are digits and evaluate back to `n`.
pub proof fn lemma_nat_chars_digits(n: int)
    requires
        n >= 0,
    ensures
        all_digits(spec_nat_chars(n)),
        digits_val(spec_nat_chars(n)) == n,
        spec_nat_chars(n).len() >= 1,
    decreases n,
{
    if n <= 9 {
        let s = spec_nat_chars(n);
        assert(s.drop_last() =~= Seq::<char>::empty());
        assert(digits_val(s.drop_last()) == 0);
        assert(digits_val(s) == digits_val(s.drop_last()) * 10 + digit_val(s.last()));
        assert(digit_val(digit_char(n)) == n);
    } else {
        lemma_nat_chars_digits(n / 10);
        let s = spec_nat_chars(n);
        assert(n == 10 * (n / 10) + n % 10);
        assert(s.drop_last() =~= spec_nat_chars(n / 10));
        assert(s.last() == digit_char(n % 10));
        assert(digit_val(digit_char(n % 10)) == n % 10);
        assert(s.len() > 0);
        assert(digits_val(s) == digits_val(s.drop_last()) * 10 + digit_val(s.last()));
        assert forall|i: int| 0 <= i < s.len() implies is_digit_char(#[trigger] s[i]) by {
            if i < s.len() - 1 {
                assert(s[i] == spec_nat_chars(n / 10)[i]);
            }
        }
    }
}

} // verus!
