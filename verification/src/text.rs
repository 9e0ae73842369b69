//! Text on the wire: decimal numbers, searching for a byte, and splitting a
//! line into whitespace-separated tokens.

use crate::wire::copy_range;
use vstd::prelude::*;
use vstd::string::*;

verus! {

/// An ASCII decimal digit.
pub open spec fn is_digit(b: u8) -> bool {
    0x30 <= b <= 0x39
}

/// The number written by the decimal digits `digits`, most significant first.
pub open spec fn decimal_value(digits: Seq<u8>) -> nat
    decreases digits.len(),
{
    if digits.len() == 0 {
        0
    } else {
        decimal_value(digits.drop_last()) * 10 + (digits.last() - 0x30) as nat
    }
}

/// Every byte of `bytes` is a decimal digit.
pub open spec fn all_digits(bytes: Seq<u8>) -> bool {
    forall|i: int| 0 <= i < bytes.len() ==> is_digit(#[trigger] bytes[i])
}

/// The digits of an unsigned decimal literal: `text` without its optional
/// leading plus sign.
pub open spec fn literal_digits(text: Seq<u8>) -> Seq<u8> {
    if text.len() > 0 && text[0] == 0x2b {
        text.drop_first()
    } else {
        text
    }
}

/// What `text` denotes as an unsigned decimal literal no larger than `max`:
/// an optional plus sign, then at least one digit. `None` where `text` has
/// another shape or its value exceeds `max`.
pub open spec fn parse_decimal_spec(text: Seq<u8>, max: u64) -> Option<u64> {
    let digits = literal_digits(text);
    if digits.len() > 0 && all_digits(digits) && decimal_value(digits) <= max {
        Some(decimal_value(digits) as u64)
    } else {
        None
    }
}

/// Appending a digit multiplies the value by ten and adds the digit.
pub proof fn lemma_decimal_value_push(digits: Seq<u8>, d: u8)
    ensures
        decimal_value(digits.push(d)) == decimal_value(digits) * 10 + (d - 0x30) as nat,
{
    assert(digits.push(d).drop_last() =~= digits);
}

/// A longer run of digits never denotes a smaller number than its prefix.
pub proof fn lemma_decimal_value_monotone(digits: Seq<u8>, n: int)
    requires
        0 <= n <= digits.len(),
        all_digits(digits),
    ensures
        decimal_value(digits.take(n)) <= decimal_value(digits),
    decreases digits.len() - n,
{
    if n < digits.len() {
        let longer = digits.take(n + 1);
        assert(longer.drop_last() =~= digits.take(n));
        assert(is_digit(digits[n]));
        lemma_decimal_value_monotone(digits, n + 1);
    } else {
        assert(digits.take(n) =~= digits);
    }
}

/// Reads an unsigned decimal literal of at most `max`.
pub fn parse_decimal(text: &[u8], max: u64) -> (res: Option<u64>)
    ensures
        res == parse_decimal_spec(text@, max),
{
    let n = text.len();
    let start: usize = if n > 0 && text[0] == 0x2b { 1 } else { 0 };
    let ghost digits = literal_digits(text@);
    assert(digits =~= text@.subrange(start as int, n as int));
    if start == n {
        return None;
    }
    let mut value: u64 = 0;
    let mut i: usize = start;
    while i < n
        invariant
            start <= i <= n,
            n == text@.len(),
            digits == text@.subrange(start as int, n as int),
            digits == literal_digits(text@),
            all_digits(digits.take(i - start)),
            value == decimal_value(digits.take(i - start)),
            value <= max,
        decreases n - i,
    {
        let b = text[i];
        let ghost seen = digits.take(i - start);
        let ghost next = digits.take(i - start + 1);
        proof {
            assert(digits[i - start] == b);
            assert(next =~= seen.push(b));
            lemma_decimal_value_push(seen, b);
        }
        if b < 0x30 || b > 0x39 {
            assert(!is_digit(digits[i - start]));
            assert(!all_digits(digits));
            return None;
        }
        let d: u64 = (b - 0x30) as u64;
        assert(all_digits(next)) by {
            assert forall|k: int| 0 <= k < next.len() implies is_digit(#[trigger] next[k]) by {
                if k < seen.len() {
                    assert(next[k] == seen[k]);
                }
            }
        }
        if max < d || value > (max - d) / 10 {
            proof {
                assert(decimal_value(next) > max);
                assert(!all_digits(digits) || decimal_value(digits) > max) by {
                    if all_digits(digits) {
                        lemma_decimal_value_monotone(digits, i - start + 1);
                    }
                }
            }
            return None;
        }
        value = value * 10 + d;
        i = i + 1;
    }
    proof {
        assert(digits.take(n - start) =~= digits);
    }
    Some(value)
}

/// The decimal digits of `n`, most significant first, without leading zeros.
pub open spec fn decimal_digits(n: nat) -> Seq<u8>
    decreases n,
{
    if n < 10 {
        seq![(0x30 + n) as u8]
    } else {
        decimal_digits(n / 10).push((0x30 + n % 10) as u8)
    }
}

/// The digits written for `n` are digits, at least one of them, and read
/// back as `n`.
pub proof fn lemma_decimal_digits(n: nat)
    ensures
        decimal_digits(n).len() > 0,
        all_digits(decimal_digits(n)),
        decimal_value(decimal_digits(n)) == n,
        no_spaces(decimal_digits(n)),
    decreases n,
{
    if n < 10 {
        let d = decimal_digits(n);
        assert(d.drop_last() =~= Seq::<u8>::empty());
        assert(decimal_value(d.drop_last()) == 0);
    } else {
        lemma_decimal_digits(n / 10);
        lemma_decimal_value_push(decimal_digits(n / 10), (0x30 + n % 10) as u8);
    }
}

/// A number written in decimal parses as itself under any limit that admits
/// it.
pub proof fn lemma_decimal_roundtrip(n: u64, max: u64)
    requires
        n <= max,
    ensures
        parse_decimal_spec(decimal_digits(n as nat), max) == Some(n),
{
    lemma_decimal_digits(n as nat);
    let d = decimal_digits(n as nat);
    assert(is_digit(d[0]));
    assert(literal_digits(d) == d);
}

/// Appends `n` in decimal.
pub fn put_decimal(buf: &mut Vec<u8>, n: u64)
    ensures
        final(buf)@ == old(buf)@ + decimal_digits(n as nat),
    decreases n,
{
    if n >= 10 {
        put_decimal(buf, n / 10);
        buf.push((0x30 + n % 10) as u8);
        proof {
            assert(buf@ =~= old(buf)@ + decimal_digits(n as nat));
        }
    } else {
        buf.push((0x30 + n) as u8);
        proof {
            assert(buf@ =~= old(buf)@ + decimal_digits(n as nat));
        }
    }
}

/// The index of the first `target` in `bytes`, or the length of `bytes`
/// where it holds none.
pub open spec fn index_of(bytes: Seq<u8>, target: u8) -> int
    decreases bytes.len(),
{
    if bytes.len() == 0 {
        0
    } else if bytes[0] == target {
        0
    } else {
        1 + index_of(bytes.drop_first(), target)
    }
}

/// `index_of` is in range, points at `target` where it is inside, and no
/// `target` stands before it.
pub proof fn lemma_index_of_bounds(bytes: Seq<u8>, target: u8)
    ensures
        0 <= index_of(bytes, target) <= bytes.len(),
        index_of(bytes, target) < bytes.len() ==> bytes[index_of(bytes, target)] == target,
        forall|k: int| 0 <= k < index_of(bytes, target) ==> bytes[k] != target,
    decreases bytes.len(),
{
    if bytes.len() > 0 && bytes[0] != target {
        let rest = bytes.drop_first();
        lemma_index_of_bounds(rest, target);
        assert forall|k: int| 0 <= k < index_of(bytes, target) implies bytes[k] != target by {
            if k > 0 {
                assert(bytes[k] == rest[k - 1]);
            }
        }
    }
}

/// A position with no `target` before it, which holds `target` or is the
/// end, is `index_of`.
pub proof fn lemma_index_of_is(bytes: Seq<u8>, target: u8, at: int)
    requires
        0 <= at <= bytes.len(),
        forall|k: int| 0 <= k < at ==> bytes[k] != target,
        at < bytes.len() ==> bytes[at] == target,
    ensures
        index_of(bytes, target) == at,
{
    lemma_index_of_bounds(bytes, target);
    let f = index_of(bytes, target);
    if f < at {
        assert(bytes[f] == target);
    } else if f > at {
        assert(bytes[at] != target);
    }
}

/// Finds the first `target` in `data`.
pub fn find_byte(data: &[u8], target: u8) -> (res: Option<usize>)
    ensures
        match res {
            Some(i) => i == index_of(data@, target) && i < data@.len(),
            None => index_of(data@, target) == data@.len(),
        },
{
    let n = data.len();
    let mut i: usize = 0;
    while i < n
        invariant
            i <= n,
            n == data@.len(),
            forall|k: int| 0 <= k < i ==> data@[k] != target,
        decreases n - i,
    {
        if data[i] == target {
            proof {
                lemma_index_of_is(data@, target, i as int);
            }
            return Some(i);
        }
        i = i + 1;
    }
    proof {
        lemma_index_of_is(data@, target, n as int);
    }
    None
}

/// ASCII whitespace: space, tab, line feed, vertical tab, form feed and
/// carriage return.
pub open spec fn is_space(b: u8) -> bool {
    b == 0x20 || (0x09 <= b <= 0x0d)
}

/// No byte of `t` is whitespace.
pub open spec fn no_spaces(t: Seq<u8>) -> bool {
    forall|i: int| 0 <= i < t.len() ==> !is_space(#[trigger] t[i])
}

/// A token: at least one byte, none of them whitespace.
pub open spec fn is_token(t: Seq<u8>) -> bool {
    t.len() > 0 && no_spaces(t)
}

/// The number of bytes before the first whitespace of `line`.
pub open spec fn token_len(line: Seq<u8>) -> nat
    decreases line.len(),
{
    if line.len() == 0 || is_space(line[0]) {
        0
    } else {
        1 + token_len(line.drop_first())
    }
}

/// `token_len` is in range, covers no whitespace, and stops at whitespace
/// or at the end.
pub proof fn lemma_token_len_bounds(line: Seq<u8>)
    ensures
        token_len(line) <= line.len(),
        no_spaces(line.take(token_len(line) as int)),
        token_len(line) < line.len() ==> is_space(line[token_len(line) as int]),
        line.len() > 0 && !is_space(line[0]) ==> token_len(line) >= 1,
    decreases line.len(),
{
    if line.len() > 0 && !is_space(line[0]) {
        let rest = line.drop_first();
        lemma_token_len_bounds(rest);
        let n = token_len(line) as int;
        let head = line.take(n);
        assert forall|i: int| 0 <= i < head.len() implies !is_space(#[trigger] head[i]) by {
            if i > 0 {
                assert(head[i] == rest.take(n - 1)[i - 1]);
            }
        }
        if n < line.len() {
            assert(line[n] == rest[n - 1]);
        }
    } else {
        assert(line.take(0) =~= Seq::<u8>::empty());
    }
}

/// A run of `m` bytes without whitespace that ends at whitespace or at the
/// end of the line is the first token of the line.
pub proof fn lemma_token_len_is(line: Seq<u8>, m: int)
    requires
        0 <= m <= line.len(),
        forall|k: int| 0 <= k < m ==> !is_space(line[k]),
        m < line.len() ==> is_space(line[m]),
    ensures
        token_len(line) == m,
    decreases line.len(),
{
    if line.len() > 0 && !is_space(line[0]) {
        let rest = line.drop_first();
        assert forall|k: int| 0 <= k < m - 1 implies !is_space(rest[k]) by {
            assert(rest[k] == line[k + 1]);
        }
        if m - 1 < rest.len() {
            assert(rest[m - 1] == line[m]);
        }
        lemma_token_len_is(rest, m - 1);
    }
}

/// The whitespace-separated tokens of `line`, in order.
pub open spec fn split_ws(line: Seq<u8>) -> Seq<Seq<u8>>
    decreases line.len(),
    via split_ws_decreases
{
    if line.len() == 0 {
        Seq::empty()
    } else if is_space(line[0]) {
        split_ws(line.drop_first())
    } else {
        let n = token_len(line) as int;
        seq![line.take(n)] + split_ws(line.skip(n))
    }
}

#[via_fn]
proof fn split_ws_decreases(line: Seq<u8>) {
    if line.len() > 0 && !is_space(line[0]) {
        lemma_token_len_bounds(line);
    }
}

/// A token followed by nothing, or by whitespace and more, is the first
/// token of the line, and the rest splits on its own.
pub proof fn lemma_split_token_then(t: Seq<u8>, rest: Seq<u8>)
    requires
        is_token(t),
        rest.len() == 0 || is_space(rest[0]),
    ensures
        split_ws(t + rest) == seq![t] + split_ws(rest),
{
    let line = t + rest;
    assert(line[0] == t[0]);
    assert forall|k: int| 0 <= k < t.len() implies !is_space(line[k]) by {
        assert(line[k] == t[k]);
    }
    if rest.len() > 0 {
        assert(line[t.len() as int] == rest[0]);
    }
    lemma_token_len_is(line, t.len() as int);
    assert(line.take(t.len() as int) =~= t);
    assert(line.skip(t.len() as int) =~= rest);
}

/// Whitespace before a line does not change its tokens.
pub proof fn lemma_split_after_space(sp: u8, rest: Seq<u8>)
    requires
        is_space(sp),
    ensures
        split_ws(seq![sp] + rest) == split_ws(rest),
{
    let line = seq![sp] + rest;
    assert(line.drop_first() =~= rest);
}

/// A line that is one token splits to that token.
pub proof fn lemma_split_one(t: Seq<u8>)
    requires
        is_token(t),
    ensures
        split_ws(t) == seq![t],
{
    lemma_split_token_then(t, Seq::empty());
    assert(t + Seq::<u8>::empty() =~= t);
    assert(split_ws(Seq::<u8>::empty()) =~= Seq::<Seq<u8>>::empty());
    assert(seq![t] + Seq::<Seq<u8>>::empty() =~= seq![t]);
}

/// Two tokens with one space between them split to the two tokens.
pub proof fn lemma_split_two(a: Seq<u8>, b: Seq<u8>)
    requires
        is_token(a),
        is_token(b),
    ensures
        split_ws(a + seq![0x20u8] + b) == seq![a, b],
{
    let tail = seq![0x20u8] + b;
    assert(a + seq![0x20u8] + b =~= a + tail);
    lemma_split_token_then(a, tail);
    lemma_split_after_space(0x20, b);
    lemma_split_one(b);
    assert(seq![a] + seq![b] =~= seq![a, b]);
}

/// Three tokens with single spaces between them split to the three tokens.
pub proof fn lemma_split_three(a: Seq<u8>, b: Seq<u8>, c: Seq<u8>)
    requires
        is_token(a),
        is_token(b),
        is_token(c),
    ensures
        split_ws(a + seq![0x20u8] + b + seq![0x20u8] + c) == seq![a, b, c],
{
    let tail = seq![0x20u8] + b + seq![0x20u8] + c;
    assert(a + seq![0x20u8] + b + seq![0x20u8] + c =~= a + tail);
    lemma_split_token_then(a, tail);
    assert(tail =~= seq![0x20u8] + (b + seq![0x20u8] + c));
    lemma_split_after_space(0x20, b + seq![0x20u8] + c);
    lemma_split_two(b, c);
    assert(seq![a] + seq![b, c] =~= seq![a, b, c]);
}

/// The rows of `rows`, each by its view.
pub open spec fn byte_rows(rows: Vec<Vec<u8>>) -> Seq<Seq<u8>> {
    Seq::new(rows@.len(), |i: int| rows@[i]@)
}

/// Whether `b` is ASCII whitespace.
pub fn space_byte(b: u8) -> (yes: bool)
    ensures
        yes == is_space(b),
{
    b == 0x20 || (0x09 <= b && b <= 0x0d)
}

/// Splits `line` into its whitespace-separated tokens.
pub fn split_whitespace(line: &[u8]) -> (out: Vec<Vec<u8>>)
    ensures
        byte_rows(out) == split_ws(line@),
{
    let n = line.len();
    let mut out: Vec<Vec<u8>> = Vec::new();
    let mut i: usize = 0;
    proof {
        assert(line@.skip(0) =~= line@);
        assert(byte_rows(out) + split_ws(line@) =~= split_ws(line@));
    }
    while i < n
        invariant
            i <= n,
            n == line@.len(),
            byte_rows(out) + split_ws(line@.skip(i as int)) == split_ws(line@),
        decreases n - i,
    {
        let ghost here = line@.skip(i as int);
        if space_byte(line[i]) {
            proof {
                assert(here[0] == line@[i as int]);
                assert(here.drop_first() =~= line@.skip(i + 1));
            }
            i = i + 1;
        } else {
            let mut j: usize = i + 1;
            while j < n && !space_byte(line[j])
                invariant
                    i < j <= n,
                    n == line@.len(),
                    forall|k: int| i <= k < j ==> !is_space(line@[k]),
                decreases n - j,
            {
                j = j + 1;
            }
            let token = copy_range(line, i, j);
            proof {
                assert(here[0] == line@[i as int]);
                assert forall|k: int| 0 <= k < j - i implies !is_space(here[k]) by {
                    assert(here[k] == line@[i + k]);
                }
                if j - i < here.len() {
                    assert(here[j - i] == line@[j as int]);
                }
                lemma_token_len_is(here, j - i);
                assert(here.take(j - i) =~= token@);
                assert(here.skip(j - i) =~= line@.skip(j as int));
            }
            let ghost before = byte_rows(out);
            out.push(token);
            proof {
                assert(byte_rows(out) =~= before.push(token@));
                assert(before.push(token@) + split_ws(line@.skip(j as int)) =~= before + (
                seq![token@] + split_ws(line@.skip(j as int))));
            }
            i = j;
        }
    }
    proof {
        assert(line@.skip(n as int) =~= Seq::<u8>::empty());
        assert(byte_rows(out) + Seq::<Seq<u8>>::empty() =~= byte_rows(out));
    }
    out
}

/// Calls `String::from_utf8`: the string whose UTF-8 encoding is `bytes`,
/// or `None` exactly where `bytes` is not valid UTF-8.
#[verifier::external_body]
pub(crate) fn string_from_utf8(bytes: Vec<u8>) -> (res: Option<String>)
    ensures
        match res {
            Some(s) => vstd::utf8::valid_utf8(bytes@) && vstd::utf8::encode_utf8(s@) == bytes@,
            None => !vstd::utf8::valid_utf8(bytes@),
        },
{
    String::from_utf8(bytes).ok()
}

/// The UTF-8 bytes of `s`.
pub fn string_bytes(s: &String) -> (out: &[u8])
    ensures
        out@ == vstd::utf8::encode_utf8(s@),
{
    s.as_str().as_bytes()
}

/// Whether two strings are the same text.
pub fn str_equal(a: &str, b: &str) -> (same: bool)
    ensures
        same == (a@ == b@),
{
    proof {
        vstd::utf8::encode_utf8_decode_utf8(a@);
        vstd::utf8::encode_utf8_decode_utf8(b@);
    }
    crate::wire::bytes_equal(a.as_bytes(), b.as_bytes())
}

/// The decimal digits of `n` as characters.
pub open spec fn decimal_chars(n: nat) -> Seq<char> {
    decimal_digits(n).map_values(|b: u8| b as char)
}

/// The decimal digit `d` as a string of one character.
fn digit_text(d: u8) -> (s: &'static str)
    requires
        d < 10,
    ensures
        s@ == seq![(0x30 + d) as u8 as char],
{
    proof {
        reveal_strlit("0");
        reveal_strlit("1");
        reveal_strlit("2");
        reveal_strlit("3");
        reveal_strlit("4");
        reveal_strlit("5");
        reveal_strlit("6");
        reveal_strlit("7");
        reveal_strlit("8");
        reveal_strlit("9");
    }
    let s = match d {
        0 => "0",
        1 => "1",
        2 => "2",
        3 => "3",
        4 => "4",
        5 => "5",
        6 => "6",
        7 => "7",
        8 => "8",
        _ => "9",
    };
    proof {
        assert(s@ =~= seq![(0x30 + d) as u8 as char]);
    }
    s
}

/// `n` in decimal, without sign or leading zeros.
pub fn decimal_string(n: u64) -> (s: String)
    ensures
        s@ == decimal_chars(n as nat),
    decreases n,
{
    if n >= 10 {
        let mut s = decimal_string(n / 10);
        s.append(digit_text((n % 10) as u8));
        proof {
            assert(s@ =~= decimal_chars(n as nat));
        }
        s
    } else {
        let s = String::from_str(digit_text(n as u8));
        proof {
            assert(s@ =~= decimal_chars(n as nat));
        }
        s
    }
}

/// `a`, `sep` and `b` in one string.
pub fn join3(a: &str, sep: &str, b: &str) -> (s: String)
    ensures
        s@ == a@ + sep@ + b@,
{
    let mut s = String::from_str(a);
    s.append(sep);
    s.append(b);
    s
}

} // verus!
