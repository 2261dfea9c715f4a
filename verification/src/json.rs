//! Primitives of the JSON-shaped wire encoding: string escaping, quoted
//! string parsing, decimal numbers, and literal matching.

use vstd::prelude::*;
use crate::guid::is_hex_digit;
use crate::guid::is_hex_digit_char;
use crate::strutil::push_char;

verus! {

// ---------------------------------------------------------------------------
// Characters and digits
// ---------------------------------------------------------------------------
pub open spec fn is_dec_digit(c: char) -> bool {
    48 <= c as u32 && c as u32 <= 57
}

pub open spec fn dec_val(c: char) -> nat {
    (c as u32 - 48) as nat
}

/// The decimal digit character for `n < 10`.
pub open spec fn dec_char(n: nat) -> char {
    ((n + 48) as u8) as char
}

/// The lowercase hexadecimal digit character for `n < 16`.
pub open spec fn hex_char(n: nat) -> char {
    if n < 10 {
        ((n + 48) as u8) as char
    } else {
        ((n + 87) as u8) as char
    }
}

/// The numeric value of a hexadecimal digit character.
pub open spec fn hex_val(c: char) -> nat {
    let u = c as u32;
    if 48 <= u && u <= 57 {
        (u - 48) as nat
    } else if 97 <= u && u <= 102 {
        (u - 87) as nat
    } else if 65 <= u && u <= 70 {
        (u - 55) as nat
    } else {
        0
    }
}

fn is_dec_digit_char(c: char) -> (r: bool)
    ensures
        r == is_dec_digit(c),
{
    let u = c as u32;
    48 <= u && u <= 57
}

fn hex_char_of(d: u8) -> (r: char)
    requires
        d < 16,
    ensures
        r == hex_char(d as nat),
{
    if d < 10 {
        (d + 48) as char
    } else {
        (d + 87) as char
    }
}

// ---------------------------------------------------------------------------
// String escaping (encoder side)
// ---------------------------------------------------------------------------
/// How one character appears inside a quoted JSON string: `"` and `\` are
/// escaped, the common control characters get their short escapes, the
/// remaining control characters a `\u00XX` escape, and everything else
/// stands for itself.
pub open spec fn escape_char(c: char) -> Seq<char> {
    if c == '"' {
        seq!['\\', '"']
    } else if c == '\\' {
        seq!['\\', '\\']
    } else if c == '\n' {
        seq!['\\', 'n']
    } else if c == '\r' {
        seq!['\\', 'r']
    } else if c == '\t' {
        seq!['\\', 't']
    } else if (c as u32) < 32 {
        seq!['\\', 'u', '0', '0', hex_char((c as u32 / 16) as nat), hex_char((c as u32 % 16) as nat)]
    } else {
        seq![c]
    }
}

pub open spec fn escape_string(s: Seq<char>) -> Seq<char>
    decreases s.len(),
{
    if s.len() == 0 {
        Seq::empty()
    } else {
        escape_char(s[0]) + escape_string(s.drop_first())
    }
}

/// Appends the escaped form of `s[i..]` to `out`.
pub(crate) fn push_escaped(out: &mut String, s: &str, i: usize)
    requires
        i <= s@.len(),
    ensures
        final(out)@ == old(out)@ + escape_string(s@.skip(i as int)),
    decreases s@.len() - i,
{
    let n = s.unicode_len();
    if i >= n {
        assert(escape_string(s@.skip(i as int)) =~= Seq::<char>::empty());
        assert(final(out)@ =~= old(out)@ + escape_string(s@.skip(i as int)));
        return ;
    }
    let c = s.get_char(i);
    assert(s@.skip(i as int)[0] == c);
    assert(s@.skip(i as int).drop_first() =~= s@.skip(i + 1));
    if c == '"' {
        push_char(out, '\\');
        push_char(out, '"');
    } else if c == '\\' {
        push_char(out, '\\');
        push_char(out, '\\');
    } else if c == '\n' {
        push_char(out, '\\');
        push_char(out, 'n');
    } else if c == '\r' {
        push_char(out, '\\');
        push_char(out, 'r');
    } else if c == '\t' {
        push_char(out, '\\');
        push_char(out, 't');
    } else if (c as u32) < 32 {
        let u = c as u32;
        push_char(out, '\\');
        push_char(out, 'u');
        push_char(out, '0');
        push_char(out, '0');
        push_char(out, hex_char_of((u / 16) as u8));
        push_char(out, hex_char_of((u % 16) as u8));
    } else {
        push_char(out, c);
    }
    assert(out@ =~= old(out)@ + escape_char(c));
    push_escaped(out, s, i + 1);
    assert(final(out)@ =~= old(out)@ + escape_char(c) + escape_string(s@.skip(i + 1)));
    assert(final(out)@ =~= old(out)@ + escape_string(s@.skip(i as int)));
}

// ---------------------------------------------------------------------------
// Quoted string parsing (decoder side)
// ---------------------------------------------------------------------------
/// The character denoted by a one-letter escape code, if any.
pub open spec fn escape_code(e: char) -> Option<char> {
    if e == '"' {
        Some('"')
    } else if e == '\\' {
        Some('\\')
    } else if e == '/' {
        Some('/')
    } else if e == 'n' {
        Some('\n')
    } else if e == 'r' {
        Some('\r')
    } else if e == 't' {
        Some('\t')
    } else if e == 'b' {
        Some('\u{08}')
    } else if e == 'f' {
        Some('\u{0C}')
    } else {
        None
    }
}

/// A character that may stand for itself inside a quoted string.
pub open spec fn is_raw_char(c: char) -> bool {
    c != '"' && c != '\\' && c as u32 >= 32
}

/// The value of the four hex digits at `s[k..k + 4]`.
pub open spec fn hex4_val(s: Seq<char>, k: int) -> nat {
    hex_val(s[k]) * 4096 + hex_val(s[k + 1]) * 256 + hex_val(s[k + 2]) * 16 + hex_val(s[k + 3])
}

/// A `\uXXXX` escape this decoder accepts: four hex digits denoting an
/// ASCII code point.
pub open spec fn u_escape_ok(s: Seq<char>, k: int) -> bool {
    &&& 0 <= k
    &&& k + 4 <= s.len()
    &&& is_hex_digit(s[k])
    &&& is_hex_digit(s[k + 1])
    &&& is_hex_digit(s[k + 2])
    &&& is_hex_digit(s[k + 3])
    &&& hex4_val(s, k) < 128
}

pub open spec fn u_escape_char(s: Seq<char>, k: int) -> char {
    (hex4_val(s, k) as u8) as char
}

/// Parses a quoted string body starting at `s[i]` (just after the opening
/// quote), up to and including the closing quote.  Returns the denoted
/// character sequence and the index just past the closing quote.
pub open spec fn parse_str_spec(s: Seq<char>, i: int) -> Option<(Seq<char>, int)>
    decreases s.len() - i,
{
    if i < 0 || i >= s.len() {
        None
    } else if s[i] == '"' {
        Some((Seq::empty(), i + 1))
    } else if s[i] == '\\' {
        if i + 1 >= s.len() {
            None
        } else if s[i + 1] == 'u' {
            if u_escape_ok(s, i + 2) {
                match parse_str_spec(s, i + 6) {
                    Some((rest, j)) => Some((seq![u_escape_char(s, i + 2)] + rest, j)),
                    None => None,
                }
            } else {
                None
            }
        } else {
            match escape_code(s[i + 1]) {
                Some(c) => match parse_str_spec(s, i + 2) {
                    Some((rest, j)) => Some((seq![c] + rest, j)),
                    None => None,
                },
                None => None,
            }
        }
    } else if is_raw_char(s[i]) {
        match parse_str_spec(s, i + 1) {
            Some((rest, j)) => Some((seq![s[i]] + rest, j)),
            None => None,
        }
    } else {
        None
    }
}

/// A successful string parse always moves forward and stays in bounds.
pub proof fn lemma_parse_str_bounds(s: Seq<char>, i: int)
    ensures
        parse_str_spec(s, i) matches Some((c, j)) ==> i < j <= s.len(),
    decreases s.len() - i,
{
    if 0 <= i < s.len() {
        if s[i] == '\\' {
            if i + 1 < s.len() {
                if s[i + 1] == 'u' {
                    if u_escape_ok(s, i + 2) {
                        lemma_parse_str_bounds(s, i + 6);
                    }
                } else {
                    lemma_parse_str_bounds(s, i + 2);
                }
            }
        } else {
            lemma_parse_str_bounds(s, i + 1);
        }
    }
}

/// Parses a quoted string body, appending the denoted characters to `out`.
/// Returns the index just past the closing quote.
pub(crate) fn parse_string_body(s: &str, i: usize, out: &mut String) -> (r: Option<usize>)
    requires
        i <= s@.len(),
    ensures
        (r is Some) == (parse_str_spec(s@, i as int) is Some),
        r matches Some(j) ==> parse_str_spec(s@, i as int) matches Some((c, jj))
            && final(out)@ == old(out)@ + c && jj == j as int && i < j <= s@.len(),
    decreases s@.len() - i,
{
    proof {
        lemma_parse_str_bounds(s@, i as int);
    }
    let n = s.unicode_len();
    if i >= n {
        return None;
    }
    let c = s.get_char(i);
    if c == '"' {
        assert(final(out)@ =~= old(out)@ + Seq::<char>::empty());
        return Some(i + 1);
    }
    if c == '\\' {
        if i + 1 >= n {
            return None;
        }
        let e = s.get_char(i + 1);
        if e == 'u' {
            if n - i < 6 {
                return None;
            }
            let h0 = s.get_char(i + 2);
            let h1 = s.get_char(i + 3);
            let h2 = s.get_char(i + 4);
            let h3 = s.get_char(i + 5);
            if !(is_hex_digit_char(h0) && is_hex_digit_char(h1) && is_hex_digit_char(h2)
                && is_hex_digit_char(h3)) {
                return None;
            }
            let v: u32 = hex_val_of(h0) as u32 * 4096 + hex_val_of(h1) as u32 * 256 + hex_val_of(
                h2,
            ) as u32 * 16 + hex_val_of(h3) as u32;
            if v >= 128 {
                return None;
            }
            let c0 = (v as u8) as char;
            assert(c0 == u_escape_char(s@, i + 2));
            push_char(out, c0);
            let r = parse_string_body(s, i + 6, out);
            proof {
                if parse_str_spec(s@, i + 6) is Some {
                    let (rest, j) = parse_str_spec(s@, i + 6)->Some_0;
                    assert(final(out)@ =~= old(out)@ + (seq![c0] + rest));
                }
            }
            return r;
        }
        let dec = match decode_escape_char(e) {
            Some(d) => d,
            None => {
                return None;
            },
        };
        push_char(out, dec);
        let r = parse_string_body(s, i + 2, out);
        proof {
            if parse_str_spec(s@, i + 2) is Some {
                let (rest, j) = parse_str_spec(s@, i + 2)->Some_0;
                assert(final(out)@ =~= old(out)@ + (seq![dec] + rest));
            }
        }
        return r;
    }
    if (c as u32) < 32 {
        return None;
    }
    push_char(out, c);
    let r = parse_string_body(s, i + 1, out);
    proof {
        if parse_str_spec(s@, i + 1) is Some {
            let (rest, j) = parse_str_spec(s@, i + 1)->Some_0;
            assert(final(out)@ =~= old(out)@ + (seq![c] + rest));
        }
    }
    r
}

fn hex_val_of(c: char) -> (r: u8)
    requires
        is_hex_digit(c),
    ensures
        r as nat == hex_val(c),
        r < 16,
{
    let u = c as u32;
    if 48 <= u && u <= 57 {
        (u - 48) as u8
    } else if 97 <= u && u <= 102 {
        (u - 87) as u8
    } else {
        (u - 55) as u8
    }
}

fn decode_escape_char(e: char) -> (r: Option<char>)
    ensures
        r == escape_code(e),
{
    if e == '"' {
        Some('"')
    } else if e == '\\' {
        Some('\\')
    } else if e == '/' {
        Some('/')
    } else if e == 'n' {
        Some('\n')
    } else if e == 'r' {
        Some('\r')
    } else if e == 't' {
        Some('\t')
    } else if e == 'b' {
        Some('\u{08}')
    } else if e == 'f' {
        Some('\u{0C}')
    } else {
        None
    }
}

// ---------------------------------------------------------------------------
// Literal matching
// ---------------------------------------------------------------------------
/// `lit` occurs in `s` starting at position `i`.
pub open spec fn match_lit(s: Seq<char>, i: int, lit: Seq<char>) -> bool {
    &&& 0 <= i
    &&& i + lit.len() <= s.len()
    &&& s.subrange(i, i + lit.len()) == lit
}

/// Decides whether the characters of `lit` occur in `s` at position `i`.
pub(crate) fn match_lit_at(s: &str, i: usize, lit: &str) -> (r: bool)
    ensures
        r == match_lit(s@, i as int, lit@),
{
    let n = s.unicode_len();
    let m = lit.unicode_len();
    if i > n || n - i < m {
        return false;
    }
    let mut k: usize = 0;
    while k < m
        invariant
            k <= m,
            i + m <= n,
            n == s@.len(),
            m == lit@.len(),
            forall|t: int| 0 <= t < k ==> s@[i + t] == lit@[t],
        decreases m - k,
    {
        if s.get_char(i + k) != lit.get_char(k) {
            assert(s@.subrange(i as int, i + lit@.len())[k as int] != lit@[k as int]);
            return false;
        }
        k += 1;
    }
    assert(s@.subrange(i as int, i + lit@.len()) =~= lit@);
    true
}


// ---------------------------------------------------------------------------
// Decimal numbers
// ---------------------------------------------------------------------------
pub open spec fn pow10(k: nat) -> nat
    decreases k,
{
    if k == 0 {
        1
    } else {
        10 * pow10((k - 1) as nat)
    }
}

/// The canonical decimal digit string of `n`: minimal length, no leading
/// zero (except for `0` itself).
pub open spec fn dec_digits(n: nat) -> Seq<char>
    decreases n,
{
    if n < 10 {
        seq![dec_char(n)]
    } else {
        dec_digits(n / 10) + seq![dec_char(n % 10)]
    }
}

/// The value of the `k` digit characters of `s` starting at `i`.
pub open spec fn digits_val(s: Seq<char>, i: int, k: nat) -> nat
    decreases k,
{
    if k == 0 {
        0
    } else {
        dec_val(s[i]) * pow10((k - 1) as nat) + digits_val(s, i + 1, (k - 1) as nat)
    }
}

/// Consumes the digit run starting at `s[i]`, left to right, folding the
/// digits into `acc`; returns the folded value and the index just past the
/// run.
pub open spec fn dec_run(s: Seq<char>, i: int, acc: nat) -> (nat, int)
    decreases s.len() - i,
{
    if 0 <= i < s.len() && is_dec_digit(s[i]) {
        dec_run(s, i + 1, acc * 10 + dec_val(s[i]))
    } else {
        (acc, i)
    }
}

/// Parses a canonical decimal number at `s[i]`: at least one digit, no
/// leading zero, value within `u64`.
pub open spec fn parse_dec_spec(s: Seq<char>, i: int) -> Option<(u64, int)> {
    if 0 <= i < s.len() && is_dec_digit(s[i]) && !(s[i] == '0' && i + 1 < s.len() && is_dec_digit(
        s[i + 1],
    )) {
        let (v, j) = dec_run(s, i, 0);
        if v <= u64::MAX {
            Some((v as u64, j))
        } else {
            None
        }
    } else {
        None
    }
}

proof fn lemma_dec_run_bounds(s: Seq<char>, i: int, acc: nat)
    requires
        0 <= i <= s.len(),
    ensures
        i <= dec_run(s, i, acc).1 <= s.len(),
        dec_run(s, i, acc).0 >= acc,
    decreases s.len() - i,
{
    if i < s.len() && is_dec_digit(s[i]) {
        lemma_dec_run_bounds(s, i + 1, acc * 10 + dec_val(s[i]));
        assert(acc * 10 + dec_val(s[i]) >= acc) by (nonlinear_arith);
    }
}

proof fn lemma_dec_run_digits(s: Seq<char>, i: int, acc: nat, k: nat)
    requires
        0 <= i,
        i + k <= s.len(),
        forall|t: int| i <= t < i + k ==> is_dec_digit(#[trigger] s[t]),
        i + k == s.len() || !is_dec_digit(s[i + k]),
    ensures
        dec_run(s, i, acc) == (acc * pow10(k) + digits_val(s, i, k), i + k),
    decreases k,
{
    if k == 0 {
        assert(pow10(0) == 1);
        assert(acc * 1 == acc) by (nonlinear_arith);
    } else {
        assert(is_dec_digit(s[i]));
        let d = dec_val(s[i]);
        let acc2 = acc * 10 + d;
        let p1 = pow10((k - 1) as nat);
        assert(dec_run(s, i, acc) == dec_run(s, i + 1, acc2));
        lemma_dec_run_digits(s, i + 1, acc2, (k - 1) as nat);
        assert(dec_run(s, i + 1, acc2) == (acc2 * p1 + digits_val(s, i + 1, (k - 1) as nat), i
            + k));
        assert(digits_val(s, i, k) == d * p1 + digits_val(s, i + 1, (k - 1) as nat));
        assert(pow10(k) == 10 * p1);
        assert(acc2 * p1 == acc * (10 * p1) + d * p1) by (nonlinear_arith)
            requires
                acc2 == acc * 10 + d,
        ;
        assert(acc2 * p1 + digits_val(s, i + 1, (k - 1) as nat) == acc * pow10(k) + digits_val(
            s,
            i,
            k,
        ));
    }
}

proof fn lemma_digits_val_snoc(s: Seq<char>, i: int, k: nat)
    requires
        k >= 1,
        0 <= i,
        i + k <= s.len(),
    ensures
        digits_val(s, i, k) == digits_val(s, i, (k - 1) as nat) * 10 + dec_val(s[i + k - 1]),
    decreases k,
{
    if k == 1 {
        assert(pow10(0) == 1);
        assert(digits_val(s, i, 1) == dec_val(s[i]) * 1 + digits_val(s, i + 1, 0));
        assert(dec_val(s[i]) * 1 == dec_val(s[i])) by (nonlinear_arith);
        assert(digits_val(s, i, 0) * 10 == 0) by (nonlinear_arith)
            requires
                digits_val(s, i, 0) == 0,
        ;
    } else {
        let a = dec_val(s[i]);
        let b = digits_val(s, i + 1, (k - 2) as nat);
        let p2 = pow10((k - 2) as nat);
        lemma_digits_val_snoc(s, i + 1, (k - 1) as nat);
        assert(digits_val(s, i + 1, (k - 1) as nat) == b * 10 + dec_val(s[i + k - 1]));
        assert(digits_val(s, i, k) == a * pow10((k - 1) as nat) + digits_val(s, i + 1, (k
            - 1) as nat));
        assert(digits_val(s, i, (k - 1) as nat) == a * p2 + b);
        assert(pow10((k - 1) as nat) == 10 * p2);
        assert(a * (10 * p2) + (b * 10 + dec_val(s[i + k - 1])) == (a * p2 + b) * 10 + dec_val(
            s[i + k - 1],
        )) by (nonlinear_arith);
    }
}

proof fn lemma_dec_digits_props(n: nat)
    ensures
        dec_digits(n).len() >= 1,
        forall|t: int|
            0 <= t < dec_digits(n).len() ==> is_dec_digit(#[trigger] dec_digits(n)[t]),
        n > 0 ==> dec_digits(n)[0] != '0',
        n == 0 ==> dec_digits(n) == seq!['0'],
        n > 0 ==> dec_val(dec_digits(n)[0]) > 0,
    decreases n,
{
    if n < 10 {
        assert(dec_digits(n) == seq![dec_char(n)]);
        assert(is_dec_digit(dec_char(n)));
        assert(n > 0 ==> dec_char(n) != '0');
    } else {
        lemma_dec_digits_props(n / 10);
        let a = dec_digits(n / 10);
        assert(dec_digits(n) == a + seq![dec_char(n % 10)]);
        assert(dec_digits(n)[0] == a[0]);
        assert(is_dec_digit(dec_char(n % 10)));
        assert(forall|t: int|
            0 <= t < dec_digits(n).len() ==> is_dec_digit(#[trigger] dec_digits(n)[t]));
    }
}

proof fn lemma_digits_val_of_dec_digits(s: Seq<char>, i: int, n: nat)
    requires
        0 <= i,
        i + dec_digits(n).len() <= s.len(),
        s.subrange(i, i + dec_digits(n).len() as int) == dec_digits(n),
    ensures
        digits_val(s, i, dec_digits(n).len()) == n,
    decreases n,
{
    let l = dec_digits(n).len();
    if n < 10 {
        assert(dec_digits(n) == seq![dec_char(n)]);
        assert(l == 1);
        assert(s.subrange(i, i + 1)[0] == s[i]);
        assert(s[i] == dec_char(n));
        assert(dec_val(dec_char(n)) == n);
        assert(pow10(0) == 1);
        assert(digits_val(s, i, 1) == dec_val(s[i]) * 1 + digits_val(s, i + 1, 0));
        assert(dec_val(s[i]) * 1 == dec_val(s[i])) by (nonlinear_arith);
    } else {
        let a = dec_digits(n / 10);
        let la = a.len();
        assert(dec_digits(n) == a + seq![dec_char(n % 10)]);
        assert(s.subrange(i, i + la as int) =~= a) by {
            assert forall|t: int| 0 <= t < la implies s.subrange(i, i + la as int)[t] == a[t] by {
                assert(s.subrange(i, i + l as int)[t] == dec_digits(n)[t]);
            }
        }
        lemma_digits_val_of_dec_digits(s, i, n / 10);
        lemma_digits_val_snoc(s, i, l);
        assert(s.subrange(i, i + l as int)[l - 1] == s[i + l - 1]);
        assert(s[i + l - 1] == dec_char(n % 10));
        assert(dec_val(dec_char(n % 10)) == n % 10);
        assert(digits_val(s, i, l) == digits_val(s, i, (l - 1) as nat) * 10 + dec_val(
            s[i + l - 1],
        ));
        assert(la == l - 1);
        assert(digits_val(s, i, la) == n / 10);
        assert(n / 10 * 10 + n % 10 == n);
    }
}

/// The canonical digit string of `n`, embedded in `s` at `i` and followed
/// by a non-digit (or the end of `s`), parses back to exactly `n`.
pub proof fn lemma_parse_dec_of_digits(s: Seq<char>, i: int, n: nat)
    requires
        0 <= i,
        n <= u64::MAX,
        i + dec_digits(n).len() <= s.len(),
        s.subrange(i, i + dec_digits(n).len() as int) == dec_digits(n),
        i + dec_digits(n).len() == s.len() || !is_dec_digit(s[i + dec_digits(n).len()]),
    ensures
        parse_dec_spec(s, i) == Some((n as u64, i + dec_digits(n).len())),
{
    let l = dec_digits(n).len();
    lemma_dec_digits_props(n);
    assert(s[i] == s.subrange(i, i + l as int)[0]);
    assert(s[i] == dec_digits(n)[0]);
    assert(is_dec_digit(s[i]));
    assert forall|t: int| i <= t < i + l implies is_dec_digit(#[trigger] s[t]) by {
        assert(s[t] == s.subrange(i, i + l as int)[t - i]);
        assert(s[t] == dec_digits(n)[t - i]);
    }
    if s[i] == '0' {
        assert(n == 0);
        assert(l == 1);
    } else {
        if i + 1 < s.len() && is_dec_digit(s[i + 1]) {
            assert(!(s[i] == '0'));
        }
    }
    lemma_dec_run_digits(s, i, 0, l);
    lemma_digits_val_of_dec_digits(s, i, n);
    assert(0 * pow10(l) == 0) by (nonlinear_arith);
}

/// Appends the canonical decimal digit string of `n` to `out`.
pub(crate) fn push_dec(out: &mut String, n: u64)
    ensures
        final(out)@ == old(out)@ + dec_digits(n as nat),
    decreases n,
{
    if n >= 10 {
        push_dec(out, n / 10);
        let d = (n % 10) as u8;
        push_char(out, (d + 48) as char);
        assert((d + 48) as char == dec_char((n % 10) as nat));
        assert(final(out)@ =~= old(out)@ + dec_digits((n / 10) as nat) + seq![dec_char(
            (n % 10) as nat,
        )]);
        assert(final(out)@ =~= old(out)@ + dec_digits(n as nat));
    } else {
        let d = n as u8;
        push_char(out, (d + 48) as char);
        assert((d + 48) as char == dec_char(n as nat));
        assert(final(out)@ =~= old(out)@ + dec_digits(n as nat));
    }
}

/// Parses a canonical decimal number at `s[i]`.
pub(crate) fn parse_dec(s: &str, i: usize) -> (r: Option<(u64, usize)>)
    ensures
        (r is Some) == (parse_dec_spec(s@, i as int) is Some),
        r matches Some(p) ==> parse_dec_spec(s@, i as int) == Some((p.0, p.1 as int)) && i < p.1
            <= s@.len(),
{
    let n = s.unicode_len();
    if i >= n {
        return None;
    }
    let c0 = s.get_char(i);
    if !is_dec_digit_char(c0) {
        return None;
    }
    if c0 == '0' {
        if i + 1 < n && is_dec_digit_char(s.get_char(i + 1)) {
            return None;
        }
        proof {
            assert(dec_val(s@[i as int]) == 0);
            assert(dec_run(s@, i as int, 0) == dec_run(s@, i + 1, 0nat * 10 + dec_val(
                s@[i as int],
            )));
            assert(dec_run(s@, i + 1, 0nat) == (0nat, i + 1));
        }
        return Some((0, i + 1));
    }
    let mut j: usize = i;
    let mut acc: u64 = 0;
    loop
        invariant
            i <= j <= n,
            n == s@.len(),
            i < s@.len(),
            is_dec_digit(s@[i as int]),
            !(s@[i as int] == '0' && i + 1 < s@.len() && is_dec_digit(s@[i + 1])),
            dec_run(s@, i as int, 0) == dec_run(s@, j as int, acc as nat),
        ensures
            i <= j <= n,
            n == s@.len(),
            is_dec_digit(s@[i as int]),
            !(s@[i as int] == '0' && i + 1 < s@.len() && is_dec_digit(s@[i + 1])),
            dec_run(s@, i as int, 0) == (acc as nat, j as int),
        decreases n - j,
    {
        if j >= n {
            assert(dec_run(s@, j as int, acc as nat) == (acc as nat, j as int));
            break ;
        }
        let c = s.get_char(j);
        if !is_dec_digit_char(c) {
            assert(dec_run(s@, j as int, acc as nat) == (acc as nat, j as int));
            break ;
        }
        let d = ((c as u32) - 48) as u8;
        assert(d as nat == dec_val(s@[j as int]));
        if acc > (u64::MAX - d as u64) / 10 {
            proof {
                let a2 = acc as nat * 10 + dec_val(s@[j as int]);
                assert(dec_run(s@, j as int, acc as nat) == dec_run(s@, j + 1, a2));
                lemma_dec_run_bounds(s@, j + 1, a2);
                let q = (u64::MAX - d as u64) / 10;
                assert(u64::MAX - d as u64 == 10 * (q as int) + ((u64::MAX - d as u64) as int
                    % 10));
                assert(a2 > u64::MAX);
                assert(dec_run(s@, i as int, 0).0 > u64::MAX);
            }
            return None;
        }
        acc = acc * 10 + d as u64;
        j += 1;
    }
    proof {
        lemma_dec_run_bounds(s@, i + 1, 0nat * 10 + dec_val(s@[i as int]));
        assert(dec_run(s@, i as int, 0) == dec_run(s@, i + 1, 0nat * 10 + dec_val(s@[i as int])));
        assert(j > i);
    }
    Some((acc, j))
}


/// The escaped form of `content` embedded in `s` at `i`, followed by a
/// closing quote, parses back to exactly `content`, leaving the index just
/// past the quote.
pub proof fn lemma_parse_str_of_escaped(s: Seq<char>, i: int, content: Seq<char>)
    requires
        0 <= i,
        i + escape_string(content).len() + 1 <= s.len(),
        s.subrange(i, i + escape_string(content).len() as int) == escape_string(content),
        s[i + escape_string(content).len()] == '"',
    ensures
        parse_str_spec(s, i) == Some((content, i + escape_string(content).len() + 1)),
    decreases content.len(),
{
    let e = escape_string(content);
    if content.len() == 0 {
        assert(e =~= Seq::<char>::empty());
        assert(s[i] == '"');
        assert(parse_str_spec(s, i) == Some((Seq::<char>::empty(), i + 1)));
        assert(content =~= Seq::<char>::empty());
    } else {
        let c = content[0];
        let ec = escape_char(c);
        let rest = content.drop_first();
        let erest = escape_string(rest);
        assert(e == ec + erest);
        assert(content =~= seq![c] + rest);
        // character-level view of the requires
        assert forall|t: int| 0 <= t < e.len() implies s[i + t] == e[t] by {
            assert(s.subrange(i, i + e.len() as int)[t] == s[i + t]);
        }
        let i2 = i + ec.len();
        assert(s.subrange(i2, i2 + erest.len() as int) =~= erest) by {
            assert forall|t: int| 0 <= t < erest.len() implies s.subrange(
                i2,
                i2 + erest.len() as int,
            )[t] == erest[t] by {
                assert(s[i2 + t] == e[ec.len() + t]);
                assert(e[ec.len() + t] == erest[t]);
            }
        }
        assert(s[i2 + erest.len()] == '"');
        lemma_parse_str_of_escaped(s, i2, rest);
        assert(s[i + 0] == e[0]);
        assert(s[i] == e[0]);
        if c == '"' || c == '\\' || c == '\n' || c == '\r' || c == '\t' {
            // two-character escape with a one-letter code
            assert(s[i + 1] == e[1]);
            assert(e[0] == ec[0] && e[1] == ec[1]);
            assert(s[i] == '\\' && escape_code(s[i + 1]) == Some(c));
            assert(parse_str_spec(s, i) == Some((seq![c] + rest, i2 + erest.len() + 1)));
        } else if (c as u32) < 32 {
            // \u escape of an ASCII control character
            let hi = hex_char((c as u32 / 16) as nat);
            let lo = hex_char((c as u32 % 16) as nat);
            assert(s[i + 1] == e[1] && s[i + 2] == e[2] && s[i + 3] == e[3] && s[i + 4] == e[4]
                && s[i + 5] == e[5]);
            assert(e[0] == ec[0] && e[1] == ec[1] && e[2] == ec[2] && e[3] == ec[3] && e[4]
                == ec[4] && e[5] == ec[5]);
            assert(s[i] == '\\' && s[i + 1] == 'u');
            assert(s[i + 2] == '0' && s[i + 3] == '0' && s[i + 4] == hi && s[i + 5] == lo);
            assert(is_hex_digit('0') && is_hex_digit(hi) && is_hex_digit(lo));
            assert(hex_val('0') == 0);
            assert(hex_val(hi) == c as u32 / 16 && hex_val(lo) == c as u32 % 16);
            assert(hex4_val(s, i + 2) == (c as u32 / 16) * 16 + c as u32 % 16);
            assert((c as u32 / 16) * 16 + c as u32 % 16 == c as u32);
            assert(hex4_val(s, i + 2) < 128);
            assert(u_escape_ok(s, i + 2));
            vstd::utf8::char_u32_cast(c, c as u32);
            assert(u_escape_char(s, i + 2) == c);
            assert(i2 == i + 6);
            assert(parse_str_spec(s, i) == Some((seq![c] + rest, i2 + erest.len() + 1)));
        } else {
            // the character stands for itself
            assert(ec == seq![c]);
            assert(e[0] == ec[0]);
            assert(s[i] == c);
            assert(is_raw_char(c));
            assert(parse_str_spec(s, i) == Some((seq![c] + rest, i2 + erest.len() + 1)));
        }
        assert(e.len() == ec.len() + erest.len());
    }
}

} // verus!
