//! Validation of client session tokens: GUID-shaped strings, optionally
//! wrapped in `{}` or `()`.

use vstd::prelude::*;

verus! {

/// An ASCII hexadecimal digit, either case.
pub open spec fn is_hex_digit(c: char) -> bool {
    (48 <= c as u32 && c as u32 <= 57)  // '0'..='9'
    || (97 <= c as u32 && c as u32 <= 102)  // 'a'..='f'
    || (65 <= c as u32 && c as u32 <= 70)  // 'A'..='F'
}

/// The 36-character GUID core: five groups of hex digits of lengths
/// 8, 4, 4, 4 and 12, separated by `-` at positions 8, 13, 18 and 23.
pub open spec fn is_guid_core(s: Seq<char>) -> bool {
    &&& s.len() == 36
    &&& forall|i: int|
        0 <= i < 36 && i != 8 && i != 13 && i != 18 && i != 23 ==> is_hex_digit(#[trigger] s[i])
    &&& s[8] == '-'
    &&& s[13] == '-'
    &&& s[18] == '-'
    &&& s[23] == '-'
}

pub open spec fn is_open_wrap(c: char) -> bool {
    c == '{' || c == '('
}

pub open spec fn is_close_wrap(c: char) -> bool {
    c == '}' || c == ')'
}

/// The token grammar: a GUID core, optionally preceded by one `{` or `(`
/// and optionally followed by one `}` or `)`; the two wrappers are
/// independent of each other.
pub open spec fn is_valid_guid_spec(s: Seq<char>) -> bool {
    ||| (s.len() == 36 && is_guid_core(s))
    ||| (s.len() == 37 && is_open_wrap(s[0]) && is_guid_core(s.skip(1)))
    ||| (s.len() == 37 && is_close_wrap(s[36]) && is_guid_core(s.take(36)))
    ||| (s.len() == 38 && is_open_wrap(s[0]) && is_close_wrap(s[37]) && is_guid_core(
        s.subrange(1, 37),
    ))
}

pub(crate) fn is_hex_digit_char(c: char) -> (r: bool)
    ensures
        r == is_hex_digit(c),
{
    let u = c as u32;
    (48 <= u && u <= 57) || (97 <= u && u <= 102) || (65 <= u && u <= 70)
}

/// Decides whether `guid` is a syntactically valid session token.
pub fn is_valid_guid(guid: &str) -> (r: bool)
    ensures
        r == is_valid_guid_spec(guid@),
{
    let n = guid.unicode_len();
    if n < 36 || n > 38 {
        return false;
    }
    let first = guid.get_char(0);
    let has_open = first == '{' || first == '(';
    let last = guid.get_char(n - 1);
    let has_close = last == '}' || last == ')';
    let start: usize = if has_open {
        1
    } else {
        0
    };
    let end: usize = if has_close {
        n - 1
    } else {
        n
    };
    if end < start || end - start != 36 {
        proof {
            lemma_wraps_are_not_core_chars();
            let s = guid@;
            if s.len() == 36 && is_guid_core(s) {
                assert(is_hex_digit(s[0]));
                assert(is_hex_digit(s[35]));
                assert(false);
            }
            if s.len() == 37 && is_open_wrap(s[0]) && is_guid_core(s.skip(1)) {
                // both wrappers present, so the close wrapper sits where the
                // core's last hex digit would be
                assert(is_hex_digit(s.skip(1)[35]));
                assert(s.skip(1)[35] == s[36]);
                assert(false);
            }
            if s.len() == 37 && is_close_wrap(s[36]) && is_guid_core(s.take(36)) {
                assert(is_hex_digit(s.take(36)[0]));
                assert(s.take(36)[0] == s[0]);
                assert(false);
            }
        }
        return false;
    }
    let mut i: usize = 0;
    while i < 36
        invariant
            guid@.len() == n,
            36 <= n <= 38,
            start + 36 == end <= n,
            start == (if is_open_wrap(guid@[0]) {
                1int
            } else {
                0
            }),
            end == (if is_close_wrap(guid@[n - 1]) {
                (n - 1) as int
            } else {
                n as int
            }),
            i <= 36,
            forall|k: int|
                0 <= k < i && k != 8 && k != 13 && k != 18 && k != 23 ==> is_hex_digit(
                    #[trigger] guid@[start + k],
                ),
            i > 8 ==> guid@[start + 8] == '-',
            i > 13 ==> guid@[start + 13] == '-',
            i > 18 ==> guid@[start + 18] == '-',
            i > 23 ==> guid@[start + 23] == '-',
        decreases 36 - i,
    {
        let c = guid.get_char(start + i);
        if i == 8 || i == 13 || i == 18 || i == 23 {
            if c != '-' {
                proof {
                    lemma_wraps_are_not_core_chars();
                    lemma_cases_read_core(guid@, start as int, i as int);
                }
                return false;
            }
        } else {
            if !is_hex_digit_char(c) {
                proof {
                    lemma_wraps_are_not_core_chars();
                    lemma_cases_read_core(guid@, start as int, i as int);
                }
                return false;
            }
        }
        i += 1;
    }
    proof {
        lemma_wraps_are_not_core_chars();
        let s = guid@;
        let core = s.subrange(start as int, end as int);
        assert forall|k: int|
            0 <= k < 36 && k != 8 && k != 13 && k != 18 && k != 23 implies is_hex_digit(
            #[trigger] core[k],
        ) by {
            assert(core[k] == s[start + k]);
            assert(is_hex_digit(s[start + k]));
        }
        assert(core[8] == s[start + 8] && core[13] == s[start + 13] && core[18] == s[start + 18]
            && core[23] == s[start + 23]);
        assert(is_guid_core(core));
        if start == 0 && end == n {
            assert(core =~= s);
        } else if start == 1 && end == n {
            assert(core =~= s.skip(1));
        } else if start == 0 && end == n - 1 {
            assert(core =~= s.take(36));
        } else {
            assert(core =~= s.subrange(1, 37));
        }
    }
    true
}

/// A wrapper character is neither a hex digit nor a dash, so a wrapped
/// string can never satisfy a grammar case that reads the wrapper as part
/// of the core.
proof fn lemma_wraps_are_not_core_chars()
    ensures
        forall|c: char| is_open_wrap(c) ==> !is_hex_digit(c) && c != '-',
        forall|c: char| is_close_wrap(c) ==> !is_hex_digit(c) && c != '-',
{
}

/// If the core region `[start, start + 36)` of `s` has a bad character at
/// offset `i`, every case of the grammar that places the core at `start`
/// fails at that same character.
proof fn lemma_cases_read_core(s: Seq<char>, start: int, i: int)
    requires
        0 <= start,
        start + 36 <= s.len(),
        0 <= i < 36,
    ensures
        s.len() == 37 && start == 1 ==> s.skip(1)[i] == s[start + i],
        s.len() == 37 && start == 0 ==> s.take(36)[i] == s[start + i],
        s.len() == 38 && start == 1 ==> s.subrange(1, 37)[i] == s[start + i],
        s.len() == 36 && start == 0 ==> s[i] == s[start + i],
{
}

} // verus!
