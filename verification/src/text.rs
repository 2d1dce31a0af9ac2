//! Character-level helpers for the lexer: hex digits, whitespace, and
//! comparisons between character ranges and literal mnemonics.
use vstd::prelude::*;

verus! {

/// Whitespace that separates opcode tokens.
pub open spec fn is_ws(c: char) -> bool {
    c == ' ' || c == '\t' || c == '\n' || c == '\r'
}

/// Whether `c` is a hexadecimal digit (either case).
pub open spec fn is_hex_digit(c: char) -> bool {
    ('0' <= c && c <= '9') || ('a' <= c && c <= 'f') || ('A' <= c && c <= 'F')
}

/// The value of a hexadecimal digit.
pub open spec fn hex_digit_val(c: char) -> nat {
    if '0' <= c && c <= '9' {
        (c as nat - '0' as nat) as nat
    } else if 'a' <= c && c <= 'f' {
        (c as nat - 'a' as nat + 10) as nat
    } else {
        (c as nat - 'A' as nat + 10) as nat
    }
}

/// The value of a string of hexadecimal digits, most significant first.
pub open spec fn hex_val(s: Seq<char>) -> nat
    decreases s.len(),
{
    if s.len() == 0 {
        0
    } else {
        hex_val(s.drop_last()) * 16 + hex_digit_val(s.last())
    }
}

/// Whether every character of `s` is a hexadecimal digit.
pub open spec fn all_hex(s: Seq<char>) -> bool {
    forall|i: int| 0 <= i < s.len() ==> is_hex_digit(s[i])
}

/// What `u8::from_str_radix(s, 16)` yields: the digits' value, provided
/// there is at least one digit, all characters are digits, and the value
/// fits in a byte.
pub open spec fn parse_hex_u8_spec(s: Seq<char>) -> Option<u8> {
    if s.len() >= 1 && all_hex(s) && hex_val(s) <= 255 {
        Some(hex_val(s) as u8)
    } else {
        None
    }
}

/// The index just past the run of non-whitespace characters starting at `i`.
pub open spec fn token_end(s: Seq<char>, i: int) -> int
    decreases s.len() - i,
{
    if i < 0 || i >= s.len() || is_ws(s[i]) {
        i
    } else {
        token_end(s, i + 1)
    }
}

proof fn lemma_token_end_ge(s: Seq<char>, i: int)
    requires
        0 <= i <= s.len(),
    ensures
        i <= token_end(s, i) <= s.len(),
    decreases s.len() - i,
{
    if i < s.len() && !is_ws(s[i]) {
        lemma_token_end_ge(s, i + 1);
    }
}

/// The whitespace-separated tokens of `s[i..]`, in order.
pub open spec fn tokens_from(s: Seq<char>, i: int) -> Seq<Seq<char>>
    decreases s.len() - i,
    when 0 <= i <= s.len()
    via tokens_from_decreases
{
    if i >= s.len() {
        Seq::empty()
    } else if is_ws(s[i]) {
        tokens_from(s, i + 1)
    } else {
        seq![s.subrange(i, token_end(s, i))] + tokens_from(s, token_end(s, i))
    }
}

#[via_fn]
proof fn tokens_from_decreases(s: Seq<char>, i: int) {
    if 0 <= i < s.len() && !is_ws(s[i]) {
        lemma_token_end_ge(s, i + 1);
        assert(token_end(s, i) == token_end(s, i + 1));
    }
}

/// The whitespace-separated tokens of `s`.
pub open spec fn tokens_of(s: Seq<char>) -> Seq<Seq<char>> {
    tokens_from(s, 0)
}

/// Once the scan has covered `[i..j)` without whitespace, the token that
/// starts at `i` ends exactly where the run of non-whitespace ends.
proof fn lemma_token_end_run(s: Seq<char>, i: int, j: int)
    requires
        0 <= i <= j <= s.len(),
        forall|k: int| i <= k < j ==> !is_ws(s[k]),
        j == s.len() || is_ws(s[j]),
    ensures
        token_end(s, i) == j,
    decreases j - i,
{
    if i < j {
        lemma_token_end_run(s, i + 1, j);
    }
}

/// Split `chars` at whitespace: the token ranges, exactly the tokens of
/// [`tokens_of`].
pub fn tokenize(chars: &Vec<char>) -> (toks: Vec<(usize, usize)>)
    ensures
        toks@.len() == tokens_of(chars@).len(),
        forall|k: int|
            0 <= k < toks@.len() ==> (#[trigger] toks@[k]).0 <= toks@[k].1 <= chars@.len()
                && chars@.subrange(toks@[k].0 as int, toks@[k].1 as int) == tokens_of(chars@)[k],
{
    let n = chars.len();
    let mut toks: Vec<(usize, usize)> = Vec::new();
    let mut i: usize = 0;
    while i < n
        invariant
            i <= n,
            n == chars@.len(),
            tokens_of(chars@) =~= seq_ranges(chars@, toks@) + tokens_from(chars@, i as int),
            forall|k: int|
                0 <= k < toks@.len() ==> (#[trigger] toks@[k]).0 <= toks@[k].1 <= chars@.len(),
        decreases n - i,
    {
        let c = chars[i];
        if is_whitespace(c) {
            i += 1;
        } else {
            let start = i;
            let mut j: usize = i + 1;
            while j < n && !is_whitespace(chars[j])
                invariant
                    start < j <= n,
                    n == chars@.len(),
                    forall|k: int| start <= k < j ==> !is_ws(chars@[k]),
                decreases n - j,
            {
                j += 1;
            }
            proof {
                lemma_token_end_run(chars@, start as int, j as int);
            }
            toks.push((start, j));
            proof {
                assert(seq_ranges(chars@, toks@) =~= seq_ranges(chars@, toks@.drop_last())
                    + seq![chars@.subrange(start as int, j as int)]);
            }
            i = j;
        }
    }
    proof {
        assert(tokens_of(chars@) =~= seq_ranges(chars@, toks@));
        assert(forall|k: int| 0 <= k < toks@.len() ==> tokens_of(chars@)[k] == seq_ranges(
            chars@,
            toks@,
        )[k]);
    }
    toks
}

/// The subsequences of `s` named by a list of index ranges.
pub open spec fn seq_ranges(s: Seq<char>, rs: Seq<(usize, usize)>) -> Seq<Seq<char>> {
    rs.map_values(|r: (usize, usize)| s.subrange(r.0 as int, r.1 as int))
}

/// The characters of a string, in order.
pub fn chars_of_str(s: &str) -> (v: Vec<char>)
    ensures
        v@ == s@,
{
    let n = s.unicode_len();
    let mut v: Vec<char> = Vec::new();
    let mut i: usize = 0;
    while i < n
        invariant
            i <= n,
            n == s@.len(),
            v@ =~= s@.take(i as int),
        decreases n - i,
    {
        v.push(s.get_char(i));
        i += 1;
    }
    proof {
        assert(v@ =~= s@);
    }
    v
}

/// Whether `c` is whitespace.
pub fn is_whitespace(c: char) -> (r: bool)
    ensures
        r == is_ws(c),
{
    c == ' ' || c == '\t' || c == '\n' || c == '\r'
}

/// The value of a hex digit, or `None` for any other character.
pub fn hex_digit_value(c: char) -> (r: Option<u8>)
    ensures
        is_hex_digit(c) ==> r == Some(hex_digit_val(c) as u8),
        !is_hex_digit(c) ==> r is None,
{
    if '0' <= c && c <= '9' {
        Some((c as u32 - '0' as u32) as u8)
    } else if 'a' <= c && c <= 'f' {
        Some((c as u32 - 'a' as u32 + 10) as u8)
    } else if 'A' <= c && c <= 'F' {
        Some((c as u32 - 'A' as u32 + 10) as u8)
    } else {
        None
    }
}

/// Parse `chars[start..end]` as at most a byte of hex digits, exactly as
/// [`parse_hex_u8_spec`] reads that range.
pub fn parse_hex_u8(chars: &Vec<char>, start: usize, end: usize) -> (r: Option<u8>)
    requires
        start <= end <= chars@.len(),
    ensures
        r == parse_hex_u8_spec(chars@.subrange(start as int, end as int)),
{
    let ghost s = chars@.subrange(start as int, end as int);
    if start == end {
        return None;
    }
    let mut acc: u32 = 0;
    let mut i: usize = start;
    while i < end
        invariant
            start <= i <= end <= chars@.len(),
            s == chars@.subrange(start as int, end as int),
            all_hex(s.take(i - start)),
            acc <= 255 ==> acc == hex_val(s.take(i - start)),
            acc > 255 ==> acc == 256 && hex_val(s.take(i - start)) > 255,
        decreases end - i,
    {
        let c = chars[i];
        proof {
            assert(s[i - start] == chars@[i as int]);
            assert(s.take(i - start + 1).drop_last() =~= s.take(i - start));
            assert(s.take(i - start + 1).last() == s[i - start]);
        }
        match hex_digit_value(c) {
            Some(d) => {
                if acc * 16 + d as u32 > 255 {
                    acc = 256;
                } else {
                    acc = acc * 16 + d as u32;
                }
            },
            None => {
                return None;
            },
        }
        i += 1;
    }
    proof {
        assert(s.take(end - start) =~= s);
    }
    if acc <= 255 {
        Some(acc as u8)
    } else {
        None
    }
}

/// Whether `chars[start..end]` spells exactly the literal `pat`.
pub fn range_eq_str(chars: &Vec<char>, start: usize, end: usize, pat: &str) -> (r: bool)
    requires
        start <= end <= chars@.len(),
    ensures
        r == (chars@.subrange(start as int, end as int) == pat@),
{
    let n = pat.unicode_len();
    if end - start != n {
        proof {
            assert(chars@.subrange(start as int, end as int).len() != pat@.len());
        }
        return false;
    }
    let mut i: usize = 0;
    while i < n
        invariant
            i <= n,
            n == pat@.len(),
            n == end - start,
            start <= end <= chars@.len(),
            forall|j: int| 0 <= j < i ==> chars@.subrange(start as int, end as int)[j] == pat@[j],
        decreases n - i,
    {
        if chars[start + i] != pat.get_char(i) {
            proof {
                assert(chars@.subrange(start as int, end as int)[i as int] != pat@[i as int]);
            }
            return false;
        }
        i += 1;
    }
    proof {
        assert(chars@.subrange(start as int, end as int) =~= pat@);
    }
    true
}

} // verus!
