//! Splitting a line of UTF-8 text into white-space separated words, and
//! reading decimal numbers, directly on the bytes.
//!
//! White space is every character with the Unicode property `White_Space`.
//! Each such character is recognised by its UTF-8 encoding; in well-formed
//! UTF-8 none of these encodings can begin inside another character.

use vstd::prelude::*;

verus! {

/// The length in bytes of the white-space character that starts at index `i`
/// of `s`, or 0 when no white-space character starts there.
pub open spec fn space_len(s: Seq<u8>, i: int) -> int {
    if i < 0 || i >= s.len() {
        0
    } else if 0x09 <= s[i] <= 0x0D || s[i] == 0x20 {
        // U+0009 to U+000D, U+0020
        1
    } else if i + 1 < s.len() && s[i] == 0xC2 && (s[i + 1] == 0x85 || s[i + 1] == 0xA0) {
        // U+0085, U+00A0
        2
    } else if i + 2 < s.len() && s[i] == 0xE1 && s[i + 1] == 0x9A && s[i + 2] == 0x80 {
        // U+1680
        3
    } else if i + 2 < s.len() && s[i] == 0xE2 && s[i + 1] == 0x80 && (0x80 <= s[i + 2] <= 0x8A
        || s[i + 2] == 0xA8 || s[i + 2] == 0xA9 || s[i + 2] == 0xAF) {
        // U+2000 to U+200A, U+2028, U+2029, U+202F
        3
    } else if i + 2 < s.len() && s[i] == 0xE2 && s[i + 1] == 0x81 && s[i + 2] == 0x9F {
        // U+205F
        3
    } else if i + 2 < s.len() && s[i] == 0xE3 && s[i + 1] == 0x80 && s[i + 2] == 0x80 {
        // U+3000
        3
    } else {
        0
    }
}

/// The index of the first byte at or after `i` that is not part of a
/// white-space character; `s.len()` when only white space is left.
pub open spec fn word_start(s: Seq<u8>, i: int) -> int
    decreases s.len() - i,
{
    if i < 0 || i >= s.len() {
        s.len() as int
    } else if space_len(s, i) > 0 {
        word_start(s, i + space_len(s, i))
    } else {
        i
    }
}

/// The index just after the word that starts at `i`: the first index at
/// or after `i` where a white-space character starts, or `s.len()`.
pub open spec fn word_end(s: Seq<u8>, i: int) -> int
    decreases s.len() - i,
{
    if i < 0 || i >= s.len() {
        s.len() as int
    } else if space_len(s, i) > 0 {
        i
    } else {
        word_end(s, i + 1)
    }
}

/// The bounds `(start, end)` of the first word found at or after `from`.
pub open spec fn next_word(s: Seq<u8>, from: int) -> Option<(int, int)> {
    let start = word_start(s, from);
    if start >= s.len() {
        None
    } else {
        Some((start, word_end(s, start)))
    }
}

/// The bounds of the word with number `n`, counting from 0, among the words
/// found at or after `from`.
pub open spec fn nth_word(s: Seq<u8>, from: int, n: nat) -> Option<(int, int)>
    decreases n,
{
    match next_word(s, from) {
        None => None,
        Some((start, end)) => if n == 0 {
            Some((start, end))
        } else {
            nth_word(s, end, (n - 1) as nat)
        },
    }
}

pub proof fn lemma_word_start_bounds(s: Seq<u8>, i: int)
    requires
        0 <= i <= s.len(),
    ensures
        i <= word_start(s, i) <= s.len(),
        word_start(s, i) < s.len() ==> space_len(s, word_start(s, i)) == 0,
    decreases s.len() - i,
{
    if i < s.len() && space_len(s, i) > 0 {
        lemma_word_start_bounds(s, i + space_len(s, i));
    }
}

/// The number of bytes of the white-space character that starts at `i`.
pub fn space_at(s: &[u8], i: usize) -> (n: usize)
    ensures
        n == space_len(s@, i as int),
{
    let len = s.len();
    if i >= len {
        return 0;
    }
    let b0: u8 = s[i];
    if (0x09 <= b0 && b0 <= 0x0D) || b0 == 0x20 {
        return 1;
    }
    if len - i >= 2 {
        let b1: u8 = s[i + 1];
        if b0 == 0xC2 && (b1 == 0x85 || b1 == 0xA0) {
            return 2;
        }
        if len - i >= 3 {
            let b2: u8 = s[i + 2];
            if b0 == 0xE1 && b1 == 0x9A && b2 == 0x80 {
                return 3;
            }
            if b0 == 0xE2 && b1 == 0x80 && ((0x80 <= b2 && b2 <= 0x8A) || b2 == 0xA8 || b2 == 0xA9
                || b2 == 0xAF) {
                return 3;
            }
            if b0 == 0xE2 && b1 == 0x81 && b2 == 0x9F {
                return 3;
            }
            if b0 == 0xE3 && b1 == 0x80 && b2 == 0x80 {
                return 3;
            }
        }
    }
    0
}

/// Finds the first word at or after `from`.
pub fn find_word(s: &[u8], from: usize) -> (word: Option<(usize, usize)>)
    requires
        from <= s@.len(),
    ensures
        match word {
            Some((start, end)) => next_word(s@, from as int) == Some((start as int, end as int))
                && from <= start < end <= s@.len(),
            None => next_word(s@, from as int) is None,
        },
{
    let len = s.len();
    let mut start: usize = from;
    loop
        invariant
            from <= start <= len,
            len == s@.len(),
            word_start(s@, from as int) == word_start(s@, start as int),
        ensures
            from <= start <= len,
            start == word_start(s@, from as int),
        decreases len - start,
    {
        let n = space_at(s, start);
        if n == 0 {
            break ;
        }
        start = start + n;
    }
    if start >= len {
        return None;
    }
    let mut end: usize = start + 1;
    proof {
        lemma_word_start_bounds(s@, from as int);
    }
    while end < len && space_at(s, end) == 0
        invariant
            start < end <= len,
            len == s@.len(),
            word_end(s@, start as int) == word_end(s@, end as int),
        decreases len - end,
    {
        end = end + 1;
    }
    Some((start, end))
}


/// Every byte of `d` is an ASCII decimal digit.
pub open spec fn is_digits(d: Seq<u8>) -> bool {
    forall|i: int| 0 <= i < d.len() ==> 0x30 <= #[trigger] d[i] <= 0x39
}

/// The number that the decimal digits `d` write, most significant first.
pub open spec fn decimal_value(d: Seq<u8>) -> nat
    decreases d.len(),
{
    if d.len() == 0 {
        0
    } else {
        (decimal_value(d.drop_last()) * 10 + (d.last() - 0x30)) as nat
    }
}

/// The `u32` that the word `w` writes in decimal: an optional `+`, then one
/// digit or more, with a value that fits. `None` for every other word.
pub open spec fn parse_u32_spec(w: Seq<u8>) -> Option<u32> {
    let d = if w.len() > 0 && w[0] == 0x2B {
        w.subrange(1, w.len() as int)
    } else {
        w
    };
    if d.len() > 0 && is_digits(d) && decimal_value(d) <= u32::MAX {
        Some(decimal_value(d) as u32)
    } else {
        None
    }
}

/// A longer string of digits writes a number at least as large as any of
/// its prefixes.
pub proof fn lemma_decimal_value_prefix(d: Seq<u8>, n: int)
    requires
        is_digits(d),
        0 <= n <= d.len(),
    ensures
        decimal_value(d.subrange(0, n)) <= decimal_value(d),
    decreases d.len() - n,
{
    if n < d.len() {
        let longer = d.subrange(0, n + 1);
        assert(longer.drop_last() =~= d.subrange(0, n));
        assert(0x30 <= d[n] <= 0x39);
        lemma_decimal_value_prefix(d, n + 1);
    } else {
        assert(d.subrange(0, n) =~= d);
    }
}

/// Reads the word `s[start..end]` as a decimal `u32`.
pub fn parse_u32(s: &[u8], start: usize, end: usize) -> (value: Option<u32>)
    requires
        start <= end <= s@.len(),
    ensures
        value == parse_u32_spec(s@.subrange(start as int, end as int)),
{
    let ghost w = s@.subrange(start as int, end as int);
    let first: usize = if start < end && s[start] == 0x2B {
        start + 1
    } else {
        start
    };
    let ghost d = s@.subrange(first as int, end as int);
    assert(d =~= if w.len() > 0 && w[0] == 0x2B {
        w.subrange(1, w.len() as int)
    } else {
        w
    });
    if first == end {
        return None;
    }
    let ghost expected = if is_digits(d) && decimal_value(d) <= u32::MAX {
        Some(decimal_value(d) as u32)
    } else {
        None
    };
    assert(parse_u32_spec(w) == expected);
    let mut total: u64 = 0;
    let mut i: usize = first;
    while i < end
        invariant
            first <= i <= end <= s@.len(),
            d == s@.subrange(first as int, end as int),
            parse_u32_spec(s@.subrange(start as int, end as int)) == expected,
            expected == if is_digits(d) && decimal_value(d) <= u32::MAX {
                Some(decimal_value(d) as u32)
            } else {
                None
            },
            is_digits(d.subrange(0, i - first)),
            total == decimal_value(d.subrange(0, i - first)),
            total <= u32::MAX,
        decreases end - i,
    {
        let b: u8 = s[i];
        if b < 0x30 || b > 0x39 {
            assert(d[i - first] == b);
            return None;
        }
        let ghost longer = d.subrange(0, i - first + 1);
        assert(longer.drop_last() =~= d.subrange(0, i - first));
        assert(longer.last() == b);
        assert(is_digits(longer)) by {
            assert forall|k: int| 0 <= k < longer.len() implies 0x30 <= #[trigger] longer[k]
                <= 0x39 by {
                if k < i - first {
                    assert(longer[k] == d.subrange(0, i - first)[k]);
                }
            }
        }
        let next: u64 = total * 10 + (b - 0x30) as u64;
        if next > 0xFFFF_FFFF {
            proof {
                if is_digits(d) {
                    lemma_decimal_value_prefix(d, i - first + 1);
                }
            }
            return None;
        }
        total = next;
        i = i + 1;
    }
    assert(d.subrange(0, end - first) =~= d);
    Some(total as u32)
}

} // verus!
