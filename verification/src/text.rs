//! Character and string helpers shared by the lexer, the parser primitives
//! and the diagnostics.

use vstd::prelude::*;

verus! {

/// Whether `c` is a letter, as `char::is_alphabetic` tells it.
pub uninterp spec fn alphabetic_char(c: char) -> bool;

/// Whether `c` is a number, as `char::is_numeric` tells it.
pub uninterp spec fn numeric_char(c: char) -> bool;

/// Whether `c` is white space, as `char::is_whitespace` tells it.
pub uninterp spec fn whitespace_char(c: char) -> bool;

/// `char::is_alphabetic` tells whether the character has the Unicode
/// property `Alphabetic`; the result is named, not spelled out.
pub assume_specification[ char::is_alphabetic ](c: char) -> (b: bool)
    ensures
        b == alphabetic_char(c),
;

/// `char::is_alphanumeric` tells whether the character is alphabetic or
/// numeric: whether it satisfies `is_alphabetic` or `is_numeric`.
pub assume_specification[ char::is_alphanumeric ](c: char) -> (b: bool)
    ensures
        b == (alphabetic_char(c) || numeric_char(c)),
;

/// `char::is_numeric` tells whether the character has one of the Unicode
/// general categories for numbers; the result is named, not spelled out.
pub assume_specification[ char::is_numeric ](c: char) -> (b: bool)
    ensures
        b == numeric_char(c),
;

/// `char::is_whitespace` tells whether the character has the Unicode
/// property `White_Space`; the result is named, not spelled out.
pub assume_specification[ char::is_whitespace ](c: char) -> (b: bool)
    ensures
        b == whitespace_char(c),
;

/// `String::push` appends exactly one character to the end of the string.
pub assume_specification[ String::push ](s: &mut String, ch: char)
    ensures
        final(s)@ == old(s)@.push(ch),
;

/// An owned copy of a string slice.
pub fn string_of_str(s: &str) -> (out: String)
    ensures
        out@ == s@,
{
    s.to_owned()
}

/// The number `n` as a machine number: itself where it fits, else the
/// largest machine number.
pub open spec fn fit(n: nat) -> usize {
    if n > usize::MAX {
        usize::MAX
    } else {
        n as usize
    }
}

/// One more than `n`, or `n` itself where it is the largest machine number.
pub fn next_fit(n: usize) -> (m: usize)
    ensures
        m == fit((n + 1) as nat),
{
    if n < usize::MAX {
        n + 1
    } else {
        n
    }
}

/// A copy of an optional string.
pub fn clone_text(s: &Option<String>) -> (out: Option<String>)
    ensures
        out == *s,
{
    match s {
        Some(text) => Some(text.clone()),
        None => None,
    }
}

/// Collects the characters of a string slice into a vector.
pub fn chars_of(s: &str) -> (out: Vec<char>)
    ensures
        out@ == s@,
{
    let mut out: Vec<char> = Vec::new();
    for c in it: s.chars()
        invariant
            out@ == it.seq().take(it.index()),
            it.seq() == s@,
    {
        out.push(c);
    }
    out
}

/// Builds a string from a slice of characters.
pub fn string_of(chars: &[char]) -> (out: String)
    ensures
        out@ == chars@,
{
    let mut out = String::new();
    let mut i: usize = 0;
    while i < chars.len()
        invariant
            i <= chars.len(),
            out@ == chars@.take(i as int),
        decreases chars.len() - i,
    {
        out.push(chars[i]);
        i += 1;
    }
    out
}

/// Whether two string slices hold the same text.
pub fn same_text(a: &str, b: &str) -> (same: bool)
    ensures
        same == (a@ == b@),
{
    let x = chars_of(a);
    let y = chars_of(b);
    if x.len() != y.len() {
        return false;
    }
    let mut k: usize = 0;
    while k < x.len()
        invariant
            k <= x@.len(),
            x@.len() == y@.len(),
            x@ == a@,
            y@ == b@,
            forall|j: int| 0 <= j < k ==> x@[j] == y@[j],
        decreases x@.len() - k,
    {
        if x[k] != y[k] {
            return false;
        }
        k += 1;
    }
    proof {
        assert(x@ =~= y@);
    }
    true
}

/// Whether `c` occurs in `chars`.
pub fn contains_char(chars: &Vec<char>, c: char) -> (found: bool)
    ensures
        found == chars@.contains(c),
{
    let mut k: usize = 0;
    while k < chars.len()
        invariant
            k <= chars@.len(),
            forall|j: int| 0 <= j < k ==> chars@[j] != c,
        decreases chars@.len() - k,
    {
        if chars[k] == c {
            return true;
        }
        k += 1;
    }
    false
}

/// Builds a string from the characters of `chars` between `from` and `to`.
pub fn string_of_range(chars: &Vec<char>, from: usize, to: usize) -> (out: String)
    requires
        from <= to <= chars@.len(),
    ensures
        out@ == chars@.subrange(from as int, to as int),
{
    let mut out = String::new();
    let mut i: usize = from;
    while i < to
        invariant
            from <= i <= to <= chars@.len(),
            out@ == chars@.subrange(from as int, i as int),
        decreases to - i,
    {
        out.push(chars[i]);
        proof {
            assert(chars@.subrange(from as int, i + 1) =~= chars@.subrange(from as int, i as int).push(
                chars@[i as int],
            ));
        }
        i += 1;
    }
    out
}

/// The character that stands for the digit `d` in decimal notation.
pub open spec fn digit_char(d: nat) -> char {
    if d == 0 {
        '0'
    } else if d == 1 {
        '1'
    } else if d == 2 {
        '2'
    } else if d == 3 {
        '3'
    } else if d == 4 {
        '4'
    } else if d == 5 {
        '5'
    } else if d == 6 {
        '6'
    } else if d == 7 {
        '7'
    } else if d == 8 {
        '8'
    } else {
        '9'
    }
}

/// The decimal notation of `n`, most significant digit first, without
/// leading zeros.
pub open spec fn decimal(n: nat) -> Seq<char>
    decreases n,
{
    if n < 10 {
        seq![digit_char(n)]
    } else {
        decimal(n / 10).push(digit_char(n % 10))
    }
}

fn digit_of(d: u128) -> (c: char)
    requires
        d < 10,
    ensures
        c == digit_char(d as nat),
{
    if d == 0 {
        '0'
    } else if d == 1 {
        '1'
    } else if d == 2 {
        '2'
    } else if d == 3 {
        '3'
    } else if d == 4 {
        '4'
    } else if d == 5 {
        '5'
    } else if d == 6 {
        '6'
    } else if d == 7 {
        '7'
    } else if d == 8 {
        '8'
    } else {
        '9'
    }
}

/// The digits of `n` in decimal notation, for numbers beyond the range of
/// indices.
pub fn decimal_chars_wide(n: u128) -> (out: Vec<char>)
    ensures
        out@ == decimal(n as nat),
    decreases n,
{
    if n < 10 {
        let mut out: Vec<char> = Vec::new();
        out.push(digit_of(n));
        out
    } else {
        let mut out = decimal_chars_wide(n / 10);
        out.push(digit_of(n % 10));
        out
    }
}

/// The digits of `n` in decimal notation.
pub fn decimal_chars(n: usize) -> (out: Vec<char>)
    ensures
        out@ == decimal(n as nat),
{
    decimal_chars_wide(n as u128)
}

/// A character of the printable part of ASCII, the space included.
pub open spec fn plain_ascii_char(c: char) -> bool {
    ' ' <= c <= '~'
}

/// A text made of printable characters of ASCII.
pub open spec fn plain_ascii(text: Seq<char>) -> bool {
    forall|i: int| 0 <= i < text.len() ==> plain_ascii_char(#[trigger] text[i])
}

/// Decimal notation is made of printable characters of ASCII, and is not
/// empty.
pub proof fn lemma_decimal_is_plain(n: nat)
    ensures
        plain_ascii(decimal(n)),
        decimal(n).len() >= 1,
    decreases n,
{
    if n >= 10 {
        lemma_decimal_is_plain(n / 10);
    }
}

/// Appends the characters of `tail` to `out`.
pub fn push_chars(out: &mut String, tail: &[char])
    ensures
        final(out)@ == old(out)@ + tail@,
{
    let mut i: usize = 0;
    while i < tail.len()
        invariant
            i <= tail.len(),
            out@ == old(out)@ + tail@.take(i as int),
        decreases tail.len() - i,
    {
        out.push(tail[i]);
        proof {
            assert(tail@.take(i + 1) =~= tail@.take(i as int).push(tail@[i as int]));
        }
        i += 1;
    }
    proof {
        assert(tail@.take(tail@.len() as int) =~= tail@);
    }
}

/// Appends `n` in decimal notation to `out`.
pub fn push_decimal(out: &mut String, n: usize)
    ensures
        final(out)@ == old(out)@ + decimal(n as nat),
{
    let digits = decimal_chars(n);
    push_chars(out, digits.as_slice());
}

} // verus!
