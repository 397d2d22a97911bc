//! Ready-made matchers for words of common shapes: names and numbers.

use vstd::prelude::*;
use crate::compiling::failing::failure::Failure;
use crate::compiling::failing::position_info::{PositionInfo, current_token};
use crate::compiling::parser::metadata::Metadata;
use crate::compiling::parser::pattern::{advanced, mismatch};
use crate::compiling::token::Token;
use crate::text::{alphabetic_char, chars_of, contains_char, numeric_char};

verus! {

/// A class of characters.
#[derive(Clone, Copy, Debug, PartialEq, Eq)]
pub enum CharClass {
    /// Letters.
    Alphabetic,
    /// Letters and numbers.
    Alphanumeric,
    /// Numbers.
    Numeric,
}

/// Whether `c` belongs to `class`.
pub open spec fn in_class(class: CharClass, c: char) -> bool {
    match class {
        CharClass::Alphabetic => alphabetic_char(c),
        CharClass::Alphanumeric => alphabetic_char(c) || numeric_char(c),
        CharClass::Numeric => numeric_char(c),
    }
}

/// For each character of `word`, whether it belongs to `class`.
pub open spec fn class_flags(class: CharClass, word: Seq<char>) -> Seq<bool> {
    Seq::new(word.len(), |i: int| in_class(class, word[i]))
}

/// The character at index `i` of `word` is flagged or is one of `extend`.
pub open spec fn fits_at(word: Seq<char>, flags: Seq<bool>, extend: Seq<char>, i: int) -> bool {
    flags[i] || extend.contains(word[i])
}

/// Every character of `word` is flagged or is one of `extend`.
pub open spec fn all_fit(word: Seq<char>, flags: Seq<bool>, extend: Seq<char>) -> bool {
    forall|i: int| 0 <= i < word.len() ==> #[trigger] fits_at(word, flags, extend, i)
}

/// The first character of `word` is flagged as a letter and the others
/// as letters or numbers, or they are among `extend`.
pub open spec fn variable_shape(
    word: Seq<char>,
    letters: Seq<bool>,
    alnums: Seq<bool>,
    extend: Seq<char>,
) -> bool {
    &&& word.len() > 0 ==> fits_at(word, letters, extend, 0)
    &&& forall|i: int| 1 <= i < word.len() ==> #[trigger] fits_at(word, alnums, extend, i)
}

/// The number of dots among the first `upto` characters of `word`.
pub open spec fn dots(word: Seq<char>, upto: int) -> nat
    decreases upto,
{
    if upto <= 0 || upto > word.len() {
        0
    } else if word[upto - 1] == '.' {
        dots(word, upto - 1) + 1
    } else {
        dots(word, upto - 1)
    }
}

/// Exactly one character of `word` is a dot, and the others are flagged
/// as numbers or are among `extend`.
pub open spec fn float_shape(word: Seq<char>, numbers: Seq<bool>, extend: Seq<char>) -> bool {
    &&& dots(word, word.len() as int) == 1
    &&& forall|i: int|
        0 <= i < word.len() ==> word[i] == '.' || #[trigger] fits_at(word, numbers, extend, i)
}

/// Every character of `word` belongs to `class` or is one of `extend`.
pub open spec fn all_admitted(class: CharClass, extend: Seq<char>, word: Seq<char>) -> bool {
    all_fit(word, class_flags(class, word), extend)
}

/// A name: the first character is a letter, the others are letters or
/// numbers, and each may also be one of `extend`.
pub open spec fn is_variable_word(word: Seq<char>, extend: Seq<char>) -> bool {
    variable_shape(
        word,
        class_flags(CharClass::Alphabetic, word),
        class_flags(CharClass::Alphanumeric, word),
        extend,
    )
}

/// The word without the minus sign that it starts with, if it starts with
/// one.
pub open spec fn unsigned_part(word: Seq<char>) -> Seq<char> {
    if word.len() > 0 && word[0] == '-' {
        word.skip(1)
    } else {
        word
    }
}

/// An integer: numbers, or characters of `extend`, after an optional
/// minus sign.
pub open spec fn is_integer_word(word: Seq<char>, extend: Seq<char>) -> bool {
    all_admitted(CharClass::Numeric, extend, unsigned_part(word))
}

/// A number with a fraction: after an optional minus sign, exactly one
/// dot among numbers or characters of `extend`.
pub open spec fn is_float_word(word: Seq<char>, extend: Seq<char>) -> bool {
    float_shape(
        unsigned_part(word),
        class_flags(CharClass::Numeric, unsigned_part(word)),
        extend,
    )
}

/// An integer or a number with a fraction.
pub open spec fn is_number_word(word: Seq<char>, extend: Seq<char>) -> bool {
    is_integer_word(word, extend) || is_float_word(word, extend)
}

/// Tells for each character of `word` whether it belongs to `class`.
pub fn classify(class: CharClass, word: &Vec<char>) -> (flags: Vec<bool>)
    ensures
        flags@ == class_flags(class, word@),
{
    let mut flags: Vec<bool> = Vec::new();
    let mut i: usize = 0;
    while i < word.len()
        invariant
            i <= word@.len(),
            flags@.len() == i,
            forall|k: int| 0 <= k < i ==> flags@[k] == in_class(class, word@[k]),
        decreases word@.len() - i,
    {
        let c = word[i];
        let flag = match class {
            CharClass::Alphabetic => c.is_alphabetic(),
            CharClass::Alphanumeric => c.is_alphanumeric(),
            CharClass::Numeric => c.is_numeric(),
        };
        flags.push(flag);
        i += 1;
    }
    proof {
        assert(flags@ =~= class_flags(class, word@));
    }
    flags
}

/// Whether the character at index `i` of `word` is flagged or is one of
/// `extend`.
fn fits(word: &Vec<char>, flags: &Vec<bool>, extend: &Vec<char>, i: usize) -> (ok: bool)
    requires
        i < word@.len() == flags@.len(),
    ensures
        ok == fits_at(word@, flags@, extend@, i as int),
{
    flags[i] || contains_char(extend, word[i])
}

/// Whether every character of `word` is flagged or is one of `extend`.
pub fn has_all_fit(word: &Vec<char>, flags: &Vec<bool>, extend: &Vec<char>) -> (ok: bool)
    requires
        flags@.len() == word@.len(),
    ensures
        ok == all_fit(word@, flags@, extend@),
{
    let mut i: usize = 0;
    while i < word.len()
        invariant
            i <= word@.len() == flags@.len(),
            forall|k: int| 0 <= k < i ==> #[trigger] fits_at(word@, flags@, extend@, k),
        decreases word@.len() - i,
    {
        if !fits(word, flags, extend, i) {
            return false;
        }
        i += 1;
    }
    true
}

/// Whether `word` has the shape of a name, given which of its characters
/// are letters and which are letters or numbers.
pub fn has_variable_shape(
    word: &Vec<char>,
    letters: &Vec<bool>,
    alnums: &Vec<bool>,
    extend: &Vec<char>,
) -> (ok: bool)
    requires
        letters@.len() == word@.len(),
        alnums@.len() == word@.len(),
    ensures
        ok == variable_shape(word@, letters@, alnums@, extend@),
{
    if word.len() == 0 {
        return true;
    }
    if !fits(word, letters, extend, 0) {
        return false;
    }
    let mut i: usize = 1;
    while i < word.len()
        invariant
            1 <= i <= word@.len(),
            letters@.len() == word@.len(),
            alnums@.len() == word@.len(),
            forall|k: int| 1 <= k < i ==> #[trigger] fits_at(word@, alnums@, extend@, k),
        decreases word@.len() - i,
    {
        if !fits(word, alnums, extend, i) {
            return false;
        }
        i += 1;
    }
    true
}

/// Whether `word` has the shape of a number with a fraction, given which
/// of its characters are numbers.
pub fn has_float_shape(word: &Vec<char>, numbers: &Vec<bool>, extend: &Vec<char>) -> (ok: bool)
    requires
        numbers@.len() == word@.len(),
    ensures
        ok == float_shape(word@, numbers@, extend@),
{
    let mut is_frac = false;
    let mut i: usize = 0;
    while i < word.len()
        invariant
            i <= word@.len() == numbers@.len(),
            dots(word@, i as int) == if is_frac {
                1nat
            } else {
                0nat
            },
            forall|k: int|
                0 <= k < i ==> word@[k] == '.' || #[trigger] fits_at(word@, numbers@, extend@, k),
        decreases word@.len() - i,
    {
        if word[i] == '.' {
            if is_frac {
                proof {
                    assert(dots(word@, i + 1) == 2);
                    lemma_dots_grow(word@, i + 1, word@.len() as int);
                }
                return false;
            }
            is_frac = true;
        } else if !fits(word, numbers, extend, i) {
            return false;
        }
        i += 1;
    }
    is_frac
}

/// The number of dots does not shrink as more of the word is counted.
pub proof fn lemma_dots_grow(word: Seq<char>, a: int, b: int)
    requires
        0 <= a <= b <= word.len(),
    ensures
        dots(word, a) <= dots(word, b),
    decreases b - a,
{
    if a < b {
        lemma_dots_grow(word, a, b - 1);
    }
}

/// The characters of `word` without the minus sign that it starts with.
pub fn unsigned_chars(word: &str) -> (body: Vec<char>)
    ensures
        body@ == unsigned_part(word@),
{
    let chars = chars_of(word);
    let from: usize = if chars.len() > 0 && chars[0] == '-' {
        1
    } else {
        0
    };
    let mut body: Vec<char> = Vec::new();
    let mut i: usize = from;
    while i < chars.len()
        invariant
            from <= i <= chars@.len(),
            body@ == chars@.subrange(from as int, i as int),
        decreases chars@.len() - i,
    {
        body.push(chars[i]);
        proof {
            assert(chars@.subrange(from as int, i + 1) =~= chars@.subrange(
                from as int,
                i as int,
            ).push(chars@[i as int]));
        }
        i += 1;
    }
    proof {
        assert(chars@.subrange(from as int, chars@.len() as int) =~= unsigned_part(word@));
    }
    body
}

/// Whether `word` is a name.
pub fn is_variable(word: &str, extend: &Vec<char>) -> (fits: bool)
    ensures
        fits == is_variable_word(word@, extend@),
{
    let chars = chars_of(word);
    let letters = classify(CharClass::Alphabetic, &chars);
    let alnums = classify(CharClass::Alphanumeric, &chars);
    has_variable_shape(&chars, &letters, &alnums, extend)
}

/// Whether every character of `word` belongs to `class` or is one of
/// `extend`.
pub fn is_all_admitted(class: CharClass, word: &str, extend: &Vec<char>) -> (fits: bool)
    ensures
        fits == all_admitted(class, extend@, word@),
{
    let chars = chars_of(word);
    let flags = classify(class, &chars);
    has_all_fit(&chars, &flags, extend)
}

/// Whether `word` is an integer.
pub fn is_integer(word: &str, extend: &Vec<char>) -> (fits: bool)
    ensures
        fits == is_integer_word(word@, extend@),
{
    let body = unsigned_chars(word);
    let numbers = classify(CharClass::Numeric, &body);
    has_all_fit(&body, &numbers, extend)
}

/// Whether `word` is a number with a fraction.
pub fn is_float(word: &str, extend: &Vec<char>) -> (fits: bool)
    ensures
        fits == is_float_word(word@, extend@),
{
    let body = unsigned_chars(word);
    let numbers = classify(CharClass::Numeric, &body);
    has_float_shape(&body, &numbers, extend)
}

/// Concludes a match of the token under the cursor: moves on and returns
/// the word if it fits, fails quietly if not.
fn conclude<M: Metadata>(meta: &mut M, token: Token, fits: bool) -> (result: Result<String, Failure>)
    requires
        current_token(*old(meta)) == Some(token@),
        old(meta).cursor() < usize::MAX,
    ensures
        match result {
            Ok(word) => fits && word@ == token.word@ && advanced(*old(meta), *final(meta)),
            Err(failure) => !fits && failure@ == mismatch(*old(meta)) && *final(meta) == *old(meta),
        },
{
    if fits {
        meta.increment_index();
        Ok(token.word)
    } else {
        Err(Failure::Quiet(PositionInfo::from_token(meta, Some(token))))
    }
}

/// Matches a name: a word whose first character is a letter and whose
/// other characters are letters or numbers; each may also be one of
/// `extend`.
pub fn variable<M: Metadata>(meta: &mut M, extend: Vec<char>) -> (result: Result<String, Failure>)
    ensures
        match result {
            Ok(word) => {
                &&& current_token(*old(meta)) matches Some(token)
                &&& is_variable_word(token.word, extend@)
                &&& word@ == token.word
                &&& advanced(*old(meta), *final(meta))
            },
            Err(failure) => {
                &&& current_token(*old(meta)) matches Some(token) ==> !is_variable_word(
                    token.word,
                    extend@,
                )
                &&& failure@ == mismatch(*old(meta))
                &&& *final(meta) == *old(meta)
            },
        },
{
    match meta.get_current_token() {
        Some(token) => {
            let fits = is_variable(token.word.as_str(), &extend);
            conclude(meta, token, fits)
        },
        None => Err(Failure::Quiet(PositionInfo::at_eof(meta))),
    }
}

/// Matches the token under the cursor if all its characters belong to
/// `class` or are among `extend`.
pub fn word_of_class<M: Metadata>(meta: &mut M, class: CharClass, extend: &Vec<char>) -> (result:
    Result<String, Failure>)
    ensures
        match result {
            Ok(word) => {
                &&& current_token(*old(meta)) matches Some(token)
                &&& all_admitted(class, extend@, token.word)
                &&& word@ == token.word
                &&& advanced(*old(meta), *final(meta))
            },
            Err(failure) => {
                &&& current_token(*old(meta)) matches Some(token) ==> !all_admitted(
                    class,
                    extend@,
                    token.word,
                )
                &&& failure@ == mismatch(*old(meta))
                &&& *final(meta) == *old(meta)
            },
        },
{
    match meta.get_current_token() {
        Some(token) => {
            let fits = is_all_admitted(class, token.word.as_str(), extend);
            conclude(meta, token, fits)
        },
        None => Err(Failure::Quiet(PositionInfo::at_eof(meta))),
    }
}

/// Matches a word made of letters, or characters of `extend`.
pub fn alphabetic<M: Metadata>(meta: &mut M, extend: Vec<char>) -> (result: Result<String, Failure>)
    ensures
        match result {
            Ok(word) => {
                &&& current_token(*old(meta)) matches Some(token)
                &&& all_admitted(CharClass::Alphabetic, extend@, token.word)
                &&& word@ == token.word
                &&& advanced(*old(meta), *final(meta))
            },
            Err(failure) => {
                &&& current_token(*old(meta)) matches Some(token) ==> !all_admitted(
                    CharClass::Alphabetic,
                    extend@,
                    token.word,
                )
                &&& failure@ == mismatch(*old(meta))
                &&& *final(meta) == *old(meta)
            },
        },
{
    word_of_class(meta, CharClass::Alphabetic, &extend)
}

/// Matches a word made of letters and numbers, or characters of `extend`.
pub fn alphanumeric<M: Metadata>(meta: &mut M, extend: Vec<char>) -> (result: Result<
    String,
    Failure,
>)
    ensures
        match result {
            Ok(word) => {
                &&& current_token(*old(meta)) matches Some(token)
                &&& all_admitted(CharClass::Alphanumeric, extend@, token.word)
                &&& word@ == token.word
                &&& advanced(*old(meta), *final(meta))
            },
            Err(failure) => {
                &&& current_token(*old(meta)) matches Some(token) ==> !all_admitted(
                    CharClass::Alphanumeric,
                    extend@,
                    token.word,
                )
                &&& failure@ == mismatch(*old(meta))
                &&& *final(meta) == *old(meta)
            },
        },
{
    word_of_class(meta, CharClass::Alphanumeric, &extend)
}

/// Matches a word made of numbers, or characters of `extend`.
pub fn numeric<M: Metadata>(meta: &mut M, extend: Vec<char>) -> (result: Result<String, Failure>)
    ensures
        match result {
            Ok(word) => {
                &&& current_token(*old(meta)) matches Some(token)
                &&& all_admitted(CharClass::Numeric, extend@, token.word)
                &&& word@ == token.word
                &&& advanced(*old(meta), *final(meta))
            },
            Err(failure) => {
                &&& current_token(*old(meta)) matches Some(token) ==> !all_admitted(
                    CharClass::Numeric,
                    extend@,
                    token.word,
                )
                &&& failure@ == mismatch(*old(meta))
                &&& *final(meta) == *old(meta)
            },
        },
{
    word_of_class(meta, CharClass::Numeric, &extend)
}

/// Matches an integer, negative or not.
pub fn integer<M: Metadata>(meta: &mut M, extend: Vec<char>) -> (result: Result<String, Failure>)
    ensures
        match result {
            Ok(word) => {
                &&& current_token(*old(meta)) matches Some(token)
                &&& is_integer_word(token.word, extend@)
                &&& word@ == token.word
                &&& advanced(*old(meta), *final(meta))
            },
            Err(failure) => {
                &&& current_token(*old(meta)) matches Some(token) ==> !is_integer_word(
                    token.word,
                    extend@,
                )
                &&& failure@ == mismatch(*old(meta))
                &&& *final(meta) == *old(meta)
            },
        },
{
    match meta.get_current_token() {
        Some(token) => {
            let fits = is_integer(token.word.as_str(), &extend);
            conclude(meta, token, fits)
        },
        None => Err(Failure::Quiet(PositionInfo::at_eof(meta))),
    }
}

/// Matches a number with a fraction, negative or not.
pub fn float<M: Metadata>(meta: &mut M, extend: Vec<char>) -> (result: Result<String, Failure>)
    ensures
        match result {
            Ok(word) => {
                &&& current_token(*old(meta)) matches Some(token)
                &&& is_float_word(token.word, extend@)
                &&& word@ == token.word
                &&& advanced(*old(meta), *final(meta))
            },
            Err(failure) => {
                &&& current_token(*old(meta)) matches Some(token) ==> !is_float_word(
                    token.word,
                    extend@,
                )
                &&& failure@ == mismatch(*old(meta))
                &&& *final(meta) == *old(meta)
            },
        },
{
    match meta.get_current_token() {
        Some(token) => {
            let fits = is_float(token.word.as_str(), &extend);
            conclude(meta, token, fits)
        },
        None => Err(Failure::Quiet(PositionInfo::at_eof(meta))),
    }
}

/// Matches a number: an integer or a number with a fraction.
pub fn number<M: Metadata>(meta: &mut M, extend: Vec<char>) -> (result: Result<String, Failure>)
    ensures
        match result {
            Ok(word) => {
                &&& current_token(*old(meta)) matches Some(token)
                &&& is_number_word(token.word, extend@)
                &&& word@ == token.word
                &&& advanced(*old(meta), *final(meta))
            },
            Err(failure) => {
                &&& current_token(*old(meta)) matches Some(token) ==> !is_number_word(
                    token.word,
                    extend@,
                )
                &&& failure@ == mismatch(*old(meta))
                &&& *final(meta) == *old(meta)
            },
        },
{
    match meta.get_current_token() {
        Some(token) => {
            let fits = is_integer(token.word.as_str(), &extend) || is_float(
                token.word.as_str(),
                &extend,
            );
            conclude(meta, token, fits)
        },
        None => Err(Failure::Quiet(PositionInfo::at_eof(meta))),
    }
}

} // verus!
