//! Translation of a short free-text query into filters, by a fixed set of
//! phrase rules.

use vstd::prelude::*;
use crate::filter::{Filters, QueryError};
use crate::text::{
    after_phrase, alphabetic, contains_phrase, first_token, first_word, has_phrase, is_alphabetic,
    lowercase_of, parse_usize, parsed_usize, text_after, to_lowercase, trim, trimmed,
};
use vstd::string::StrSliceExecFns;

verus! {

/// The text the rules read: trimmed, then lowercased.
pub open spec fn normalized(text: Seq<char>) -> Seq<char> {
    lowercase_of(trimmed(text))
}

/// Palindrome-ness asked for: the negated phrase first, then either positive one.
pub open spec fn palindrome_rule(q: Seq<char>) -> Option<bool> {
    if contains_phrase(q, "non-palindromic"@) {
        Some(false)
    } else if contains_phrase(q, "palindromic"@) || contains_phrase(q, "palindrome"@) {
        Some(true)
    } else {
        None
    }
}

/// A single-word constraint.
pub open spec fn word_rule(q: Seq<char>) -> Option<usize> {
    if contains_phrase(q, "single word"@) {
        Some(1)
    } else {
        None
    }
}

/// "longer than N": a minimum length of N + 1, where N is the first token after
/// the phrase and parses as an unsigned integer below the largest `usize`.
pub open spec fn length_rule(q: Seq<char>) -> Option<usize> {
    match after_phrase(q, "longer than"@) {
        Some(rest) => match first_token(rest) {
            Some(t) => match parsed_usize(t) {
                Some(n) => if n < usize::MAX {
                    Some((n + 1) as usize)
                } else {
                    None
                },
                None => None,
            },
            None => None,
        },
        None => None,
    }
}

/// "containing the letter X": the first character after the phrase, once
/// trimmed, when it is alphabetic.
pub open spec fn letter_rule(q: Seq<char>) -> Option<char> {
    match after_phrase(q, "containing the letter"@) {
        Some(rest) => {
            let t = trimmed(rest);
            if t.len() > 0 && alphabetic(t[0]) {
                Some(t[0])
            } else {
                None
            }
        },
        None => None,
    }
}

/// The character asked for; "contain the first vowel" stands for `a` and wins.
pub open spec fn character_rule(q: Seq<char>) -> Option<char> {
    if contains_phrase(q, "contain the first vowel"@) {
        Some('a')
    } else {
        letter_rule(q)
    }
}

/// The filters that the rules derive from normalized text `q`.
pub open spec fn rule_filters(q: Seq<char>) -> Filters {
    Filters {
        is_palindrome: palindrome_rule(q),
        min_length: length_rule(q),
        max_length: None,
        word_count: word_rule(q),
        contains_character: character_rule(q),
    }
}

/// Both palindromic and non-palindromic phrases occur.
pub open spec fn conflicting(q: Seq<char>) -> bool {
    contains_phrase(q, "non-palindromic"@) && contains_phrase(q, "palindromic"@)
}

/// No filter is set.
pub open spec fn is_empty_filter(f: Filters) -> bool {
    f.is_palindrome is None && f.min_length is None && f.max_length is None
        && f.word_count is None && f.contains_character is None
}

/// What a free-text query means: its filters, or why there are none.
pub open spec fn interpreted(text: Seq<char>) -> Result<Filters, QueryError> {
    let q = normalized(text);
    if q.len() == 0 {
        Err(QueryError::Unparseable)
    } else if conflicting(q) {
        Err(QueryError::Conflicting)
    } else if is_empty_filter(rule_filters(q)) {
        Err(QueryError::Unparseable)
    } else {
        Ok(rule_filters(q))
    }
}

/// A query's normalized text and the filters derived from it.
pub struct Interpretation {
    pub original: String,
    pub filters: Filters,
}

/// The minimum length asked for by "longer than N" in `q`.
fn length_from(q: &str) -> (r: Option<usize>)
    ensures
        r == length_rule(q@),
{
    let rest = match text_after(q, "longer than") {
        Some(rest) => rest,
        None => return None,
    };
    let word = match first_word(rest) {
        Some(w) => w,
        None => return None,
    };
    match parse_usize(word) {
        Some(n) => if n < usize::MAX {
            Some(n + 1)
        } else {
            None
        },
        None => None,
    }
}

/// The letter asked for by "containing the letter X" in `q`.
fn letter_from(q: &str) -> (r: Option<char>)
    ensures
        r == letter_rule(q@),
{
    let rest = match text_after(q, "containing the letter") {
        Some(rest) => rest,
        None => return None,
    };
    let t = trim(rest);
    if t.unicode_len() == 0 {
        return None;
    }
    let c = t.get_char(0);
    if is_alphabetic(c) {
        Some(c)
    } else {
        None
    }
}

/// Translates a free-text query into filters. The text is trimmed and
/// lowercased; empty text is `Unparseable`; text with both the palindromic and
/// the non-palindromic phrase is `Conflicting`; text in which no rule applies
/// is `Unparseable`.
pub fn interpret(text: &str) -> (r: Result<Interpretation, QueryError>)
    ensures
        match r {
            Ok(i) => i.original@ == normalized(text@) && interpreted(text@) == Ok::<
                Filters,
                QueryError,
            >(i.filters),
            Err(e) => interpreted(text@) == Err::<Filters, QueryError>(e),
        },
{
    let q = to_lowercase(trim(text));
    let qs = q.as_str();
    if qs.unicode_len() == 0 {
        return Err(QueryError::Unparseable);
    }
    let mut filters = Filters::none();
    if has_phrase(qs, "non-palindromic") {
        filters.is_palindrome = Some(false);
    } else if has_phrase(qs, "palindromic") || has_phrase(qs, "palindrome") {
        filters.is_palindrome = Some(true);
    }
    if has_phrase(qs, "single word") {
        filters.word_count = Some(1);
    }
    filters.min_length = length_from(qs);
    filters.contains_character = letter_from(qs);
    if has_phrase(qs, "contain the first vowel") {
        filters.contains_character = Some('a');
    }
    if has_phrase(qs, "non-palindromic") && has_phrase(qs, "palindromic") {
        return Err(QueryError::Conflicting);
    }
    if filters.is_palindrome.is_none() && filters.word_count.is_none()
        && filters.min_length.is_none() && filters.contains_character.is_none() {
        return Err(QueryError::Unparseable);
    }
    assert(filters == rule_filters(q@));
    Ok(Interpretation { original: q, filters })
}

} // verus!
