//! Character-level helpers over `&str`, with their meaning stated on the
//! string's view as a sequence of Unicode scalar values.

use vstd::prelude::*;
use vstd::std_specs::iter::IteratorSpec;
use vstd::string::StrSliceExecFns;

verus! {

broadcast use {vstd::string::axiom_spec_iter, vstd::string::next_postcondition};

/// Whether `c` has the Unicode `White_Space` property, as `char::is_whitespace` decides.
pub uninterp spec fn whitespace(c: char) -> bool;

/// Whether `c` has the Unicode `Alphabetic` property, as `char::is_alphabetic` decides.
pub uninterp spec fn alphabetic(c: char) -> bool;

/// The full Unicode lowercase mapping of a string, as `str::to_lowercase` computes it.
pub uninterp spec fn lowercase_of(s: Seq<char>) -> Seq<char>;

/// `s` with its leading whitespace removed.
pub open spec fn trim_start(s: Seq<char>) -> Seq<char>
    decreases s.len(),
{
    if s.len() > 0 && whitespace(s[0]) {
        trim_start(s.drop_first())
    } else {
        s
    }
}

/// `s` with its trailing whitespace removed.
pub open spec fn trim_end(s: Seq<char>) -> Seq<char>
    decreases s.len(),
{
    if s.len() > 0 && whitespace(s.last()) {
        trim_end(s.drop_last())
    } else {
        s
    }
}

/// `s` with leading and trailing whitespace removed.
pub open spec fn trimmed(s: Seq<char>) -> Seq<char> {
    trim_end(trim_start(s))
}

/// `p` occurs in `s` starting at position `i`.
pub open spec fn occurs_at(s: Seq<char>, p: Seq<char>, i: int) -> bool {
    0 <= i && i + p.len() <= s.len() && s.subrange(i, i + p.len()) == p
}

/// `p` occurs somewhere in `s`.
pub open spec fn contains_phrase(s: Seq<char>, p: Seq<char>) -> bool {
    exists|i: int| occurs_at(s, p, i)
}

/// `i` is the first position at which `p` occurs in `s`.
pub open spec fn first_occurrence(s: Seq<char>, p: Seq<char>, i: int) -> bool {
    occurs_at(s, p, i) && forall|j: int| 0 <= j < i ==> !occurs_at(s, p, j)
}

/// What follows the first occurrence of `p` in `s`, if `p` occurs.
pub open spec fn after_phrase(s: Seq<char>, p: Seq<char>) -> Option<Seq<char>> {
    if contains_phrase(s, p) {
        let i = choose|i: int| first_occurrence(s, p, i);
        Some(s.subrange(i + p.len(), s.len() as int))
    } else {
        None
    }
}

/// The ASCII digit characters `0` to `9`.
pub open spec fn is_digit(c: char) -> bool {
    '0' <= c && c <= '9'
}

/// The number written by a sequence of decimal digits.
pub open spec fn digits_value(s: Seq<char>) -> nat
    decreases s.len(),
{
    if s.len() == 0 {
        0
    } else {
        digits_value(s.drop_last()) * 10 + (s.last() as nat - '0' as nat) as nat
    }
}

/// The unsigned integer that `s` writes in decimal: an optional `+` followed by
/// one or more ASCII digits, with a value that fits in `usize`.
pub open spec fn parsed_usize(s: Seq<char>) -> Option<usize> {
    let d = if s.len() > 0 && s[0] == '+' {
        s.drop_first()
    } else {
        s
    };
    if d.len() > 0 && (forall|i: int| 0 <= i < d.len() ==> is_digit(#[trigger] d[i]))
        && digits_value(d) <= usize::MAX {
        Some(digits_value(d) as usize)
    } else {
        None
    }
}

/// The longest prefix of `s` that holds no whitespace.
pub open spec fn leading_token(s: Seq<char>) -> Seq<char>
    decreases s.len(),
{
    if s.len() > 0 && !whitespace(s[0]) {
        seq![s[0]].add(leading_token(s.drop_first()))
    } else {
        Seq::empty()
    }
}

/// The first maximal run of non-whitespace characters in `s`, if there is one.
pub open spec fn first_token(s: Seq<char>) -> Option<Seq<char>> {
    let t = trim_start(s);
    if t.len() == 0 {
        None
    } else {
        Some(leading_token(t))
    }
}

/// Relies on `char::is_whitespace`: the Unicode `White_Space` property of `c`.
#[verifier::external_body]
pub(crate) fn is_whitespace(c: char) -> (r: bool)
    ensures
        r == whitespace(c),
{
    c.is_whitespace()
}

/// Relies on `char::is_alphabetic`: the Unicode `Alphabetic` property of `c`.
#[verifier::external_body]
pub(crate) fn is_alphabetic(c: char) -> (r: bool)
    ensures
        r == alphabetic(c),
{
    c.is_alphabetic()
}

/// Relies on `str::to_lowercase`: the result depends on the characters alone,
/// and an empty string stays empty.
#[verifier::external_body]
pub(crate) fn to_lowercase(s: &str) -> (r: String)
    ensures
        r@ == lowercase_of(s@),
        s@.len() == 0 ==> r@.len() == 0,
{
    s.to_lowercase()
}

/// Relies on `str::trim`: leading and trailing characters with the Unicode
/// `White_Space` property are removed.
#[verifier::external_body]
pub(crate) fn trim(s: &str) -> (r: &str)
    ensures
        r@ == trimmed(s@),
{
    s.trim()
}

/// Relies on `str::split_once`: the text before and after the first occurrence of `p`.
#[verifier::external_body]
fn split_once<'a>(s: &'a str, p: &str) -> (r: Option<(&'a str, &'a str)>)
    ensures
        match r {
            Some((a, b)) => exists|i: int|
                first_occurrence(s@, p@, i) && a@ == s@.subrange(0, i) && b@ == s@.subrange(
                    i + p@.len(),
                    s@.len() as int,
                ),
            None => !contains_phrase(s@, p@),
        },
{
    s.split_once(p)
}

/// Relies on `<usize as FromStr>::from_str`: an optional `+` and decimal digits
/// whose value fits, and nothing else, parse.
#[verifier::external_body]
pub(crate) fn parse_usize(s: &str) -> (r: Option<usize>)
    ensures
        r == parsed_usize(s@),
{
    s.parse::<usize>().ok()
}

proof fn lemma_trim_start_head(s: Seq<char>)
    ensures
        trim_start(s).len() > 0 ==> !whitespace(trim_start(s)[0]),
    decreases s.len(),
{
    if s.len() > 0 && whitespace(s[0]) {
        lemma_trim_start_head(s.drop_first());
    }
}

proof fn lemma_trim_end_shape(s: Seq<char>)
    ensures
        trim_end(s).len() <= s.len(),
        trim_end(s) == s.subrange(0, trim_end(s).len() as int),
        trim_end(s).len() > 0 ==> !whitespace(trim_end(s).last()),
    decreases s.len(),
{
    if s.len() > 0 && whitespace(s.last()) {
        lemma_trim_end_shape(s.drop_last());
        assert(s.drop_last().subrange(0, trim_end(s).len() as int) =~= s.subrange(
            0,
            trim_end(s).len() as int,
        ));
    } else {
        assert(s.subrange(0, s.len() as int) =~= s);
    }
}

/// Trimming twice is trimming once.
pub proof fn lemma_trimmed_idempotent(s: Seq<char>)
    ensures
        trimmed(trimmed(s)) == trimmed(s),
{
    let a = trim_start(s);
    let t = trim_end(a);
    lemma_trim_start_head(s);
    lemma_trim_end_shape(a);
    if t.len() > 0 {
        assert(t[0] == a[0]);
    }
    assert(trim_start(t) == t);
}

/// The first occurrence of a pattern is unique.
proof fn lemma_first_occurrence_unique(s: Seq<char>, p: Seq<char>, i: int, j: int)
    requires
        first_occurrence(s, p, i),
        first_occurrence(s, p, j),
    ensures
        i == j,
{
}

/// The text that follows the first occurrence of `p` in `s`, if `p` occurs.
pub fn text_after<'a>(s: &'a str, p: &str) -> (r: Option<&'a str>)
    ensures
        r matches Some(t) ==> after_phrase(s@, p@) == Some(t@),
        r is None ==> after_phrase(s@, p@) is None,
{
    match split_once(s, p) {
        Some((_, b)) => {
            proof {
                let i = choose|i: int|
                    first_occurrence(s@, p@, i) && b@ == s@.subrange(
                        i + p@.len(),
                        s@.len() as int,
                    );
                let k = choose|k: int| first_occurrence(s@, p@, k);
                lemma_first_occurrence_unique(s@, p@, i, k);
            }
            Some(b)
        },
        None => None,
    }
}

/// Whether `p` occurs in `s`.
pub fn has_phrase(s: &str, p: &str) -> (r: bool)
    ensures
        r == contains_phrase(s@, p@),
{
    split_once(s, p).is_some()
}

/// The characters of `s`, in order.
pub fn chars_of(s: &str) -> (r: Vec<char>)
    ensures
        r@ == s@,
{
    let mut it = s.chars();
    let mut out: Vec<char> = Vec::new();
    loop
        invariant
            out@ + it.remaining() == s@,
            it.decrease() is Some,
        decreases it.decrease()->0,
    {
        let ghost before = it.remaining();
        match it.next() {
            Some(c) => {
                out.push(c);
                assert(out@ + it.remaining() =~= s@) by {
                    assert(before =~= seq![c] + it.remaining());
                }
            },
            None => {
                assert(out@ =~= s@);
                return out;
            },
        }
    }
}

/// The first maximal run of non-whitespace characters in `s`, if there is one.
pub fn first_word<'a>(s: &'a str) -> (r: Option<&'a str>)
    ensures
        match r {
            Some(w) => first_token(s@) == Some(w@),
            None => first_token(s@) is None,
        },
{
    let cs = chars_of(s);
    let n = cs.len();
    let mut i: usize = 0;
    assert(s@.subrange(0, n as int) =~= s@);
    while i < n && is_whitespace(cs[i])
        invariant
            cs@ == s@,
            n == cs@.len(),
            i <= n,
            trim_start(s@) == trim_start(s@.subrange(i as int, n as int)),
        decreases n - i,
    {
        assert(s@.subrange(i as int, n as int).drop_first() =~= s@.subrange(i + 1, n as int));
        i = i + 1;
    }
    let ghost t = s@.subrange(i as int, n as int);
    assert(trim_start(t) == t);
    if i == n {
        return None;
    }
    let start = i;
    let mut w: Vec<char> = Vec::new();
    while i < n && !is_whitespace(cs[i])
        invariant
            cs@ == s@,
            n == cs@.len(),
            start <= i <= n,
            w@ + leading_token(s@.subrange(i as int, n as int)) == leading_token(t),
            w@ == s@.subrange(start as int, i as int),
        decreases n - i,
    {
        let ghost rest = s@.subrange(i as int, n as int);
        assert(rest.drop_first() =~= s@.subrange(i + 1, n as int));
        w.push(cs[i]);
        assert(w@ =~= s@.subrange(start as int, i + 1));
        assert(w@ + leading_token(s@.subrange(i + 1, n as int)) =~= leading_token(t)) by {
            assert(leading_token(rest) == seq![rest[0]].add(leading_token(rest.drop_first())));
        }
        i = i + 1;
    }
    assert(leading_token(s@.subrange(i as int, n as int)) =~= Seq::<char>::empty());
    assert(w@ =~= leading_token(t));
    let word = s.substring_char(start, i);
    assert(word@ =~= w@);
    Some(word)
}

} // verus!
