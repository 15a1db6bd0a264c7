//! The analyzer: structural properties of a string and its content hash.

use vstd::prelude::*;
use vstd::utf8::encode_utf8;
use crate::text::{chars_of, is_whitespace, lowercase_of, to_lowercase, whitespace};

verus! {

/// The SHA-256 digest of a byte sequence, as `sha2::Sha256` computes it.
pub uninterp spec fn sha256_of(b: Seq<u8>) -> Seq<u8>;

/// The lowercase hexadecimal digit for a value below sixteen.
pub open spec fn hex_digit(n: u8) -> char {
    if n < 10 {
        (n + 48) as u8 as char
    } else {
        (n + 87) as u8 as char
    }
}

/// Lowercase hexadecimal text of `b`: two digits per byte, high half first.
pub open spec fn hex_of(b: Seq<u8>) -> Seq<char> {
    Seq::new(
        2 * b.len(),
        |i: int|
            if i % 2 == 0 {
                hex_digit(b[i / 2] / 16)
            } else {
                hex_digit(b[i / 2] % 16)
            },
    )
}

/// The content identifier of a string: the lowercase hexadecimal SHA-256 digest
/// of its UTF-8 encoding.
pub open spec fn content_id(s: Seq<char>) -> Seq<char> {
    hex_of(sha256_of(encode_utf8(s)))
}

/// Case-insensitive palindrome: the lowercased text reads the same reversed.
pub open spec fn palindrome(s: Seq<char>) -> bool {
    lowercase_of(s) == lowercase_of(s).reverse()
}

/// Equality with `c`, as a predicate.
pub open spec fn is_char(c: char) -> spec_fn(char) -> bool {
    |x: char| x == c
}

/// How many times `c` occurs in `s`.
pub open spec fn char_count(s: Seq<char>, c: char) -> nat {
    s.filter(is_char(c)).len()
}

/// A word begins at position `i`: a non-whitespace character that is first or
/// follows whitespace.
pub open spec fn starts_word(s: Seq<char>, i: int) -> bool {
    !whitespace(s[i]) && (i == 0 || whitespace(s[i - 1]))
}

/// The number of maximal whitespace-delimited non-empty tokens in `s`.
pub open spec fn words_in(s: Seq<char>) -> nat
    decreases s.len(),
{
    if s.len() == 0 {
        0
    } else {
        words_in(s.drop_last()) + if starts_word(s, s.len() - 1) {
            1nat
        } else {
            0nat
        }
    }
}

/// `f` maps each distinct character of `s`, once, to the number of its occurrences.
pub open spec fn frequency_of(f: Seq<(char, usize)>, s: Seq<char>) -> bool {
    &&& forall|a: int, b: int| 0 <= a < b < f.len() ==> f[a].0 != f[b].0
    &&& forall|k: int| 0 <= k < f.len() ==> f[k].1 == char_count(s, #[trigger] f[k].0)
    &&& forall|c: char| s.contains(c) <==> exists|k: int| 0 <= k < f.len() && #[trigger] f[k].0 == c
}

/// The structural properties of a string.
pub struct Properties {
    pub length: usize,
    pub is_palindrome: bool,
    pub unique_characters: usize,
    pub word_count: usize,
    pub sha256_hash: String,
    pub character_frequency_map: Vec<(char, usize)>,
}

/// The properties of a string, as mathematical values.
pub struct PropertiesView {
    pub length: nat,
    pub is_palindrome: bool,
    pub unique_characters: nat,
    pub word_count: nat,
    pub sha256_hash: Seq<char>,
    pub character_frequency_map: Seq<(char, usize)>,
}

impl View for Properties {
    type V = PropertiesView;

    open spec fn view(&self) -> PropertiesView {
        PropertiesView {
            length: self.length as nat,
            is_palindrome: self.is_palindrome,
            unique_characters: self.unique_characters as nat,
            word_count: self.word_count as nat,
            sha256_hash: self.sha256_hash@,
            character_frequency_map: self.character_frequency_map@,
        }
    }
}

impl PropertiesView {
    /// These are the properties of the string `s`.
    pub open spec fn describes(&self, s: Seq<char>) -> bool {
        &&& self.length == s.len()
        &&& self.is_palindrome == palindrome(s)
        &&& self.unique_characters == s.to_set().len()
        &&& self.word_count == words_in(s)
        &&& self.sha256_hash == content_id(s)
        &&& frequency_of(self.character_frequency_map, s)
    }
}

impl Properties {
    /// A copy with the same contents.
    pub fn copy(&self) -> (r: Properties)
        ensures
            r@ == self@,
    {
        let mut f: Vec<(char, usize)> = Vec::new();
        let n = self.character_frequency_map.len();
        let mut i: usize = 0;
        while i < n
            invariant
                n == self.character_frequency_map@.len(),
                i <= n,
                f@ == self.character_frequency_map@.subrange(0, i as int),
            decreases n - i,
        {
            f.push(self.character_frequency_map[i]);
            assert(f@ =~= self.character_frequency_map@.subrange(0, i + 1));
            i = i + 1;
        }
        assert(f@ =~= self.character_frequency_map@);
        Properties {
            length: self.length,
            is_palindrome: self.is_palindrome,
            unique_characters: self.unique_characters,
            word_count: self.word_count,
            sha256_hash: self.sha256_hash.clone(),
            character_frequency_map: f,
        }
    }
}

/// Relies on `sha2::Sha256::digest`: the 32-byte SHA-256 digest of `b`.
#[verifier::external_body]
fn sha256_digest(b: &[u8]) -> (r: Vec<u8>)
    ensures
        r@ == sha256_of(b@),
        r@.len() == 32,
{
    <sha2::Sha256 as sha2::Digest>::digest(b).to_vec()
}

/// Relies on `hex::encode`: two lowercase hexadecimal digits per byte, high half first.
#[verifier::external_body]
fn hex_encode(b: &[u8]) -> (r: String)
    ensures
        r@ == hex_of(b@),
{
    hex::encode(b)
}

/// The content identifier of `s`: the lowercase hexadecimal SHA-256 digest of its bytes.
pub fn content_hash(s: &str) -> (r: String)
    ensures
        r@ == content_id(s@),
{
    let d = sha256_digest(s.as_bytes());
    hex_encode(d.as_slice())
}

/// Whether the lowercased text of `s` reads the same reversed.
fn is_palindrome(s: &str) -> (r: bool)
    ensures
        r == palindrome(s@),
{
    let lower = to_lowercase(s);
    let cs = chars_of(lower.as_str());
    let n = cs.len();
    let mut i: usize = 0;
    while i < n
        invariant
            cs@ == lowercase_of(s@),
            n == cs@.len(),
            i <= n,
            forall|j: int| 0 <= j < i ==> #[trigger] cs@[j] == cs@[n - 1 - j],
        decreases n - i,
    {
        if cs[i] != cs[n - 1 - i] {
            assert(cs@.reverse()[i as int] == cs@[n - 1 - i]);
            return false;
        }
        i = i + 1;
    }
    assert(cs@ =~= cs@.reverse());
    true
}

/// The number of whitespace-delimited words in `cs`.
fn count_words(cs: &Vec<char>) -> (r: usize)
    ensures
        r == words_in(cs@),
{
    let n = cs.len();
    let mut count: usize = 0;
    let mut i: usize = 0;
    while i < n
        invariant
            n == cs@.len(),
            i <= n,
            count <= i,
            count == words_in(cs@.subrange(0, i as int)),
        decreases n - i,
    {
        let ghost pre = cs@.subrange(0, i + 1);
        assert(pre.drop_last() =~= cs@.subrange(0, i as int));
        let starts = !is_whitespace(cs[i]) && (i == 0 || is_whitespace(cs[i - 1]));
        assert(starts == starts_word(pre, i as int));
        if starts {
            count = count + 1;
        }
        i = i + 1;
    }
    assert(cs@.subrange(0, n as int) =~= cs@);
    count
}

/// The position in `f` whose character is `c`, if there is one.
pub(crate) fn find_char(f: &Vec<(char, usize)>, c: char) -> (r: Option<usize>)
    ensures
        match r {
            Some(k) => k < f@.len() && f@[k as int].0 == c,
            None => forall|k: int| 0 <= k < f@.len() ==> f@[k].0 != c,
        },
{
    let mut k: usize = 0;
    while k < f.len()
        invariant
            k <= f@.len(),
            forall|j: int| 0 <= j < k ==> f@[j].0 != c,
        decreases f@.len() - k,
    {
        if f[k].0 == c {
            return Some(k);
        }
        k = k + 1;
    }
    None
}

/// How often each distinct character occurs in `cs`.
fn count_chars(cs: &Vec<char>) -> (r: Vec<(char, usize)>)
    ensures
        frequency_of(r@, cs@),
{
    let n = cs.len();
    let mut f: Vec<(char, usize)> = Vec::new();
    let mut i: usize = 0;
    while i < n
        invariant
            n == cs@.len(),
            i <= n,
            frequency_of(f@, cs@.subrange(0, i as int)),
            forall|k: int| 0 <= k < f@.len() ==> #[trigger] f@[k].1 <= i,
        decreases n - i,
    {
        let c = cs[i];
        let ghost pre = cs@.subrange(0, i as int);
        let ghost post = cs@.subrange(0, i + 1);
        assert(post =~= pre.push(c));
        assert forall|x: char| char_count(post, x) == char_count(pre, x) + if x == c {
            1nat
        } else {
            0nat
        } by {
            pre.lemma_filter_push(c, is_char(x));
        }
        assert forall|x: char| char_count(pre, x) <= pre.len() by {
            pre.lemma_filter_len(is_char(x));
        }
        let ghost old_f = f@;
        let ghost mut hit: int = -1;
        match find_char(&f, c) {
            Some(k) => {
                let m = f[k].1;
                f.set(k, (c, m + 1));
                proof {
                    let kk = k as int;
                    hit = kk;
                    assert(f@.len() == old_f.len());
                    assert(old_f[kk].0 == c);
                }
            },
            None => {
                assert(!pre.contains(c));
                assert(char_count(pre, c) == 0) by {
                    if char_count(pre, c) > 0 {
                        let fl = pre.filter(is_char(c));
                        assert(fl.contains(fl[0]));
                        pre.lemma_filter_contains_rev(is_char(c), fl[0]);
                    }
                }
                f.push((c, 1));
            },
        }
        assert forall|k: int| 0 <= k < old_f.len() implies #[trigger] f@[k].0 == old_f[k].0 by {}
        assert forall|x: char| post.contains(x) <==> exists|k: int|
            0 <= k < f@.len() && #[trigger] f@[k].0 == x by {
            if x == c {
                assert(post[i as int] == c);
                if hit >= 0 {
                    assert(f@[hit].0 == c);
                } else {
                    assert(f@[old_f.len() as int].0 == c);
                }
            } else {
                if post.contains(x) {
                    let j = choose|j: int| 0 <= j < post.len() && post[j] == x;
                    assert(pre[j] == x);
                    assert(pre.contains(x));
                    let k = choose|k: int| 0 <= k < old_f.len() && #[trigger] old_f[k].0 == x;
                    assert(f@[k].0 == x);
                }
                if exists|k: int| 0 <= k < f@.len() && #[trigger] f@[k].0 == x {
                    let k = choose|k: int| 0 <= k < f@.len() && #[trigger] f@[k].0 == x;
                    assert(old_f[k].0 == x);
                    assert(pre.contains(x));
                    let j = choose|j: int| 0 <= j < pre.len() && pre[j] == x;
                    assert(post[j] == x);
                }
            }
        }
        i = i + 1;
    }
    assert(cs@.subrange(0, n as int) =~= cs@);
    f
}

/// A frequency table's character count is the number of distinct characters.
proof fn lemma_frequency_len(f: Seq<(char, usize)>, s: Seq<char>)
    requires
        frequency_of(f, s),
    ensures
        f.len() == s.to_set().len(),
{
    let keys = f.map_values(|p: (char, usize)| p.0);
    assert(keys.no_duplicates()) by {
        assert forall|a: int, b: int| 0 <= a < keys.len() && 0 <= b < keys.len() && a != b
            implies keys[a] != keys[b] by {
            if a < b {
                assert(f[a].0 != f[b].0);
            } else {
                assert(f[b].0 != f[a].0);
            }
        }
    }
    assert(keys.to_set() =~= s.to_set()) by {
        assert forall|c: char| keys.contains(c) <==> s.contains(c) by {
            if s.contains(c) {
                let k = choose|k: int| 0 <= k < f.len() && #[trigger] f[k].0 == c;
                assert(keys[k] == c);
            }
            if keys.contains(c) {
                let k = choose|k: int| 0 <= k < keys.len() && keys[k] == c;
                assert(f[k].0 == c);
            }
        }
    }
    keys.unique_seq_to_set();
}

/// The structural properties of `value`.
pub fn analyze_string(value: &str) -> (r: Properties)
    ensures
        r@.describes(value@),
{
    let cs = chars_of(value);
    let length = cs.len();
    let is_palindrome = is_palindrome(value);
    let word_count = count_words(&cs);
    let sha256_hash = content_hash(value);
    let freq = count_chars(&cs);
    proof {
        lemma_frequency_len(freq@, cs@);
    }
    Properties {
        length,
        is_palindrome,
        unique_characters: freq.len(),
        word_count,
        sha256_hash,
        character_frequency_map: freq,
    }
}

} // verus!
