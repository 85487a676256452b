//! Text statistics derived from a document's content.

use vstd::prelude::*;

verus! {

/// Longest excerpt kept beside a document, in Unicode scalar values.
pub const EXCERPT_CHARS: usize = 200;

/// The characters that separate words: those with the Unicode `White_Space` property.
pub open spec fn is_whitespace(c: char) -> bool {
    let n = c as u32;
    ||| 0x09 <= n <= 0x0d
    ||| n == 0x20
    ||| n == 0x85
    ||| n == 0xa0
    ||| n == 0x1680
    ||| 0x2000 <= n <= 0x200a
    ||| n == 0x2028
    ||| n == 0x2029
    ||| n == 0x202f
    ||| n == 0x205f
    ||| n == 0x3000
}

/// A word starts at `i` when `s[i]` is not whitespace and is not preceded by a
/// character of the same word.
pub open spec fn word_starts_at(s: Seq<char>, i: int) -> bool {
    &&& 0 <= i < s.len()
    &&& !is_whitespace(s[i])
    &&& (i == 0 || is_whitespace(s[i - 1]))
}

/// Number of words that start among the first `n` characters of `s`.
pub open spec fn words_before(s: Seq<char>, n: int) -> nat
    decreases n,
{
    if n <= 0 {
        0
    } else {
        words_before(s, n - 1) + if word_starts_at(s, n - 1) { 1nat } else { 0nat }
    }
}

/// Number of maximal runs of non-whitespace characters in `s`.
pub open spec fn word_count(s: Seq<char>) -> nat {
    words_before(s, s.len() as int)
}

/// The excerpt of a content: nothing for an empty content, else its first
/// `EXCERPT_CHARS` characters (all of them when it has fewer).
pub open spec fn excerpt_of(s: Seq<char>) -> Option<Seq<char>> {
    if s.len() == 0 {
        None
    } else if s.len() > EXCERPT_CHARS {
        Some(s.take(EXCERPT_CHARS as int))
    } else {
        Some(s)
    }
}

/// True when `s` holds no character other than whitespace.
pub open spec fn is_blank_seq(s: Seq<char>) -> bool {
    forall|i: int| 0 <= i < s.len() ==> is_whitespace(#[trigger] s[i])
}

/// Tells whether `c` separates words.
pub fn char_is_whitespace(c: char) -> (r: bool)
    ensures
        r == is_whitespace(c),
{
    let n: u32 = c as u32;
    (0x09 <= n && n <= 0x0d) || n == 0x20 || n == 0x85 || n == 0xa0 || n == 0x1680 || (0x2000 <= n
        && n <= 0x200a) || n == 0x2028 || n == 0x2029 || n == 0x202f || n == 0x205f || n == 0x3000
}

/// Counts the words of `text`: the maximal runs of non-whitespace characters.
pub fn count_words(text: &str) -> (n: usize)
    ensures
        n == word_count(text@),
{
    let total: usize = text.unicode_len();
    let mut n: usize = 0;
    let mut in_word: bool = false;
    for c in it: text.chars()
        invariant
            it.seq() == text@,
            total == text@.len(),
            n == words_before(text@, it.index() as int),
            n <= it.index(),
            in_word == (it.index() > 0 && !is_whitespace(text@[it.index() - 1])),
    {
        let ws: bool = char_is_whitespace(c);
        if !ws && !in_word {
            n = n + 1;
        }
        in_word = !ws;
    }
    n
}

/// Counts the Unicode scalar values of `text`, not its bytes.
pub fn count_chars(text: &str) -> (n: usize)
    ensures
        n == text@.len(),
{
    text.unicode_len()
}

/// Derives the excerpt stored beside a document from its content.
pub fn derive_excerpt(content: &str) -> (r: Option<String>)
    ensures
        r is Some == excerpt_of(content@) is Some,
        r matches Some(e) ==> Some(e@) == excerpt_of(content@),
{
    let total: usize = content.unicode_len();
    if total == 0 {
        None
    } else if total > EXCERPT_CHARS {
        Some(content.substring_char(0, EXCERPT_CHARS).to_owned())
    } else {
        Some(content.to_owned())
    }
}

/// Tells whether `text` is empty or made of whitespace only.
pub fn is_blank(text: &str) -> (r: bool)
    ensures
        r == is_blank_seq(text@),
{
    let mut blank: bool = true;
    for c in it: text.chars()
        invariant
            it.seq() == text@,
            blank == is_blank_seq(text@.take(it.index() as int)),
    {
        let ws: bool = char_is_whitespace(c);
        proof {
            let k = it.index() as int;
            let a = text@.take(k);
            let b = text@.take(k + 1);
            assert(b[k] == c);
            if blank && ws {
                assert forall|i: int| 0 <= i < b.len() implies is_whitespace(#[trigger] b[i]) by {
                    if i < k {
                        assert(a[i] == b[i]);
                    }
                }
            } else if blank {
            } else {
                let j = choose|j: int| 0 <= j < a.len() && !is_whitespace(#[trigger] a[j]);
                assert(b[j] == a[j]);
            }
        }
        blank = blank && ws;
    }
    proof {
        assert(text@.take(text@.len() as int) =~= text@);
    }
    blank
}

} // verus!
