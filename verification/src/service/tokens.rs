//! Counting tokens: words (runs of letters) and punctuation marks, with how many letters
//! are Cyrillic. The final estimate scales the count by a factor for mostly Cyrillic text.
use vstd::prelude::*;

use crate::textops::{alphabetic, is_alphabetic, is_whitespace, str_chars, whitespace};

verus! {

/// A basic Cyrillic letter, `а`–`я` or `А`–`Я`.
pub open spec fn basic_cyrillic(c: char) -> bool {
    ('а' <= c && c <= 'я') || ('А' <= c && c <= 'Я')
}

/// The counts of a text: tokens, Cyrillic letters, characters, and whether it ends inside a
/// word. A letter opens a token unless a word is under way; whitespace ends a word; any
/// other character is a token of its own.
pub open spec fn token_scan(s: Seq<char>) -> (nat, nat, nat, bool)
    decreases s.len(),
{
    if s.len() == 0 {
        (0, 0, 0, false)
    } else {
        let (t, cy, n, w) = token_scan(s.drop_last());
        let c = s.last();
        if alphabetic(c) {
            (if w {
                t
            } else {
                t + 1
            }, if basic_cyrillic(c) {
                cy + 1
            } else {
                cy
            }, n + 1, true)
        } else if whitespace(c) {
            (t, cy, n + 1, false)
        } else {
            (t + 1, cy, n + 1, false)
        }
    }
}

/// The counts of a text.
pub struct TokenStats {
    pub tokens: usize,
    pub cyrillic: usize,
    pub chars: usize,
}

proof fn lemma_scan_bounds(s: Seq<char>)
    ensures
        token_scan(s).0 <= s.len(),
        token_scan(s).1 <= s.len(),
        token_scan(s).2 == s.len(),
    decreases s.len(),
{
    if s.len() > 0 {
        lemma_scan_bounds(s.drop_last());
    }
}

/// Counts the tokens, the Cyrillic letters and the characters of a text.
pub fn token_stats(text: &str) -> (r: TokenStats)
    ensures
        r.tokens == token_scan(text@).0,
        r.cyrillic == token_scan(text@).1,
        r.chars == token_scan(text@).2,
{
    let cs = str_chars(text);
    let mut tokens: usize = 0;
    let mut cyrillic: usize = 0;
    let mut n: usize = 0;
    let mut in_word = false;
    let mut i: usize = 0;
    while i < cs.len()
        invariant
            cs@ == text@,
            i <= cs@.len(),
            (tokens as nat, cyrillic as nat, n as nat, in_word) == token_scan(cs@.take(i as int)),
        decreases cs.len() - i,
    {
        proof {
            assert(cs@.take(i + 1).drop_last() =~= cs@.take(i as int));
            lemma_scan_bounds(cs@.take(i as int));
        }
        let c = cs[i];
        n += 1;
        if is_alphabetic(c) {
            if !in_word {
                tokens += 1;
                in_word = true;
            }
            if ('а' <= c && c <= 'я') || ('А' <= c && c <= 'Я') {
                cyrillic += 1;
            }
        } else if is_whitespace(c) {
            in_word = false;
        } else {
            tokens += 1;
            in_word = false;
        }
        i += 1;
    }
    assert(cs@.take(i as int) =~= cs@);
    TokenStats { tokens, cyrillic, chars: n }
}

} // verus!
