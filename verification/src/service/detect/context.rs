//! Context checks: word boundaries, windows of the normalized text, context words.
use vstd::prelude::*;
use vstd::string::StringSliceAdditionalSpecFns;
use vstd::utf8::{decode_utf8, encode_utf8, is_char_boundary};

use crate::domain::document::{align_fwd, Document};
use crate::domain::entity::{Candidate, Signal};
use crate::textops::{
    alnum_flags, alphanumeric, byte_len, is_alphanumeric, occurs_at, seq_contains_seq, str_byte_len, str_chars,
    str_contains_any, str_contains_any_string, str_slice,
};

verus! {

/// The character that ends at byte `start` (the one before it), when `start` is not 0.
pub open spec fn char_before(bytes: Seq<u8>, start: int) -> char {
    decode_utf8(bytes.subrange(align_back(bytes, start - 1), start)).last()
}

/// The character that begins at byte `end`, when `end` is before the end.
pub open spec fn char_at(bytes: Seq<u8>, end: int) -> char {
    decode_utf8(bytes.subrange(end, align_fwd(bytes, end + 1))).first()
}

/// The character before `start` and the character at `end` are not letters or digits.
pub open spec fn boundary_spec(bytes: Seq<u8>, start: int, end: int) -> bool {
    &&& (start <= 0 || !alphanumeric(char_before(bytes, start)))
    &&& (end >= bytes.len() || !alphanumeric(char_at(bytes, end)))
}

/// The match `[start, end)` of the normalized text is not glued to a letter or digit: the
/// character before it and the character after it are neither.
pub fn is_boundary(doc: &Document<'_>, start: usize, end: usize) -> (r: bool)
    requires
        start <= byte_len(doc.norm@),
        is_char_boundary(encode_utf8(doc.norm@), start as int),
        end >= byte_len(doc.norm@) || is_char_boundary(encode_utf8(doc.norm@), end as int),
    ensures
        r == boundary_spec(encode_utf8(doc.norm@), start as int, end as int),
{
    let text = doc.norm.as_str();
    let n = str_byte_len(text);
    let ghost bytes = encode_utf8(doc.norm@);
    proof {
        vstd::utf8::encode_utf8_valid_utf8(doc.norm@);
    }
    if start > 0 {
        let mut p = start - 1;
        proof {
            lemma_align_back(bytes, p as int);
        }
        while p > 0 && !text.is_char_boundary(p)
            invariant
                0 <= p < start <= n,
                n == bytes.len(),
                text.spec_bytes() == bytes,
                vstd::utf8::valid_utf8(bytes),
                align_back(bytes, start - 1) == align_back(bytes, p as int),
            decreases p,
        {
            p -= 1;
        }
        proof {
            lemma_align_back(bytes, p as int);
        }
        let piece = str_slice(text, p, start);
        let cs = str_chars(piece);
        proof {
            vstd::utf8::encode_utf8_decode_utf8(piece@);
            assert(cs@ == decode_utf8(bytes.subrange(p as int, start as int)));
            if cs@.len() == 0 {
                assert(encode_utf8(piece@) =~= Seq::<u8>::empty());
            }
        }
        if is_alphanumeric(cs[cs.len() - 1]) {
            return false;
        }
    }
    if end < n {
        let mut q = end + 1;
        proof {
            lemma_align_fwd_bounds(bytes, q as int);
        }
        while q < n && !text.is_char_boundary(q)
            invariant
                end < q <= n,
                n == bytes.len(),
                text.spec_bytes() == bytes,
                vstd::utf8::valid_utf8(bytes),
                align_fwd(bytes, end + 1) == align_fwd(bytes, q as int),
            decreases n - q,
        {
            q += 1;
        }
        proof {
            vstd::utf8::is_char_boundary_start_end_of_seq(bytes);
        }
        let piece = str_slice(text, end, q);
        let cs = str_chars(piece);
        proof {
            vstd::utf8::encode_utf8_decode_utf8(piece@);
            assert(cs@ == decode_utf8(bytes.subrange(end as int, q as int)));
            if cs@.len() == 0 {
                assert(encode_utf8(piece@) =~= Seq::<u8>::empty());
            }
        }
        if is_alphanumeric(cs[0]) {
            return false;
        }
    }
    true
}

/// The last position at or before `b` that is a character boundary (0 at worst).
pub open spec fn align_back(bytes: Seq<u8>, b: int) -> int
    decreases b,
{
    if b <= 0 || is_char_boundary(bytes, b) {
        b
    } else {
        align_back(bytes, b - 1)
    }
}

proof fn lemma_align_back(bytes: Seq<u8>, b: int)
    requires
        0 <= b <= bytes.len(),
        vstd::utf8::valid_utf8(bytes),
    ensures
        0 <= align_back(bytes, b) <= b,
        is_char_boundary(bytes, align_back(bytes, b)),
    decreases b,
{
    if b == 0 {
        vstd::utf8::is_char_boundary_start_end_of_seq(bytes);
    } else if !is_char_boundary(bytes, b) {
        lemma_align_back(bytes, b - 1);
    }
}

proof fn lemma_align_fwd_bounds(bytes: Seq<u8>, b: int)
    requires
        0 <= b <= bytes.len(),
        vstd::utf8::valid_utf8(bytes),
    ensures
        b <= align_fwd(bytes, b) <= bytes.len(),
        is_char_boundary(bytes, align_fwd(bytes, b)),
    decreases bytes.len() - b,
{
    if b >= bytes.len() {
        vstd::utf8::is_char_boundary_start_end_of_seq(bytes);
    } else if !is_char_boundary(bytes, b) {
        lemma_align_fwd_bounds(bytes, b + 1);
    }
}

/// Bounds of the window `[start, end)` of the normalized text: both ends clamped to the
/// text, then widened outwards to character boundaries.
pub open spec fn window_bounds(norm: Seq<char>, start: int, end: int) -> (int, int) {
    let bytes = encode_utf8(norm);
    let l = bytes.len() as int;
    let s = if start <= l {
        start
    } else {
        l
    };
    let e = if end <= l {
        end
    } else {
        l
    };
    (align_back(bytes, s), align_fwd(bytes, e))
}

/// A window of a text, widened to character boundaries.
pub fn text_window<'a>(text: &'a str, start: usize, end: usize) -> (r: &'a str)
    requires
        start <= end,
    ensures
        encode_utf8(r@) == encode_utf8(text@).subrange(
            window_bounds(text@, start as int, end as int).0,
            window_bounds(text@, start as int, end as int).1,
        ),
{
    let norm = text;
    let l = str_byte_len(norm);
    let mut s = if start <= l {
        start
    } else {
        l
    };
    let mut e = if end <= l {
        end
    } else {
        l
    };
    let ghost s0 = s as int;
    let ghost e0 = e as int;
    let ghost bytes = encode_utf8(text@);
    proof {
        vstd::utf8::encode_utf8_valid_utf8(text@);
        lemma_align_back(bytes, s0);
        lemma_align_fwd_bounds(bytes, e0);
    }
    while s > 0 && !norm.is_char_boundary(s)
        invariant
            0 <= s <= s0,
            s0 <= l,
            l == bytes.len(),
            bytes == encode_utf8(text@),
            norm@ == text@,
            align_back(bytes, s as int) == align_back(bytes, s0),
        decreases s,
    {
        s -= 1;
    }
    while e < l && !norm.is_char_boundary(e)
        invariant
            e0 <= e <= l,
            l == bytes.len(),
            bytes == encode_utf8(text@),
            norm@ == text@,
            align_fwd(bytes, e as int) == align_fwd(bytes, e0),
        decreases l - e,
    {
        e += 1;
    }
    str_slice(norm, s, e)
}

/// A window of the normalized text, widened to character boundaries.
pub fn window<'a>(doc: &'a Document<'_>, start: usize, end: usize) -> (r: &'a str)
    requires
        start <= end,
    ensures
        encode_utf8(r@) == encode_utf8(doc.norm@).subrange(
            window_bounds(doc.norm@, start as int, end as int).0,
            window_bounds(doc.norm@, start as int, end as int).1,
        ),
{
    text_window(doc.norm.as_str(), start, end)
}

/// Does any of the words occur in `[span_start - left, span_end + right)` of the normalized
/// text (both ends clamped)?
pub fn has_context_word(
    doc: &Document<'_>,
    span_start: usize,
    span_end: usize,
    left: usize,
    right: usize,
    words: &[&str],
) -> (r: bool)
    requires
        span_end + right <= usize::MAX,
        ({
            let lo = if span_start >= left {
                span_start - left
            } else {
                0
            };
            let hi = if span_end + right <= byte_len(doc.norm@) {
                span_end + right
            } else {
                byte_len(doc.norm@) as int
            };
            &&& lo <= hi
            &&& is_char_boundary(encode_utf8(doc.norm@), lo)
            &&& is_char_boundary(encode_utf8(doc.norm@), hi)
        }),
    ensures
        ({
            let lo = if span_start >= left {
                span_start - left
            } else {
                0
            };
            let hi = if span_end + right <= byte_len(doc.norm@) {
                span_end + right
            } else {
                byte_len(doc.norm@) as int
            };
            r == exists|i: int|
                0 <= i < words@.len() && seq_contains_seq(
                    vstd::utf8::decode_utf8(encode_utf8(doc.norm@).subrange(lo, hi)),
                    #[trigger] words@[i]@,
                )
        }),
{
    let norm = doc.norm.as_str();
    let l = str_byte_len(norm);
    let lo = span_start.saturating_sub(left);
    let hi = if span_end + right <= l {
        span_end + right
    } else {
        l
    };
    let w = str_slice(norm, lo, hi);
    proof {
        vstd::utf8::encode_utf8_decode_utf8(w@);
    }
    str_contains_any(w, words)
}

/// The character range `[i, i + len)` is a piece of `text` split at characters that are
/// not alphanumeric: bounded by such characters or the ends, and alphanumeric throughout.
pub open spec fn is_piece_at(text: Seq<char>, i: int, len: int) -> bool {
    &&& 0 <= i
    &&& 0 <= len
    &&& i + len <= text.len()
    &&& (i == 0 || !alphanumeric(text[i - 1]))
    &&& (i + len == text.len() || !alphanumeric(text[i + len]))
    &&& forall|k: int| i <= k < i + len ==> alphanumeric(#[trigger] text[k])
}

/// `word` is one of the pieces of `text` split at non-alphanumeric characters.
pub open spec fn has_word_spec(text: Seq<char>, word: Seq<char>) -> bool {
    exists|i: int| is_piece_at(text, i, word.len() as int) && #[trigger] occurs_at(text, word, i)
}

fn word_at(t: &[char], f: &[bool], w: &[char], i: usize) -> (r: bool)
    requires
        f@.len() == t@.len(),
        forall|k: int| 0 <= k < t@.len() ==> f@[k] == alphanumeric(#[trigger] t@[k]),
    ensures
        r == (is_piece_at(t@, i as int, w@.len() as int) && occurs_at(t@, w@, i as int)),
{
    let n = t.len();
    if i > n || w.len() > n - i {
        return false;
    }
    if i > 0 && f[i - 1] {
        return false;
    }
    if i + w.len() < n && f[i + w.len()] {
        return false;
    }
    let mut k: usize = 0;
    while k < w.len()
        invariant
            f@.len() == t@.len(),
            forall|x: int| 0 <= x < t@.len() ==> f@[x] == alphanumeric(#[trigger] t@[x]),
            i + w@.len() <= t@.len(),
            t@.len() <= usize::MAX,
            k <= w@.len(),
            forall|x: int| i <= x < i + k ==> alphanumeric(#[trigger] t@[x]),
        decreases w.len() - k,
    {
        if !f[i + k] {
            assert(!alphanumeric(t@[i + k]));
            return false;
        }
        k += 1;
    }
    crate::textops::occurs_at_exec(t, w, i)
}

/// `word` is a whole word of `text` (pieces are split at non-alphanumeric characters).
pub fn has_word(text: &str, word: &str) -> (r: bool)
    ensures
        r == has_word_spec(text@, word@),
{
    let t = str_chars(text);
    let w = str_chars(word);
    let f = alnum_flags(&t);
    let mut i: usize = 0;
    while i < t.len()
        invariant
            t@ == text@,
            w@ == word@,
            f@.len() == t@.len(),
            forall|k: int| 0 <= k < t@.len() ==> f@[k] == alphanumeric(#[trigger] t@[k]),
            i <= t@.len(),
            forall|k: int|
                0 <= k < i ==> !(is_piece_at(t@, k, w@.len() as int) && #[trigger] occurs_at(
                    t@,
                    w@,
                    k,
                )),
        decreases t.len() - i,
    {
        if word_at(&t, &f, &w, i) {
            return true;
        }
        i += 1;
    }
    if word_at(&t, &f, &w, i) {
        return true;
    }
    proof {
        assert forall|k: int| !(is_piece_at(t@, k, w@.len() as int) && #[trigger] occurs_at(
            t@,
            w@,
            k,
        )) by {
            if 0 <= k <= i {
            }
        }
    }
    false
}

/// Some word of the list is a whole word of `text`.
pub fn has_any_word(text: &str, words: &[&str]) -> (r: bool)
    ensures
        r == exists|i: int| 0 <= i < words@.len() && has_word_spec(text@, #[trigger] words@[i]@),
{
    let mut i: usize = 0;
    while i < words.len()
        invariant
            i <= words@.len(),
            forall|j: int| 0 <= j < i ==> !has_word_spec(text@, #[trigger] words@[j]@),
        decreases words.len() - i,
    {
        if has_word(text, words[i]) {
            return true;
        }
        i += 1;
    }
    false
}

/// Some non-empty piece of `text` (split at non-alphanumeric characters) starts with `p`.
pub open spec fn piece_starts_with(text: Seq<char>, p: Seq<char>) -> bool {
    exists|i: int|
        0 <= i < text.len() && (i == 0 || !alphanumeric(text[i - 1])) && alphanumeric(text[i])
            && #[trigger] occurs_at(text, p, i) && forall|k: int|
            i <= k < i + p.len() ==> alphanumeric(#[trigger] text[k])
}

fn prefix_at(t: &[char], f: &[bool], p: &[char], i: usize) -> (r: bool)
    requires
        f@.len() == t@.len(),
        forall|k: int| 0 <= k < t@.len() ==> f@[k] == alphanumeric(#[trigger] t@[k]),
        i < t@.len(),
    ensures
        r == ((i == 0 || !alphanumeric(t@[i - 1])) && alphanumeric(t@[i as int]) && occurs_at(
            t@,
            p@,
            i as int,
        ) && forall|k: int| i <= k < i + p@.len() ==> alphanumeric(#[trigger] t@[k])),
{
    if i > 0 && f[i - 1] {
        return false;
    }
    if !f[i] {
        return false;
    }
    let n = t.len();
    if p.len() > n - i {
        return false;
    }
    let mut k: usize = 0;
    while k < p.len()
        invariant
            f@.len() == t@.len(),
            forall|x: int| 0 <= x < t@.len() ==> f@[x] == alphanumeric(#[trigger] t@[x]),
            i + p@.len() <= t@.len(),
            t@.len() <= usize::MAX,
            k <= p@.len(),
            forall|x: int| i <= x < i + k ==> alphanumeric(#[trigger] t@[x]),
        decreases p.len() - k,
    {
        if !f[i + k] {
            assert(!alphanumeric(t@[i + k]));
            return false;
        }
        k += 1;
    }
    crate::textops::occurs_at_exec(t, p, i)
}

/// Some word of `text` starts with one of the stems.
pub fn has_any_prefix(text: &str, prefixes: &[&str]) -> (r: bool)
    ensures
        r == exists|j: int|
            0 <= j < prefixes@.len() && piece_starts_with(text@, #[trigger] prefixes@[j]@),
{
    let t = str_chars(text);
    let f = alnum_flags(&t);
    let mut j: usize = 0;
    while j < prefixes.len()
        invariant
            t@ == text@,
            f@.len() == t@.len(),
            forall|k: int| 0 <= k < t@.len() ==> f@[k] == alphanumeric(#[trigger] t@[k]),
            j <= prefixes@.len(),
            forall|x: int| 0 <= x < j ==> !piece_starts_with(text@, #[trigger] prefixes@[x]@),
        decreases prefixes.len() - j,
    {
        let p = str_chars(prefixes[j]);
        let mut i: usize = 0;
        while i < t.len()
            invariant
                t@ == text@,
                f@.len() == t@.len(),
                forall|k: int| 0 <= k < t@.len() ==> f@[k] == alphanumeric(#[trigger] t@[k]),
                i <= t@.len(),
                j < prefixes@.len(),
                p@ == prefixes@[j as int]@,
                forall|x: int| 0 <= x < j ==> !piece_starts_with(text@, #[trigger] prefixes@[x]@),
                forall|k: int|
                    0 <= k < i ==> !((k == 0 || !alphanumeric(t@[k - 1])) && alphanumeric(t@[k])
                        && #[trigger] occurs_at(t@, p@, k) && forall|x: int|
                        k <= x < k + p@.len() ==> alphanumeric(#[trigger] t@[x])),
            decreases t.len() - i,
        {
            if prefix_at(&t, &f, &p, i) {
                assert(occurs_at(text@, prefixes@[j as int]@, i as int));
                assert(piece_starts_with(text@, prefixes@[j as int]@));
                return true;
            }
            i += 1;
        }
        assert(!piece_starts_with(text@, prefixes@[j as int]@));
        j += 1;
    }
    false
}

/// Context scoring by positive and negative words around a candidate.
pub struct KeywordContextScorer {
    pub id: String,
    pub pos_words: Vec<String>,
    pub neg_words: Vec<String>,
    pub left: usize,
    pub right: usize,
}

/// Score raised by 0.35 (in thousandths), capped at 1.
pub open spec fn raise_score(s: u32) -> u32 {
    if s + 350 >= 1000 {
        1000
    } else {
        (s + 350) as u32
    }
}

/// Score lowered by 0.5 (in thousandths), floored at 0.
pub open spec fn lower_score(s: u32) -> u32 {
    if s >= 500 {
        (s - 500) as u32
    } else {
        0
    }
}

pub fn raise(s: u32) -> (r: u32)
    requires
        s <= 1000,
    ensures
        r == raise_score(s),
{
    if s + 350 >= 1000 {
        1000
    } else {
        s + 350
    }
}

pub fn lower(s: u32) -> (r: u32)
    ensures
        r == lower_score(s),
{
    if s >= 500 {
        s - 500
    } else {
        0
    }
}

impl KeywordContextScorer {
    /// Raises the score when a positive word is in the window, lowers it when a negative
    /// word is, and records the signals.
    pub fn score(&self, doc: &Document<'_>, cand: &mut Candidate)
        requires
            old(cand).score <= 1000,
            old(cand).span.end + self.right <= usize::MAX,
            ({
                let lo = if old(cand).span.start >= self.left {
                    old(cand).span.start - self.left
                } else {
                    0
                };
                let hi = if old(cand).span.end + self.right <= byte_len(doc.norm@) {
                    old(cand).span.end + self.right
                } else {
                    byte_len(doc.norm@) as int
                };
                &&& lo <= hi
                &&& is_char_boundary(encode_utf8(doc.norm@), lo)
                &&& is_char_boundary(encode_utf8(doc.norm@), hi)
            }),
        ensures
            ({
                let lo = if old(cand).span.start >= self.left {
                    old(cand).span.start - self.left
                } else {
                    0
                };
                let hi = if old(cand).span.end + self.right <= byte_len(doc.norm@) {
                    old(cand).span.end + self.right
                } else {
                    byte_len(doc.norm@) as int
                };
                let w = vstd::utf8::decode_utf8(encode_utf8(doc.norm@).subrange(lo, hi));
                let pos = exists|i: int|
                    0 <= i < self.pos_words@.len() && seq_contains_seq(
                        w,
                        #[trigger] self.pos_words@[i]@,
                    );
                let neg = exists|i: int|
                    0 <= i < self.neg_words@.len() && seq_contains_seq(
                        w,
                        #[trigger] self.neg_words@[i]@,
                    );
                let s1 = if pos {
                    raise_score(old(cand).score)
                } else {
                    old(cand).score
                };
                &&& final(cand).score == if neg {
                    lower_score(s1)
                } else {
                    s1
                }
                &&& forall|x: Signal|
                    final(cand).signals.has(x) == (old(cand).signals.has(x) || (pos && x
                        == Signal::ContextPos) || (neg && x == Signal::ContextNeg))
                &&& final(cand).pd_type == old(cand).pd_type
                &&& final(cand).span == old(cand).span
                &&& final(cand).source == old(cand).source
                &&& final(cand).components == old(cand).components
            }),
    {
        let norm = doc.norm.as_str();
        let l = str_byte_len(norm);
        let lo = cand.span.start.saturating_sub(self.left);
        let hi = if cand.span.end + self.right <= l {
            cand.span.end + self.right
        } else {
            l
        };
        let w = str_slice(norm, lo, hi);
        proof {
            vstd::utf8::encode_utf8_decode_utf8(w@);
        }
        let pos = str_contains_any_string(w, &self.pos_words);
        let neg = str_contains_any_string(w, &self.neg_words);
        if pos {
            cand.score = raise(cand.score);
            cand.signals.insert(Signal::ContextPos);
        }
        if neg {
            cand.score = lower(cand.score);
            cand.signals.insert(Signal::ContextNeg);
        }
    }
}

} // verus!
