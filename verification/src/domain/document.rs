//! A document: the original text, its normalized form, and the map from normalized
//! byte offsets back to original byte offsets.
use vstd::prelude::*;
use vstd::string::StringSliceAdditionalSpecFns;
use vstd::utf8::{
    encode_utf8, encode_utf8_valid_utf8, is_char_boundary, is_char_boundary_start_end_of_seq,
};

use crate::textops::{
    byte_len, char_len_utf8, lemma_byte_len_push, lemma_encode_concat, lowercase_chars,
    lowercase_of, nfkc_chars, nfkc_of, str_byte_len, str_chars, str_slice, string_push,
};

verus! {

/// A range `[start, end)` of byte offsets.
#[derive(Clone, Copy, Debug, PartialEq, Eq, Hash, Structural)]
pub struct Span {
    pub start: usize,
    pub end: usize,
}

impl Span {
    pub fn new(start: usize, end: usize) -> (r: Span)
        ensures
            r.start == start,
            r.end == end,
    {
        Span { start, end }
    }

    /// Length, zero when `end < start`.
    pub fn len(&self) -> (r: usize)
        ensures
            r == if self.end >= self.start {
                self.end - self.start
            } else {
                0
            },
    {
        self.end.saturating_sub(self.start)
    }

    pub fn is_empty(&self) -> (r: bool)
        ensures
            r == (self.start >= self.end),
    {
        self.start >= self.end
    }

    /// `other` lies within `self`.
    pub fn contains(&self, other: &Span) -> (r: bool)
        ensures
            r == (self.start <= other.start && other.end <= self.end),
    {
        self.start <= other.start && other.end <= self.end
    }

    /// The two ranges share a position.
    pub fn overlaps(&self, other: &Span) -> (r: bool)
        ensures
            r == spans_overlap(*self, *other),
    {
        self.start < other.end && other.start < self.end
    }
}

pub open spec fn spans_overlap(a: Span, b: Span) -> bool {
    a.start < b.end && b.start < a.end
}

/// Folding of one character after NFKC and lowercasing: `ё` to `е`, dashes to `-`,
/// special spaces and tab to a space, typographic quotes to `"`.
pub open spec fn fold_char(c: char) -> char {
    let v = c as u32;
    if v == 0x451 {
        'е'
    } else if (0x2010 <= v <= 0x2015) || v == 0x2212 {
        '-'
    } else if v == 0xA0 || v == 0x09 || (0x2000 <= v <= 0x200A) || v == 0x202F || v == 0x205F
        || v == 0x3000 {
        ' '
    } else if v == 0xAB || v == 0xBB || v == 0x201E || v == 0x201C || v == 0x201D {
        '"'
    } else {
        c
    }
}

/// Folding of one character (see `fold_char`).
pub fn normalize_char(c: char) -> (r: char)
    ensures
        r == fold_char(c),
{
    let v = c as u32;
    if v == 0x451 {
        'е'
    } else if (0x2010 <= v && v <= 0x2015) || v == 0x2212 {
        '-'
    } else if v == 0xA0 || v == 0x09 || (0x2000 <= v && v <= 0x200A) || v == 0x202F || v
        == 0x205F || v == 0x3000 {
        ' '
    } else if v == 0xAB || v == 0xBB || v == 0x201E || v == 0x201C || v == 0x201D {
        '"'
    } else {
        c
    }
}

/// Lowercasing then folding of one character of the NFKC form.
pub open spec fn lower_fold(c: char) -> Seq<char> {
    Seq::new(lowercase_of(c).len(), |i: int| fold_char(lowercase_of(c)[i]))
}

/// `lower_fold` of each character, concatenated.
pub open spec fn lower_fold_all(s: Seq<char>) -> Seq<char>
    decreases s.len(),
{
    if s.len() == 0 {
        Seq::empty()
    } else {
        lower_fold_all(s.drop_last()) + lower_fold(s.last())
    }
}

/// The normalized form of one original character: NFKC, lowercase, fold.
pub open spec fn char_norm(c: char) -> Seq<char> {
    lower_fold_all(nfkc_of(c))
}

/// The normalized form of a text.
pub open spec fn norm_text(s: Seq<char>) -> Seq<char>
    decreases s.len(),
{
    if s.len() == 0 {
        Seq::empty()
    } else {
        norm_text(s.drop_last()) + char_norm(s.last())
    }
}

/// `n` copies of `v`.
pub open spec fn repeat(n: nat, v: u32) -> Seq<u32> {
    Seq::new(n, |i: int| v)
}

/// For each byte of the normalized text, the byte offset in the original of the character
/// it comes from.
pub open spec fn norm_map(s: Seq<char>) -> Seq<u32>
    decreases s.len(),
{
    if s.len() == 0 {
        Seq::empty()
    } else {
        norm_map(s.drop_last()) + repeat(
            byte_len(char_norm(s.last())),
            byte_len(s.drop_last()) as u32,
        )
    }
}

/// A byte of the fast path: lowercase ASCII letter, ASCII digit, ASCII punctuation or space.
pub open spec fn fast_path_byte(b: u8) -> bool {
    (0x61 <= b <= 0x7A) || (0x30 <= b <= 0x39) || (0x21 <= b <= 0x2F) || (0x3A <= b <= 0x40)
        || (0x5B <= b <= 0x60) || (0x7B <= b <= 0x7E) || b == 0x20
}

/// Text that needs no folding: every byte is a fast-path byte.
pub open spec fn is_fast_path(s: Seq<char>) -> bool {
    forall|i: int| 0 <= i < byte_len(s) ==> fast_path_byte(#[trigger] encode_utf8(s)[i])
}

fn is_ascii_fast_path(text: &str) -> (r: bool)
    ensures
        r == is_fast_path(text@),
{
    let b = text.as_bytes();
    let mut i: usize = 0;
    while i < b.len()
        invariant
            b@ == encode_utf8(text@),
            i <= b@.len(),
            forall|j: int| 0 <= j < i ==> fast_path_byte(#[trigger] b@[j]),
        decreases b.len() - i,
    {
        let x = b[i];
        if !((0x61 <= x && x <= 0x7A) || (0x30 <= x && x <= 0x39) || (0x21 <= x && x <= 0x2F)
            || (0x3A <= x && x <= 0x40) || (0x5B <= x && x <= 0x60) || (0x7B <= x && x <= 0x7E)
            || x == 0x20) {
            return false;
        }
        i += 1;
    }
    true
}

/// The first position at or after `b` that is a character boundary, or `b` itself when
/// it is at or past the end.
pub open spec fn align_fwd(bytes: Seq<u8>, b: int) -> int
    decreases bytes.len() - b,
{
    if b >= bytes.len() || is_char_boundary(bytes, b) {
        b
    } else {
        align_fwd(bytes, b + 1)
    }
}

proof fn lemma_align_fwd(bytes: Seq<u8>, b: int)
    requires
        0 <= b <= bytes.len(),
        vstd::utf8::valid_utf8(bytes),
    ensures
        b <= align_fwd(bytes, b) <= bytes.len(),
        is_char_boundary(bytes, align_fwd(bytes, b)),
    decreases bytes.len() - b,
{
    if b >= bytes.len() {
        is_char_boundary_start_end_of_seq(bytes);
    } else if !is_char_boundary(bytes, b) {
        lemma_align_fwd(bytes, b + 1);
    }
}

proof fn lemma_align_fwd_monotone(bytes: Seq<u8>, a: int, b: int)
    requires
        0 <= a <= b <= bytes.len(),
    ensures
        align_fwd(bytes, a) <= align_fwd(bytes, b),
    decreases bytes.len() - a,
{
    if a < b && a < bytes.len() && !is_char_boundary(bytes, a) {
        lemma_align_fwd_monotone(bytes, a + 1, b);
    } else if a == b {
    } else {
        lemma_align_fwd_ge(bytes, b);
    }
}

proof fn lemma_align_fwd_ge(bytes: Seq<u8>, b: int)
    ensures
        align_fwd(bytes, b) >= b,
    decreases bytes.len() - b,
{
    if !(b >= bytes.len() || is_char_boundary(bytes, b)) {
        lemma_align_fwd_ge(bytes, b + 1);
    }
}

/// Sorted in non-decreasing order.
pub open spec fn sorted_u32(s: Seq<u32>) -> bool {
    forall|i: int, j: int| 0 <= i <= j < s.len() ==> s[i] <= s[j]
}

/// A document with its normalized text and the offset map norm → original.
pub struct Document<'a> {
    pub original: &'a str,
    /// The normalized text (for fast-path text, a copy of the original).
    pub norm: String,
    /// For each normalized byte, the original byte offset it comes from, then the original length.
    pub norm_to_orig: Vec<u32>,
}

impl<'a> Document<'a> {
    /// The offset map; empty for fast-path text, where it is the identity.
    pub open spec fn offsets(&self) -> Seq<u32> {
        self.norm_to_orig@
    }

    /// Invariant: the original fits the 32-bit offsets, and either the identity (no map, norm
    /// equals the original) or a sorted map with one entry per normalized byte plus an end
    /// sentinel (the original's length), each within the original, the first being 0.
    pub open spec fn wf(&self) -> bool {
        &&& byte_len(self.original@) <= u32::MAX
        &&& self.offsets().len() == 0 ==> self.norm@ == self.original@
        &&& self.offsets().len() > 0 ==> {
            &&& self.offsets().len() == byte_len(self.norm@) + 1
            &&& sorted_u32(self.offsets())
            &&& self.offsets()[self.offsets().len() - 1] == byte_len(self.original@)
            &&& self.offsets()[0] == 0
            &&& forall|i: int|
                0 <= i < self.offsets().len() ==> #[trigger] self.offsets()[i] <= byte_len(
                    self.original@,
                )
        }
    }

    /// Normalizes a text: NFKC, lowercase, then folding of `ё`, dashes, spaces and quotes.
    /// Text made only of lowercase ASCII, digits, punctuation and spaces is kept as is.
    pub fn new(original: &'a str) -> (d: Document<'a>)
        requires
            byte_len(original@) <= u32::MAX,
        ensures
            d.wf(),
            d.original == original,
            is_fast_path(original@) ==> d.norm@ == original@ && d.offsets().len() == 0,
            !is_fast_path(original@) ==> d.norm@ == norm_text(original@) && d.offsets()
                == norm_map(original@).push(byte_len(original@) as u32),
    {
        if is_ascii_fast_path(original) {
            return Document { original, norm: original.to_string(), norm_to_orig: Vec::new() };
        }
        let cs = str_chars(original);
        let mut norm = String::new();
        let mut map: Vec<u32> = Vec::new();
        let mut off: usize = 0;
        let mut i: usize = 0;
        while i < cs.len()
            invariant
                cs@ == original@,
                byte_len(original@) <= u32::MAX,
                i <= cs@.len(),
                norm@ == norm_text(cs@.take(i as int)),
                map@ == norm_map(cs@.take(i as int)),
                map@.len() == byte_len(norm@),
                off == byte_len(cs@.take(i as int)),
                off <= byte_len(original@),
                sorted_u32(map@),
                forall|j: int| 0 <= j < map@.len() ==> #[trigger] map@[j] <= off,
                i > 0 ==> map@.len() > 0 && map@[0] == 0,
            decreases cs.len() - i,
        {
            let c = cs[i];
            let ghost prev = cs@.take(i as int);
            let ghost next = cs@.take(i + 1);
            proof {
                assert(next.drop_last() =~= prev);
                assert(next.last() == c);
                lemma_byte_len_push(prev, c);
                assert(next =~= prev.push(c));
                assert(cs@ =~= next + cs@.skip(i + 1));
                lemma_encode_concat(next, cs@.skip(i + 1));
            }
            push_char_norm(c, &mut norm, &mut map, off as u32);
            proof {
                lemma_encode_concat(norm_text(prev), char_norm(c));
            }
            off = off + char_len_utf8(c);
            i += 1;
        }
        assert(cs@.take(cs@.len() as int) =~= cs@);
        map.push(off as u32);
        Document { original, norm, norm_to_orig: map }
    }

    /// Original byte offset of a normalized offset, moved forward to a character boundary.
    pub open spec fn orig_of(&self, n: usize) -> usize {
        let l = byte_len(self.norm@);
        let k = if n <= l {
            n as int
        } else {
            l as int
        };
        align_fwd(encode_utf8(self.original@), self.offsets()[k] as int) as usize
    }

    /// Maps a normalized range back to the original text. For fast-path text this is the
    /// identity; otherwise both ends are clamped to the normalized text, mapped, and moved
    /// forward to character boundaries of the original.
    pub fn to_original(&self, norm_start: usize, norm_end: usize) -> (r: Span)
        requires
            self.wf(),
        ensures
            self.offsets().len() == 0 ==> (r == Span { start: norm_start, end: norm_end }),
            self.offsets().len() > 0 ==> r.start == self.orig_of(norm_start),
            self.offsets().len() > 0 ==> r.end == self.orig_of(norm_end),
            self.offsets().len() > 0 ==> r.start <= byte_len(self.original@),
            self.offsets().len() > 0 ==> r.end <= byte_len(self.original@),
            self.offsets().len() > 0 ==> is_char_boundary(
                encode_utf8(self.original@),
                r.start as int,
            ),
            self.offsets().len() > 0 ==> is_char_boundary(
                encode_utf8(self.original@),
                r.end as int,
            ),
            self.offsets().len() > 0 && norm_start <= norm_end ==> r.start <= r.end,
    {
        if self.norm_to_orig.len() == 0 {
            return Span::new(norm_start, norm_end);
        }
        let l = str_byte_len(self.norm.as_str());
        let ns = if norm_start <= l {
            norm_start
        } else {
            l
        };
        let ne = if norm_end <= l {
            norm_end
        } else {
            l
        };
        let start = self.norm_to_orig[ns] as usize;
        let end = self.norm_to_orig[ne] as usize;
        proof {
            let bytes = encode_utf8(self.original@);
            encode_utf8_valid_utf8(self.original@);
            lemma_align_fwd(bytes, start as int);
            lemma_align_fwd(bytes, end as int);
            if norm_start <= norm_end {
                assert(self.offsets()[ns as int] <= self.offsets()[ne as int]);
                lemma_align_fwd_monotone(bytes, start as int, end as int);
            }
        }
        let start = self.align_forward(start);
        let end = self.align_forward(end);
        Span::new(start, end)
    }

    /// Slice of the original text.
    pub fn original_slice(&self, span: Span) -> (r: &'a str)
        requires
            span.start <= span.end <= byte_len(self.original@),
            is_char_boundary(encode_utf8(self.original@), span.start as int),
            is_char_boundary(encode_utf8(self.original@), span.end as int),
        ensures
            encode_utf8(r@) == encode_utf8(self.original@).subrange(
                span.start as int,
                span.end as int,
            ),
    {
        str_slice(self.original, span.start, span.end)
    }

    fn align_forward(&self, byte: usize) -> (r: usize)
        requires
            byte <= byte_len(self.original@),
        ensures
            r == align_fwd(encode_utf8(self.original@), byte as int),
    {
        let mut b = byte;
        let n = str_byte_len(self.original);
        while b < n && !self.original.is_char_boundary(b)
            invariant
                n == byte_len(self.original@),
                self.original.spec_bytes() == encode_utf8(self.original@),
                byte <= b <= n,
                align_fwd(encode_utf8(self.original@), b as int) == align_fwd(
                    encode_utf8(self.original@),
                    byte as int,
                ),
            decreases n - b,
        {
            b += 1;
        }
        b
    }

    /// Slice of the normalized text, both ends clamped to its length.
    pub fn norm_slice(&self, start: usize, end: usize) -> (r: &str)
        requires
            ({
                let l = byte_len(self.norm@);
                let s = if start <= l {
                    start as int
                } else {
                    l as int
                };
                let e = if end <= l {
                    end as int
                } else {
                    l as int
                };
                s <= e && is_char_boundary(encode_utf8(self.norm@), s) && is_char_boundary(
                    encode_utf8(self.norm@),
                    e,
                )
            }),
        ensures
            ({
                let l = byte_len(self.norm@);
                let s = if start <= l {
                    start as int
                } else {
                    l as int
                };
                let e = if end <= l {
                    end as int
                } else {
                    l as int
                };
                encode_utf8(r@) == encode_utf8(self.norm@).subrange(s, e)
            }),
    {
        let l = str_byte_len(self.norm.as_str());
        let s = if start <= l {
            start
        } else {
            l
        };
        let e = if end <= l {
            end
        } else {
            l
        };
        str_slice(self.norm.as_str(), s, e)
    }
}

/// Appends the normalized form of one original character, recording `off` for each byte.
fn push_char_norm(c: char, norm: &mut String, map: &mut Vec<u32>, off: u32)
    requires
        old(map)@.len() == byte_len(old(norm)@),
    ensures
        final(norm)@ == old(norm)@ + char_norm(c),
        final(map)@ == old(map)@ + repeat(byte_len(char_norm(c)), off),
        final(map)@.len() == byte_len(final(norm)@),
        byte_len(char_norm(c)) > 0,
{
    let nf = nfkc_chars(c);
    let ghost n0 = norm@;
    let ghost m0 = map@;
    let mut j: usize = 0;
    while j < nf.len()
        invariant
            nf@ == nfkc_of(c),
            j <= nf@.len(),
            norm@ == n0 + lower_fold_all(nf@.take(j as int)),
            map@ == m0 + repeat(byte_len(lower_fold_all(nf@.take(j as int))), off),
            m0.len() == byte_len(n0),
            j > 0 ==> byte_len(lower_fold_all(nf@.take(j as int))) > 0,
        decreases nf.len() - j,
    {
        let ghost before = lower_fold_all(nf@.take(j as int));
        assert(nf@.take(j + 1).drop_last() =~= nf@.take(j as int));
        assert(nf@.take(j + 1).last() == nf@[j as int]);
        push_lower_fold(nf[j], norm, map, off);
        proof {
            let added = lower_fold(nf@[j as int]);
            lemma_encode_concat(before, added);
            assert(n0 + before + added =~= n0 + (before + added));
            assert(repeat(byte_len(before), off) + repeat(byte_len(added), off) =~= repeat(
                byte_len(before + added),
                off,
            ));
            assert(m0 + repeat(byte_len(before), off) + repeat(byte_len(added), off) =~= m0 + (
            repeat(byte_len(before), off) + repeat(byte_len(added), off)));
        }
        j += 1;
    }
    assert(nf@.take(nf@.len() as int) =~= nf@);
    proof {
        lemma_encode_concat(n0, char_norm(c));
    }
}

/// Appends `lower_fold(c)`, recording `off` for each byte.
fn push_lower_fold(c: char, norm: &mut String, map: &mut Vec<u32>, off: u32)
    ensures
        final(norm)@ == old(norm)@ + lower_fold(c),
        final(map)@ == old(map)@ + repeat(byte_len(lower_fold(c)), off),
        byte_len(lower_fold(c)) > 0,
{
    let lc = lowercase_chars(c);
    let ghost n0 = norm@;
    let ghost m0 = map@;
    let mut k: usize = 0;
    while k < lc.len()
        invariant
            lc@ == lowercase_of(c),
            k <= lc@.len(),
            norm@ == n0 + lower_fold(c).take(k as int),
            map@ == m0 + repeat(byte_len(lower_fold(c).take(k as int)), off),
            k > 0 ==> byte_len(lower_fold(c).take(k as int)) > 0,
        decreases lc.len() - k,
    {
        let m = normalize_char(lc[k]);
        let n = char_len_utf8(m);
        let ghost before = lower_fold(c).take(k as int);
        proof {
            assert(lower_fold(c).take(k + 1) =~= before.push(m));
            lemma_byte_len_push(before, m);
        }
        let mut t: usize = 0;
        while t < n
            invariant
                t <= n,
                map@ == m0 + repeat(byte_len(before), off) + repeat(t as nat, off),
            decreases n - t,
        {
            map.push(off);
            assert(repeat(t as nat, off).push(off) =~= repeat((t + 1) as nat, off));
            assert(m0 + repeat(byte_len(before), off) + repeat(t as nat, off).push(off) =~= (m0
                + repeat(byte_len(before), off) + repeat(t as nat, off)).push(off));
            t += 1;
        }
        string_push(norm, m);
        proof {
            assert(n0 + before.push(m) =~= (n0 + before).push(m));
            assert(repeat(byte_len(before), off) + repeat(n as nat, off) =~= repeat(
                byte_len(before.push(m)),
                off,
            ));
            assert(m0 + repeat(byte_len(before), off) + repeat(n as nat, off) =~= m0 + (repeat(
                byte_len(before),
                off,
            ) + repeat(n as nat, off)));
        }
        k += 1;
    }
    assert(lower_fold(c).take(lc@.len() as int) =~= lower_fold(c));
}

/// The offset in the original that a normalized offset maps to (as `to_original` maps each
/// end of a range).
pub open spec fn mapped_offset(d: Document, n: usize) -> int {
    if d.offsets().len() == 0 {
        n as int
    } else {
        d.orig_of(n) as int
    }
}

/// Mapping back to the original keeps order: a later normalized offset never maps before an
/// earlier one. The start of the normalized text maps to the start of the original and its
/// end to the end of the original, so the whole normalized text maps to the whole original.
pub proof fn law_to_original_order(d: Document, n1: usize, n2: usize)
    requires
        d.wf(),
        n1 <= n2,
    ensures
        mapped_offset(d, n1) <= mapped_offset(d, n2),
        mapped_offset(d, 0) == 0,
        byte_len(d.norm@) <= usize::MAX ==> mapped_offset(d, byte_len(d.norm@) as usize) == byte_len(d.original@),
{
    if d.offsets().len() > 0 {
        let bytes = encode_utf8(d.original@);
        let l = byte_len(d.norm@);
        let k1: int = if n1 <= l { n1 as int } else { l as int };
        let k2: int = if n2 <= l { n2 as int } else { l as int };
        assert(d.offsets()[k1] <= d.offsets()[k2]);
        assert(d.offsets()[k2] <= byte_len(d.original@));
        encode_utf8_valid_utf8(d.original@);
        lemma_align_fwd_monotone(bytes, d.offsets()[k1] as int, d.offsets()[k2] as int);
        lemma_align_fwd(bytes, d.offsets()[k1] as int);
        lemma_align_fwd(bytes, d.offsets()[k2] as int);
        assert(d.offsets()[l as int] == byte_len(d.original@));
        lemma_align_fwd(bytes, bytes.len() as int);
        is_char_boundary_start_end_of_seq(bytes);
        assert(d.offsets()[0] == 0);
        assert(align_fwd(bytes, 0) == 0);
    }
}

} // verus!
