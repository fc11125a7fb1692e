//! Demasking: placeholders found in a text are replaced by the originals they stand for,
//! and partially masked forms are replaced where they occur.
use vstd::prelude::*;

use crate::infra::pattern::{captures_view, captures_wf, group_ok, regex_captures, regex_valid, whole, Pattern};
use vstd::utf8::{decode_utf8, encode_utf8, encode_utf8_decode_utf8, encode_utf8_valid_utf8, is_char_boundary, valid_utf8};

use crate::textops::{
    byte_len, lemma_encode_concat, lemma_valid_between, push_str, replace_all_counting, replace_count,
    replace_spec, str_byte_len, str_eq, str_slice,
};

verus! {

/// One entry of a session's mapping: a key (`ФИО_1`), the type, the original text, and the
/// partially masked form when the mask keeps part of the value.
pub struct MappingEntry {
    pub key: String,
    pub pd_type: String,
    pub original: String,
    pub masked: Option<String>,
}

/// The mapping "mask → original" of a session, with the text as it came in and as it went out.
pub struct Mapping {
    pub entries: Vec<MappingEntry>,
    pub original: String,
    pub masked: String,
}

impl Default for Mapping {
    fn default() -> (r: Mapping)
        ensures
            r.entries@.len() == 0,
            r.original@.len() == 0,
            r.masked@.len() == 0,
    {
        Mapping { entries: Vec::new(), original: String::new(), masked: String::new() }
    }
}

impl Clone for MappingEntry {
    fn clone(&self) -> (r: Self)
        ensures
            r == *self,
    {
        MappingEntry {
            key: self.key.clone(),
            pd_type: self.pd_type.clone(),
            original: self.original.clone(),
            masked: match &self.masked {
                Some(m) => Some(m.clone()),
                None => None,
            },
        }
    }
}

/// Outcome of demasking a text.
pub struct DemaskResult {
    pub text: String,
    pub restored: usize,
    pub unresolved: usize,
}

/// A placeholder found in a text, by byte offsets: the whole match, its label and its number.
#[derive(Clone, Copy, Debug)]
pub struct PlaceholderMatch {
    pub start: usize,
    pub end: usize,
    pub label_start: usize,
    pub label_end: usize,
    pub num_start: usize,
    pub num_end: usize,
}


/// The offsets of a match lie in order on character boundaries of `b`.
pub open spec fn match_wf(m: PlaceholderMatch, b: Seq<u8>) -> bool {
    &&& m.start <= m.label_start < m.label_end <= m.num_start < m.num_end <= m.end <= b.len()
    &&& is_char_boundary(b, m.start as int)
    &&& is_char_boundary(b, m.end as int)
    &&& is_char_boundary(b, m.label_start as int)
    &&& is_char_boundary(b, m.label_end as int)
    &&& is_char_boundary(b, m.num_start as int)
    &&& is_char_boundary(b, m.num_end as int)
}

/// Matches are well formed and do not overlap, in order.
pub open spec fn matches_wf(ms: Seq<PlaceholderMatch>, b: Seq<u8>) -> bool {
    &&& forall|i: int| 0 <= i < ms.len() ==> match_wf(#[trigger] ms[i], b)
    &&& forall|i: int, j: int| 0 <= i < j < ms.len() ==> (#[trigger] ms[i]).end <= (#[trigger] ms[j]).start
}

/// The placeholder pattern: an optional opening bracket and spaces, an upper-case Latin or
/// Cyrillic label (words joined by `_`) as group 1, an optional separator (space, `_` or
/// `-`), a number as group 2, optional spaces and a closing bracket.
pub open spec fn placeholder_source() -> Seq<char> {
    "(?:[\\[\\(\\{<]\\s*)?([A-ZА-Я]+(?:_[A-ZА-Я]+)*)[ _-]?(\\d+)(?:\\s*[\\]\\)\\}>])?"@
}

fn placeholder_pattern() -> (r: &'static str)
    ensures
        r@ == placeholder_source(),
{
    "(?:[\\[\\(\\{<]\\s*)?([A-ZА-Я]+(?:_[A-ZА-Я]+)*)[ _-]?(\\d+)(?:\\s*[\\]\\)\\}>])?"
}

/// A match of the pattern read as a placeholder: the whole match, the label, the number.
pub open spec fn to_placeholder(m: Seq<Option<(usize, usize)>>) -> PlaceholderMatch {
    PlaceholderMatch {
        start: m[0]->Some_0.0,
        end: m[0]->Some_0.1,
        label_start: m[1]->Some_0.0,
        label_end: m[1]->Some_0.1,
        num_start: m[2]->Some_0.0,
        num_end: m[2]->Some_0.1,
    }
}

/// The match has its label and number, in order inside it.
pub open spec fn usable(m: Seq<Option<(usize, usize)>>, b: Seq<u8>) -> bool {
    &&& m.len() >= 3
    &&& m[0] is Some && m[1] is Some && m[2] is Some
    &&& match_wf(to_placeholder(m), b)
}

/// The placeholders among the matches, in order.
pub open spec fn placeholders_from(ms: Seq<Seq<Option<(usize, usize)>>>, b: Seq<u8>) -> Seq<PlaceholderMatch>
    decreases ms.len(),
{
    if ms.len() == 0 {
        Seq::empty()
    } else if usable(ms.last(), b) {
        placeholders_from(ms.drop_last(), b).push(to_placeholder(ms.last()))
    } else {
        placeholders_from(ms.drop_last(), b)
    }
}

/// The placeholders that the placeholder pattern finds in a text, left to right.
pub open spec fn placeholder_matches_of(text: Seq<char>) -> Seq<PlaceholderMatch> {
    if regex_valid(placeholder_source()) {
        placeholders_from(regex_captures(placeholder_source(), text), encode_utf8(text))
    } else {
        Seq::empty()
    }
}

/// Finds the placeholders of a text with the placeholder pattern.
fn find_placeholders(text: &str) -> (r: Vec<PlaceholderMatch>)
    ensures
        r@ == placeholder_matches_of(text@),
        matches_wf(r@, encode_utf8(text@)),
{
    let mut out: Vec<PlaceholderMatch> = Vec::new();
    let pat = match Pattern::compile(placeholder_pattern()) {
        Ok(p) => p,
        Err(_) => {
            return out;
        },
    };
    let cs = pat.captures(text);
    let ghost b = encode_utf8(text@);
    let ghost ms = captures_view(cs);
    let mut i: usize = 0;
    while i < cs.len()
        invariant
            ms == captures_view(cs),
            ms == regex_captures(placeholder_source(), text@),
            captures_wf(ms, b),
            b == encode_utf8(text@),
            i <= cs@.len(),
            ms.len() == cs@.len(),
            out@ == placeholders_from(ms.take(i as int), b),
            matches_wf(out@, b),
            forall|k: int, j: int| 0 <= k < out@.len() && i <= j < ms.len() ==> (#[trigger] out@[k]).end <= whole(#[trigger] ms[j]).0,
        decreases cs.len() - i,
    {
        assert(ms.take(i + 1).drop_last() =~= ms.take(i as int));
        assert(ms.take(i + 1).last() == ms[i as int]);
        let m = &cs[i];
        assert(m@ == ms[i as int]);
        if m.len() >= 3 {
            match (m[0], m[1], m[2]) {
                (Some(w), Some(l), Some(n)) => {
                    let pm = PlaceholderMatch {
                        start: w.0,
                        end: w.1,
                        label_start: l.0,
                        label_end: l.1,
                        num_start: n.0,
                        num_end: n.1,
                    };
                    proof {
                        assert(group_ok(b, ms[i as int][0]));
                        assert(group_ok(b, ms[i as int][1]));
                        assert(group_ok(b, ms[i as int][2]));
                        assert(pm == to_placeholder(ms[i as int]));
                    }
                    if pm.start <= pm.label_start && pm.label_start < pm.label_end && pm.label_end <= pm.num_start
                        && pm.num_start < pm.num_end && pm.num_end <= pm.end {
                        let ghost before = out@;
                        proof {
                            assert forall|j: int| i < j < ms.len() implies pm.end <= whole(#[trigger] ms[j]).0 by {
                                assert(whole(ms[i as int]).1 <= whole(ms[j]).0);
                            }
                        }
                        out.push(pm);
                        proof {
                            assert forall|k: int, j: int| 0 <= k < out@.len() && i + 1 <= j < ms.len() implies (#[trigger] out@[k]).end <= whole(#[trigger] ms[j]).0 by {
                                if k < before.len() {
                                    assert(out@[k] == before[k]);
                                }
                            }
                            assert forall|k: int, j: int| 0 <= k < j < out@.len() implies (#[trigger] out@[k]).end <= (#[trigger] out@[j]).start by {
                                if j < before.len() {
                                    assert(out@[k] == before[k] && out@[j] == before[j]);
                                } else {
                                    assert(out@[k] == before[k]);
                                    assert(before[k].end <= whole(ms[i as int]).0);
                                }
                            }
                            assert forall|k: int| 0 <= k < out@.len() implies match_wf(#[trigger] out@[k], b) by {
                                if k < before.len() {
                                    assert(out@[k] == before[k]);
                                }
                            }
                        }
                    }
                },
                _ => {},
            }
        }
        i += 1;
    }
    assert(ms.take(i as int) =~= ms);
    out
}

/// The original of the entry with key `k` (the last such entry).
pub open spec fn key_lookup(es: Seq<MappingEntry>, k: Seq<char>) -> Option<Seq<char>>
    decreases es.len(),
{
    if es.len() == 0 {
        None
    } else if es.last().key@ == k {
        Some(es.last().original@)
    } else {
        key_lookup(es.drop_last(), k)
    }
}

/// The key a placeholder spells: its label, `_`, its number.
pub open spec fn match_key(b: Seq<u8>, m: PlaceholderMatch) -> Seq<char> {
    decode_utf8(b.subrange(m.label_start as int, m.label_end as int)) + "_"@ + decode_utf8(
        b.subrange(m.num_start as int, m.num_end as int),
    )
}

/// After the first `k` placeholders: the output bytes, the end of the last one, and the
/// numbers restored and left unresolved. A known placeholder is replaced by its original;
/// an unknown one is kept.
pub open spec fn scan_placeholders(
    b: Seq<u8>,
    ms: Seq<PlaceholderMatch>,
    es: Seq<MappingEntry>,
    k: nat,
) -> (Seq<u8>, int, nat, nat)
    decreases k,
{
    if k == 0 {
        (Seq::empty(), 0, 0, 0)
    } else {
        let prev = scan_placeholders(b, ms, es, (k - 1) as nat);
        let m = ms[k - 1];
        match key_lookup(es, match_key(b, m)) {
            Some(orig) => (
                prev.0 + b.subrange(prev.1, m.start as int) + encode_utf8(orig),
                m.end as int,
                prev.2 + 1,
                prev.3,
            ),
            None => (prev.0 + b.subrange(prev.1, m.end as int), m.end as int, prev.2, prev.3 + 1),
        }
    }
}

/// After the first `k` entries: each non-empty partially masked form replaced by its
/// original, and the number of replacements.
pub open spec fn restore_masked_forms(s: Seq<char>, es: Seq<MappingEntry>, k: nat) -> (Seq<char>, nat)
    decreases k,
{
    if k == 0 {
        (s, 0)
    } else {
        let prev = restore_masked_forms(s, es, (k - 1) as nat);
        let e = es[k - 1];
        match e.masked {
            Some(m) => if m@.len() > 0 {
                (replace_spec(prev.0, m@, e.original@), prev.1 + replace_count(prev.0, m@))
            } else {
                prev
            },
            None => prev,
        }
    }
}

/// Text after demasking `text` with the entries `es`.
pub open spec fn demask_text(text: Seq<char>, es: Seq<MappingEntry>) -> Seq<char> {
    let b = encode_utf8(text);
    let ms = placeholder_matches_of(text);
    let p = scan_placeholders(b, ms, es, ms.len());
    restore_masked_forms(decode_utf8(p.0 + b.subrange(p.1, b.len() as int)), es, es.len()).0
}

/// Number of values restored (counted without bound).
pub open spec fn demask_restored(text: Seq<char>, es: Seq<MappingEntry>) -> int {
    let b = encode_utf8(text);
    let ms = placeholder_matches_of(text);
    let p = scan_placeholders(b, ms, es, ms.len());
    (p.2 + restore_masked_forms(decode_utf8(p.0 + b.subrange(p.1, b.len() as int)), es, es.len()).1) as int
}

/// Number of placeholders with no entry.
pub open spec fn demask_unresolved(text: Seq<char>, es: Seq<MappingEntry>) -> int {
    let ms = placeholder_matches_of(text);
    scan_placeholders(encode_utf8(text), ms, es, ms.len()).3 as int
}

/// Only the partially masked forms are replaced when the text holds no placeholder.
proof fn lemma_restore_unmasked(s: Seq<char>, es: Seq<MappingEntry>, k: nat)
    requires
        k <= es.len(),
        forall|i: int| 0 <= i < es.len() ==> (#[trigger] es[i]).masked is None,
    ensures
        restore_masked_forms(s, es, k) == (s, 0nat),
    decreases k,
{
    if k > 0 {
        lemma_restore_unmasked(s, es, (k - 1) as nat);
        assert(es[k - 1].masked is None);
    }
}

/// A text in which no placeholder is found comes back unchanged from demasking when no entry
/// has a partially masked form, with nothing restored and nothing unresolved.
pub proof fn law_demask_without_placeholders(text: Seq<char>, es: Seq<MappingEntry>)
    requires
        placeholder_matches_of(text).len() == 0,
        forall|i: int| 0 <= i < es.len() ==> (#[trigger] es[i]).masked is None,
    ensures
        demask_text(text, es) == text,
        demask_restored(text, es) == 0,
        demask_unresolved(text, es) == 0,
{
    let b = encode_utf8(text);
    assert(b.subrange(0, b.len() as int) =~= b);
    assert(Seq::<u8>::empty() + b =~= b);
    vstd::utf8::encode_utf8_decode_utf8(text);
    lemma_restore_unmasked(text, es, es.len());
}

proof fn lemma_scan_bounds(b: Seq<u8>, ms: Seq<PlaceholderMatch>, es: Seq<MappingEntry>, k: nat)
    requires
        matches_wf(ms, b),
        k <= ms.len(),
    ensures
        scan_placeholders(b, ms, es, k).2 + scan_placeholders(b, ms, es, k).3 == k,
        0 <= scan_placeholders(b, ms, es, k).1 <= b.len(),
        k > 0 ==> scan_placeholders(b, ms, es, k).1 == ms[k - 1].end,
        k == 0 ==> scan_placeholders(b, ms, es, k).1 == 0,
    decreases k,
{
    if k > 0 {
        lemma_scan_bounds(b, ms, es, (k - 1) as nat);
        assert(match_wf(ms[k - 1], b));
    }
}

fn lookup_key<'a>(es: &'a Vec<MappingEntry>, k: &str) -> (r: Option<&'a String>)
    ensures
        r matches Some(o) ==> key_lookup(es@, k@) == Some(o@),
        r is None ==> key_lookup(es@, k@) is None,
{
    let n = es.len();
    assert(es@.take(n as int) =~= es@);
    let mut i = n;
    while i > 0
        invariant
            n == es@.len(),
            i <= n,
            key_lookup(es@, k@) == key_lookup(es@.take(i as int), k@),
        decreases i,
    {
        assert(es@.take(i as int).drop_last() =~= es@.take(i - 1));
        if str_eq(es[i - 1].key.as_str(), k) {
            return Some(&es[i - 1].original);
        }
        i -= 1;
    }
    None
}

/// Demasks a text: placeholders (tolerant to distorted brackets and separators) are
/// replaced by their originals, then partially masked forms. `restored` saturates at
/// `usize::MAX`.
pub fn demask(text: &str, mapping: &Mapping) -> (r: DemaskResult)
    ensures
        r.text@ == demask_text(text@, mapping.entries@),
        r.restored == if demask_restored(text@, mapping.entries@) < usize::MAX {
            demask_restored(text@, mapping.entries@)
        } else {
            usize::MAX as int
        },
        r.unresolved == demask_unresolved(text@, mapping.entries@),
        mapping.entries@.len() == 0 ==> r.text@ == text@ && r.restored == 0
            && r.unresolved == placeholder_matches_of(text@).len(),
        matches_wf(placeholder_matches_of(text@), encode_utf8(text@)),
{
    let ms = find_placeholders(text);
    let ghost b = encode_utf8(text@);
    let ghost es = mapping.entries@;
    let tlen = str_byte_len(text);
    proof {
        encode_utf8_valid_utf8(text@);
    }
    let mut out = String::new();
    let mut last: usize = 0;
    let mut restored: usize = 0;
    let mut unresolved: usize = 0;
    let mut k: usize = 0;
    while k < ms.len()
        invariant
            b == encode_utf8(text@),
            tlen == b.len(),
            matches_wf(ms@, b),
            k <= ms@.len(),
            es == mapping.entries@,
            ({
                let p = scan_placeholders(b, ms@, es, k as nat);
                &&& encode_utf8(out@) == p.0
                &&& last == p.1
                &&& restored == p.2
                &&& unresolved == p.3
            }),
            k < ms@.len() ==> last <= ms@[k as int].start,
            last <= tlen,
            k > 0 ==> last == ms@[k - 1].end,
            k == 0 ==> last == 0,
            is_char_boundary(b, last as int),
        decreases ms.len() - k,
    {
        let m = ms[k];
        proof {
            lemma_scan_bounds(b, ms@, es, k as nat);
            lemma_scan_bounds(b, ms@, es, (k + 1) as nat);
            assert(match_wf(ms@[k as int], b));
        }
        let label = str_slice(text, m.label_start, m.label_end);
        let num = str_slice(text, m.num_start, m.num_end);
        let mut key = String::new();
        push_str(&mut key, label);
        push_str(&mut key, "_");
        push_str(&mut key, num);
        proof {
            encode_utf8_decode_utf8(label@);
            encode_utf8_decode_utf8(num@);
            assert(key@ == match_key(b, m));
        }
        let ghost before = out@;
        match lookup_key(&mapping.entries, key.as_str()) {
            Some(orig) => {
                let piece = str_slice(text, last, m.start);
                push_str(&mut out, piece);
                push_str(&mut out, orig.as_str());
                proof {
                    lemma_encode_concat(before, piece@);
                    lemma_encode_concat(before + piece@, orig@);
                }
                restored = restored + 1;
            },
            None => {
                let piece = str_slice(text, last, m.end);
                push_str(&mut out, piece);
                proof {
                    lemma_encode_concat(before, piece@);
                }
                unresolved = unresolved + 1;
            },
        }
        last = m.end;
        k += 1;
        proof {
            if k < ms@.len() {
                assert(ms@[k - 1].end <= ms@[k as int].start);
            }
        }
    }
    proof {
        vstd::utf8::is_char_boundary_start_end_of_seq(b);
    }
    let tail = str_slice(text, last, tlen);
    let ghost before_tail = out@;
    push_str(&mut out, tail);
    proof {
        lemma_encode_concat(before_tail, tail@);
        encode_utf8_decode_utf8(out@);
    }
    let ghost first = out@;
    let mut i: usize = 0;
    let mut extra: usize = 0;
    let ghost base: int = restored as int;
    while i < mapping.entries.len()
        invariant
            es == mapping.entries@,
            i <= es.len(),
            ({
                let q = restore_masked_forms(first, es, i as nat);
                &&& out@ == q.0
                &&& restored == if base + q.1 < usize::MAX { base + q.1 } else { usize::MAX as int }
            }),
        decreases mapping.entries.len() - i,
    {
        let e = &mapping.entries[i];
        match &e.masked {
            Some(m) => {
                if !m.as_str().is_empty() {
                    let (next, n) = replace_all_counting(out.as_str(), m.as_str(), e.original.as_str());
                    out = next;
                    restored = restored.saturating_add(n);
                }
            },
            None => {},
        }
        i += 1;
    }
    proof {
        if es.len() == 0 {
            lemma_scan_no_entries(b, ms@, es, ms@.len());
            lemma_scan_bounds(b, ms@, es, ms@.len());
            let p = scan_placeholders(b, ms@, es, ms@.len());
            assert(p.0 + b.subrange(p.1, b.len() as int) =~= b);
            encode_utf8_decode_utf8(text@);
        }
    }
    DemaskResult { text: out, restored, unresolved }
}

/// With no entries every placeholder is copied as it stands: the output is the text up to
/// the end of the last placeholder, nothing is restored, and every placeholder is unresolved.
proof fn lemma_scan_no_entries(b: Seq<u8>, ms: Seq<PlaceholderMatch>, es: Seq<MappingEntry>, k: nat)
    requires
        matches_wf(ms, b),
        es.len() == 0,
        k <= ms.len(),
    ensures
        scan_placeholders(b, ms, es, k).0 == b.subrange(0, scan_placeholders(b, ms, es, k).1),
        scan_placeholders(b, ms, es, k).2 == 0,
        scan_placeholders(b, ms, es, k).3 == k,
    decreases k,
{
    if k > 0 {
        lemma_scan_no_entries(b, ms, es, (k - 1) as nat);
        lemma_scan_bounds(b, ms, es, (k - 1) as nat);
        assert(match_wf(ms[k - 1], b));
        let prev = scan_placeholders(b, ms, es, (k - 1) as nat);
        if k >= 2 {
            assert(ms[k - 2].end <= ms[k - 1].start);
        }
        assert(b.subrange(0, prev.1) + b.subrange(prev.1, ms[k - 1].end as int) =~= b.subrange(0, ms[k - 1].end as int));
    }
}

/// What stands for a placeholder after demasking: its entry's original when its key has an
/// entry, else the placeholder itself, unchanged.
pub open spec fn restored_bytes(b: Seq<u8>, es: Seq<MappingEntry>, m: PlaceholderMatch) -> Seq<u8> {
    match key_lookup(es, match_key(b, m)) {
        Some(o) => encode_utf8(o),
        None => b.subrange(m.start as int, m.end as int),
    }
}

/// How many of the first `k` placeholders have an entry.
pub open spec fn known_count(b: Seq<u8>, ms: Seq<PlaceholderMatch>, es: Seq<MappingEntry>, k: nat) -> nat
    decreases k,
{
    if k == 0 {
        0
    } else if key_lookup(es, match_key(b, ms[k - 1])) is Some {
        known_count(b, ms, es, (k - 1) as nat) + 1
    } else {
        known_count(b, ms, es, (k - 1) as nat)
    }
}

/// How much longer the text has grown before the `k`-th placeholder: for each earlier one,
/// the length of its original less its own length.
pub open spec fn growth(b: Seq<u8>, ms: Seq<PlaceholderMatch>, es: Seq<MappingEntry>, k: nat) -> int
    decreases k,
{
    if k == 0 {
        0
    } else {
        growth(b, ms, es, (k - 1) as nat) + restored_bytes(b, es, ms[k - 1]).len() - (ms[k - 1].end - ms[k - 1].start)
    }
}

/// Where the text copied before the `k`-th placeholder starts: the end of the previous one.
pub open spec fn gap_start(ms: Seq<PlaceholderMatch>, k: int) -> int {
    if k == 0 {
        0
    } else {
        ms[k - 1].end as int
    }
}

/// `out` holds the `j`-th placeholder's piece, shifted by the growth before it: the
/// original's text since the previous placeholder, then the placeholder's original.
#[verifier::opaque]
pub open spec fn piece_at(b: Seq<u8>, ms: Seq<PlaceholderMatch>, es: Seq<MappingEntry>, out: Seq<u8>, j: int) -> bool {
    let at = ms[j].start + growth(b, ms, es, j as nat);
    let from = gap_start(ms, j) + growth(b, ms, es, j as nat);
    &&& 0 <= from <= at
    &&& at + restored_bytes(b, es, ms[j]).len() <= out.len()
    &&& out.subrange(from, at) == b.subrange(gap_start(ms, j), ms[j].start as int)
    &&& out.subrange(at, at + restored_bytes(b, es, ms[j]).len()) == restored_bytes(b, es, ms[j])
}

/// `out` holds the pieces of the first `k` placeholders.
pub open spec fn spliced_upto(b: Seq<u8>, ms: Seq<PlaceholderMatch>, es: Seq<MappingEntry>, out: Seq<u8>, k: nat) -> bool {
    forall|j: int| 0 <= j < k ==> #[trigger] piece_at(b, ms, es, out, j)
}

proof fn lemma_piece_extend(b: Seq<u8>, ms: Seq<PlaceholderMatch>, es: Seq<MappingEntry>, x: Seq<u8>, y: Seq<u8>, j: int)
    requires
        piece_at(b, ms, es, x, j),
    ensures
        piece_at(b, ms, es, x + y, j),
{
    reveal(piece_at);
    let at = ms[j].start + growth(b, ms, es, j as nat);
    let from = gap_start(ms, j) + growth(b, ms, es, j as nat);
    let r = restored_bytes(b, es, ms[j]);
    assert((x + y).subrange(from, at) =~= x.subrange(from, at));
    assert((x + y).subrange(at, at + r.len()) =~= x.subrange(at, at + r.len()));
}

proof fn lemma_splice_extend(b: Seq<u8>, ms: Seq<PlaceholderMatch>, es: Seq<MappingEntry>, x: Seq<u8>, y: Seq<u8>, k: nat)
    requires
        spliced_upto(b, ms, es, x, k),
    ensures
        spliced_upto(b, ms, es, x + y, k),
{
    assert forall|j: int| 0 <= j < k implies #[trigger] piece_at(b, ms, es, x + y, j) by {
        lemma_piece_extend(b, ms, es, x, y, j);
    }
}

#[verifier::rlimit(40)]
proof fn lemma_scan_splices(b: Seq<u8>, ms: Seq<PlaceholderMatch>, es: Seq<MappingEntry>, k: nat)
    requires
        valid_utf8(b),
        matches_wf(ms, b),
        k <= ms.len(),
    ensures
        scan_placeholders(b, ms, es, k).1 == gap_start(ms, k as int),
        scan_placeholders(b, ms, es, k).2 == known_count(b, ms, es, k),
        scan_placeholders(b, ms, es, k).3 == k - known_count(b, ms, es, k),
        scan_placeholders(b, ms, es, k).0.len() == gap_start(ms, k as int) + growth(b, ms, es, k),
        valid_utf8(scan_placeholders(b, ms, es, k).0),
        spliced_upto(b, ms, es, scan_placeholders(b, ms, es, k).0, k),
    decreases k,
{
    if k == 0 {
        assert(valid_utf8(encode_utf8(Seq::<char>::empty())));
        assert(encode_utf8(Seq::<char>::empty()) =~= Seq::<u8>::empty());
    } else {
        let k1 = (k - 1) as nat;
        lemma_scan_splices(b, ms, es, k1);
        let p = scan_placeholders(b, ms, es, k1);
        let m = ms[k - 1];
        assert(match_wf(m, b));
        if k >= 2 {
            assert(ms[k - 2].end <= ms[k - 1].start);
            assert(match_wf(ms[k - 2], b));
        } else {
            vstd::utf8::is_char_boundary_start_end_of_seq(b);
        }
        let gap = b.subrange(p.1, m.start as int);
        let r = restored_bytes(b, es, m);
        lemma_valid_between(b, p.1, m.start as int);
        match key_lookup(es, match_key(b, m)) {
            Some(o) => {
                encode_utf8_valid_utf8(o);
            },
            None => {
                lemma_valid_between(b, m.start as int, m.end as int);
                assert(b.subrange(p.1, m.end as int) =~= gap + r);
            },
        }
        vstd::utf8::valid_utf8_concat(p.0, gap);
        vstd::utf8::valid_utf8_concat(p.0 + gap, r);
        let out = p.0 + gap + r;
        assert(scan_placeholders(b, ms, es, k).0 =~= out);
        assert(out =~= p.0 + (gap + r));
        lemma_splice_extend(b, ms, es, p.0, gap + r, k1);
        assert(piece_at(b, ms, es, out, k - 1)) by {
            reveal(piece_at);
            assert(out.subrange(p.0.len() as int, (p.0.len() + gap.len()) as int) =~= gap);
            assert(out.subrange((p.0.len() + gap.len()) as int, out.len() as int) =~= r);
        }
        assert forall|j: int| 0 <= j < k implies #[trigger] piece_at(b, ms, es, out, j) by {
            if j < k - 1 {
                assert(piece_at(b, ms, es, p.0 + (gap + r), j));
            }
        }
    }
}

/// Demasking when no entry has a partially masked form: the result is the text with each
/// placeholder that has an entry replaced by the entry's original, every other byte (the
/// placeholders without an entry among them) copied once and in order. Shifted by the growth
/// before it, the text since the previous placeholder and then what stands for the
/// placeholder come in turn; the text after the last placeholder ends the result; its length
/// is the text's plus the total growth. Every placeholder with an entry counts as restored,
/// every other one as unresolved.
/// (That the placeholders found are well formed and in order is what the pattern search
/// promises; `demask` states it of every text.)
pub proof fn law_demask_splices(text: Seq<char>, es: Seq<MappingEntry>)
    requires
        matches_wf(placeholder_matches_of(text), encode_utf8(text)),
        forall|i: int| 0 <= i < es.len() ==> (#[trigger] es[i]).masked is None,
    ensures
        ({
            let b = encode_utf8(text);
            let ms = placeholder_matches_of(text);
            let n = ms.len();
            let out = encode_utf8(demask_text(text, es));
            &&& out.len() == b.len() + growth(b, ms, es, n)
            &&& spliced_upto(b, ms, es, out, n)
            &&& out.subrange(gap_start(ms, n as int) + growth(b, ms, es, n), out.len() as int) == b.subrange(
                gap_start(ms, n as int),
                b.len() as int,
            )
            &&& demask_restored(text, es) == known_count(b, ms, es, n)
            &&& demask_unresolved(text, es) == n - known_count(b, ms, es, n)
        }),
{
    let b = encode_utf8(text);
    let ms = placeholder_matches_of(text);
    let n = ms.len();
    encode_utf8_valid_utf8(text);
    lemma_scan_splices(b, ms, es, n);
    let p = scan_placeholders(b, ms, es, n);
    if n > 0 {
        assert(match_wf(ms[n - 1], b));
    } else {
        vstd::utf8::is_char_boundary_start_end_of_seq(b);
    }
    vstd::utf8::is_char_boundary_start_end_of_seq(b);
    let tail = b.subrange(p.1, b.len() as int);
    lemma_valid_between(b, p.1, b.len() as int);
    vstd::utf8::valid_utf8_concat(p.0, tail);
    let whole = p.0 + tail;
    vstd::utf8::decode_utf8_encode_utf8(whole);
    lemma_restore_unmasked(decode_utf8(whole), es, es.len());
    assert(encode_utf8(demask_text(text, es)) == whole);
    lemma_splice_extend(b, ms, es, p.0, tail, n);
    assert(whole.subrange(p.0.len() as int, whole.len() as int) =~= tail);
}

} // verus!
