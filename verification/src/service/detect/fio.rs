//! Detection of full names: words are split at spaces and commas, marked by the dictionary
//! of first names and by the endings of patronymics and surnames, and runs of such words
//! are reported.
use vstd::prelude::*;

use crate::config::model::names_of;
use crate::service::detect::{kinds, literal_names};
use vstd::utf8::{decode_utf8, encode_utf8, encode_utf8_decode_utf8};

use crate::domain::document::{Document, Span};
use crate::domain::entity::{Candidate, DetectorSource, Signal, SignalFlags};
use crate::domain::pd_type::PdType;
use crate::service::detect::context::{window, window_bounds};
use crate::service::pipeline::{orig_span, span_ok, span_text};
use crate::textops::{
    byte_len, char_len_utf8, chars_eq, is_uppercase, lemma_byte_len_push, lemma_prefix_boundary,
    seq_contains_seq, seq_ends_with, str_byte_len, str_chars, str_contains_any, uppercase, utf8_len,
};

verus! {

/// Characters that separate words: ASCII whitespace and the comma.
pub open spec fn is_sep(c: char) -> bool {
    c == ' ' || c == '\t' || c == '\n' || c == '\x0C' || c == '\r' || c == ','
}

fn is_sep_char(c: char) -> (r: bool)
    ensures
        r == is_sep(c),
{
    c == ' ' || c == '\t' || c == '\n' || c == '\x0C' || c == '\r' || c == ','
}

/// Where the word that starts at `i` ends.
pub open spec fn word_end(t: Seq<char>, i: int) -> int
    decreases t.len() - i,
{
    if 0 <= i < t.len() && !is_sep(t[i]) {
        word_end(t, i + 1)
    } else {
        i
    }
}

pub proof fn lemma_word_end(t: Seq<char>, i: int)
    requires
        0 <= i <= t.len(),
    ensures
        i <= word_end(t, i) <= t.len(),
        i < t.len() && !is_sep(t[i]) ==> word_end(t, i) > i,
        forall|k: int| i <= k < word_end(t, i) ==> !is_sep(#[trigger] t[k]),
        word_end(t, i) < t.len() ==> is_sep(t[word_end(t, i)]),
    decreases t.len() - i,
{
    if i < t.len() && !is_sep(t[i]) {
        lemma_word_end(t, i + 1);
    }
}

/// Endings of patronymics, in every case.
pub open spec fn patronymic_suffixes() -> Seq<Seq<char>> {
    seq![
        "ович"@, "евич"@, "ич"@, "овна"@, "евна"@, "ична"@, "инична"@,
        "овича"@, "евича"@, "ича"@, "овны"@, "евны"@, "ичны"@,
        "овичу"@, "евичу"@, "ичу"@, "овной"@, "евной"@, "ичной"@,
        "овичем"@, "евичем"@, "ичем"@, "овне"@, "евне"@, "ичне"@,
        "оглы"@, "кызы"@, "улы"@,
    ]
}

/// Endings of surnames, in every case.
pub open spec fn surname_suffixes() -> Seq<Seq<char>> {
    seq![
        "ов"@, "ев"@, "ёв"@, "ин"@, "ын"@, "ский"@, "цкий"@, "ской"@, "цкой"@,
        "ова"@, "ева"@, "ина"@, "ына"@, "ская"@, "цкая"@, "енко"@, "ук"@, "юк"@,
        "ян"@, "дзе"@, "швили"@, "их"@, "ых"@, "ко"@,
        "ову"@, "еву"@, "ину"@, "ыну"@, "овым"@, "евым"@, "иным"@, "ыным"@,
        "ове"@, "еве"@, "ине"@, "ыне"@, "овой"@, "евой"@, "иной"@, "ыной"@,
    ]
}

/// Words near a lone surname that mark it as one.
pub open spec fn surname_context_words() -> Seq<Seq<char>> {
    seq![
        "клиент"@, "гражданин"@, "господин"@, "г-н"@, "г-жа"@, "фамилия"@, "фио"@,
        "заемщик"@, "получатель"@, "отправитель"@,
    ]
}

fn patronymic_list() -> (r: Vec<&'static str>)
    ensures
        r@.len() == patronymic_suffixes().len(),
        forall|k: int| 0 <= k < r@.len() ==> (#[trigger] r@[k])@ == patronymic_suffixes()[k],
{
    vec![
        "ович", "евич", "ич", "овна", "евна", "ична", "инична",
        "овича", "евича", "ича", "овны", "евны", "ичны",
        "овичу", "евичу", "ичу", "овной", "евной", "ичной",
        "овичем", "евичем", "ичем", "овне", "евне", "ичне",
        "оглы", "кызы", "улы",
    ]
}

fn surname_list() -> (r: Vec<&'static str>)
    ensures
        r@.len() == surname_suffixes().len(),
        forall|k: int| 0 <= k < r@.len() ==> (#[trigger] r@[k])@ == surname_suffixes()[k],
{
    vec![
        "ов", "ев", "ёв", "ин", "ын", "ский", "цкий", "ской", "цкой",
        "ова", "ева", "ина", "ына", "ская", "цкая", "енко", "ук", "юк",
        "ян", "дзе", "швили", "их", "ых", "ко",
        "ову", "еву", "ину", "ыну", "овым", "евым", "иным", "ыным",
        "ове", "еве", "ине", "ыне", "овой", "евой", "иной", "ыной",
    ]
}

fn surname_context_list() -> (r: Vec<&'static str>)
    ensures
        r@.len() == surname_context_words().len(),
        forall|k: int| 0 <= k < r@.len() ==> (#[trigger] r@[k])@ == surname_context_words()[k],
{
    vec!["клиент", "гражданин", "господин", "г-н", "г-жа", "фамилия", "фио", "заемщик", "получатель", "отправитель"]
}

/// The word ends with one of the suffixes.
pub open spec fn ends_with_any(w: Seq<char>, sufs: Seq<Seq<char>>) -> bool {
    exists|k: int| 0 <= k < sufs.len() && seq_ends_with(w, #[trigger] sufs[k])
}

/// Initials: a letter, a dot, a letter, a dot.
pub open spec fn initials_spec(w: Seq<char>) -> bool {
    w.len() == 4 && w[1] == '.' && w[3] == '.'
}

/// The text of the normalized range `[s, e)` starts, in the original, with a capital.
pub open spec fn capitalized_at(doc: Document, s: usize, e: usize) -> bool {
    let o = span_text(encode_utf8(doc.original@), orig_span(doc, s, e));
    o.len() > 0 && uppercase(o[0])
}

/// A word of the normalized text: its character range, its byte range, and its marks.
pub struct Token {
    pub cs: usize,
    pub ce: usize,
    pub start: usize,
    pub end: usize,
    pub initials: bool,
    pub name: bool,
    pub patronymic: bool,
    pub surname: bool,
    pub capitalized: bool,
}

/// The word at characters `[i, j)` of the normalized text, with its marks.
pub open spec fn tok_at(names: Seq<Seq<char>>, doc: Document, i: int, j: int) -> Token {
    let t = doc.norm@;
    let w = t.subrange(i, j);
    let s = byte_len(t.take(i)) as usize;
    let e = byte_len(t.take(j)) as usize;
    Token {
        cs: i as usize,
        ce: j as usize,
        start: s,
        end: e,
        initials: initials_spec(w),
        name: names.contains(w),
        patronymic: ends_with_any(w, patronymic_suffixes()),
        surname: ends_with_any(w, surname_suffixes()),
        capitalized: capitalized_at(doc, s, e),
    }
}

pub open spec fn marked(t: Token) -> bool {
    t.initials || t.name || t.patronymic || t.surname || t.capitalized
}

/// The marked words of the normalized text from character `i` on.
pub open spec fn toks_from(names: Seq<Seq<char>>, doc: Document, i: int) -> Seq<Token>
    decreases doc.norm@.len() - i,
{
    let t = doc.norm@;
    if i < 0 || i >= t.len() {
        Seq::empty()
    } else if is_sep(t[i]) {
        toks_from(names, doc, i + 1)
    } else {
        let j = word_end(t, i);
        proof {
            lemma_word_end(t, i);
        }
        let tk = tok_at(names, doc, i, j);
        if marked(tk) {
            seq![tk] + toks_from(names, doc, j)
        } else {
            toks_from(names, doc, j)
        }
    }
}

/// Only spaces and commas stand between the two words.
pub open spec fn adjacent(t: Seq<char>, a: Token, b: Token) -> bool {
    &&& a.ce <= b.cs <= t.len()
    &&& forall|k: int| a.ce <= k < b.cs ==> #[trigger] t[k] == ' ' || t[k] == ','
}

/// Surname, first name, patronymic; or first name, patronymic, surname.
pub open spec fn full_name(t: Seq<char>, a: Token, b: Token, c: Token) -> bool {
    &&& (a.surname && b.name && c.patronymic) || (a.name && b.patronymic && c.surname)
    &&& adjacent(t, a, b)
    &&& adjacent(t, b, c)
}

pub open spec fn name_patronymic(t: Seq<char>, a: Token, b: Token) -> bool {
    a.name && b.patronymic && adjacent(t, a, b)
}

pub open spec fn with_initials(t: Seq<char>, a: Token, b: Token) -> bool {
    ((a.surname && b.initials) || (a.initials && b.surname)) && adjacent(t, a, b)
}

pub open spec fn name_and_surname(t: Seq<char>, a: Token, b: Token) -> bool {
    ((a.name && b.surname) || (a.surname && b.name)) && adjacent(t, a, b)
}

/// Score of a first name next to a surname: 0.8, or 0.9 when both are capitalized.
pub open spec fn pair_score(a: Token, b: Token) -> u32 {
    if a.capitalized && b.capitalized {
        900
    } else {
        800
    }
}

/// A context word occurs within 60 bytes before and 20 after the normalized range.
pub open spec fn surname_context(norm: Seq<char>, s: usize, e: usize) -> bool {
    let lo = if s >= 60 {
        s - 60
    } else {
        0
    };
    let wb = window_bounds(norm, lo, e + 20);
    let w = decode_utf8(encode_utf8(norm).subrange(wb.0, wb.1));
    exists|k: int| 0 <= k < surname_context_words().len() && seq_contains_seq(w, #[trigger] surname_context_words()[k])
}

/// The names found from the `i`-th marked word on, as normalized byte ranges with scores
/// in thousandths. At each word the longest pattern is tried first and the words it takes
/// are skipped.
pub open spec fn fio_from(doc: Document, ts: Seq<Token>, i: int) -> Seq<(usize, usize, u32)>
    decreases ts.len() - i,
{
    let t = doc.norm@;
    if i < 0 || i >= ts.len() {
        Seq::empty()
    } else if i + 2 < ts.len() && full_name(t, ts[i], ts[i + 1], ts[i + 2]) {
        seq![(ts[i].start, ts[i + 2].end, 950u32)] + fio_from(doc, ts, i + 3)
    } else if i + 1 < ts.len() && name_patronymic(t, ts[i], ts[i + 1]) {
        seq![(ts[i].start, ts[i + 1].end, 950u32)] + fio_from(doc, ts, i + 2)
    } else if i + 1 < ts.len() && with_initials(t, ts[i], ts[i + 1]) {
        seq![(ts[i].start, ts[i + 1].end, 900u32)] + fio_from(doc, ts, i + 2)
    } else if i + 1 < ts.len() && name_and_surname(t, ts[i], ts[i + 1]) {
        seq![(ts[i].start, ts[i + 1].end, pair_score(ts[i], ts[i + 1]))] + fio_from(doc, ts, i + 2)
    } else if ts[i].surname && surname_context(t, ts[i].start, ts[i].end) {
        seq![(ts[i].start, ts[i].end, 750u32)] + fio_from(doc, ts, i + 1)
    } else {
        fio_from(doc, ts, i + 1)
    }
}

/// The candidate reported for a name found at the normalized range `[s, e)`.
pub open spec fn fio_candidate(doc: Document, c: Candidate, h: (usize, usize, u32)) -> bool {
    &&& c.pd_type@ == PdType::FIO@
    &&& c.span == orig_span(doc, h.0, h.1)
    &&& c.score == h.2
    &&& c.source matches DetectorSource::Dictionary { id } && id@ == "fio"@
    &&& c.components@.len() == 0
    &&& c.signals == SignalFlags { dict_hit: true, ..SignalFlags::empty_spec() }
}

/// `out` is `old` followed by one candidate for each found name.
pub open spec fn appended(doc: Document, old: Seq<Candidate>, out: Seq<Candidate>, hs: Seq<(usize, usize, u32)>) -> bool {
    &&& out.len() == old.len() + hs.len()
    &&& forall|k: int| 0 <= k < old.len() ==> #[trigger] out[k] == old[k]
    &&& forall|k: int| 0 <= k < hs.len() ==> fio_candidate(doc, #[trigger] out[old.len() + k], hs[k])
}

/// Detector of full names, with the dictionary of first names it was made with.
pub struct FioDetector {
    pub first_names: Vec<String>,
    pub types: Vec<PdType>,
}

impl FioDetector {
    pub fn new(first_names: Vec<String>) -> (r: FioDetector)
        ensures
            r.first_names@ == first_names@,
            r.types@.len() == 1,
            r.types@[0]@ == PdType::FIO@,
    {
        FioDetector { first_names, types: vec![PdType::new(PdType::FIO)] }
    }

    /// The first names, as character sequences.
    pub open spec fn names(&self) -> Seq<Seq<char>> {
        self.first_names@.map_values(|s: String| s@)
    }

    fn is_name(&self, w: &[char]) -> (r: bool)
        ensures
            r == self.names().contains(w@),
    {
        let mut k: usize = 0;
        while k < self.first_names.len()
            invariant
                k <= self.first_names@.len(),
                forall|j: int| 0 <= j < k ==> self.names()[j] != w@,
            decreases self.first_names.len() - k,
        {
            let n = str_chars(self.first_names[k].as_str());
            if chars_eq(n.as_slice(), w) {
                assert(self.names()[k as int] == w@);
                return true;
            }
            k += 1;
        }
        false
    }

    /// The marked words of the normalized text.
    pub fn tokenize(&self, doc: &Document<'_>) -> (r: Vec<Token>)
        requires
            doc.wf(),
        ensures
            r@ == toks_from(self.names(), *doc, 0),
    {
        let t = str_chars(doc.norm.as_str());
        let total = str_byte_len(doc.norm.as_str());
        let ghost names = self.names();
        let mut tokens: Vec<Token> = Vec::new();
        let mut i: usize = 0;
        let mut off: usize = 0;
        while i < t.len()
            invariant
                t@ == doc.norm@,
                doc.wf(),
                names == self.names(),
                total == byte_len(t@),
                i <= t@.len(),
                off == byte_len(t@.take(i as int)),
                tokens@ + toks_from(names, *doc, i as int) == toks_from(names, *doc, 0),
            decreases t.len() - i,
        {
            if is_sep_char(t[i]) {
                proof {
                    assert(t@.take(i + 1) =~= t@.take(i as int).push(t@[i as int]));
                    lemma_byte_len_push(t@.take(i as int), t@[i as int]);
                    lemma_prefix_boundary(t@, i + 1);
                }
                off = off + char_len_utf8(t[i]);
                i += 1;
            } else {
                let cs = i;
                let start = off;
                proof {
                    lemma_word_end(t@, i as int);
                }
                while i < t.len() && !is_sep_char(t[i])
                    invariant
                        t@ == doc.norm@,
                        total == byte_len(t@),
                        cs <= i <= t@.len(),
                        off == byte_len(t@.take(i as int)),
                        word_end(t@, i as int) == word_end(t@, cs as int),
                    decreases t.len() - i,
                {
                    proof {
                        assert(t@.take(i + 1) =~= t@.take(i as int).push(t@[i as int]));
                        lemma_byte_len_push(t@.take(i as int), t@[i as int]);
                        lemma_prefix_boundary(t@, i + 1);
                    }
                    off = off + char_len_utf8(t[i]);
                    i += 1;
                }
                assert(i == word_end(t@, cs as int));
                let tok = self.make_token(doc, &t, cs, i, start, off);
                proof {
                    let rest = toks_from(names, *doc, i as int);
                    assert(toks_from(names, *doc, cs as int) == if marked(tok) {
                        seq![tok] + rest
                    } else {
                        rest
                    });
                }
                if tok.initials || tok.name || tok.patronymic || tok.surname || tok.capitalized {
                    let ghost before = tokens@;
                    tokens.push(tok);
                    assert(tokens@ + toks_from(names, *doc, i as int) =~= before + (seq![tok]
                        + toks_from(names, *doc, i as int)));
                }
            }
        }
        assert(toks_from(names, *doc, i as int) =~= Seq::<Token>::empty());
        assert(tokens@ + Seq::<Token>::empty() =~= tokens@);
        tokens
    }

    fn make_token(&self, doc: &Document<'_>, t: &Vec<char>, cs: usize, ce: usize, start: usize, end: usize) -> (r: Token)
        requires
            doc.wf(),
            t@ == doc.norm@,
            cs < ce <= t@.len(),
            start == byte_len(t@.take(cs as int)),
            end == byte_len(t@.take(ce as int)),
        ensures
            r == tok_at(self.names(), *doc, cs as int, ce as int),
    {
        let ghost w = t@.subrange(cs as int, ce as int);
        let mut wv: Vec<char> = Vec::new();
        let mut k: usize = cs;
        while k < ce
            invariant
                cs <= k <= ce <= t@.len(),
                wv@ == t@.subrange(cs as int, k as int),
            decreases ce - k,
        {
            wv.push(t[k]);
            k += 1;
            assert(wv@ =~= t@.subrange(cs as int, k as int));
        }
        let initials = ce - cs == 4 && t[cs + 1] == '.' && t[cs + 3] == '.';
        let name = self.is_name(wv.as_slice());
        let pl = patronymic_list();
        let sl = surname_list();
        let patronymic = ends_with_list(wv.as_slice(), &pl);
        let surname = ends_with_list(wv.as_slice(), &sl);
        let capitalized = starts_capitalized(doc, t, cs, ce, start, end);
        proof {
            if patronymic {
                let k = choose|k: int| 0 <= k < pl@.len() && seq_ends_with(w, #[trigger] pl@[k]@);
                assert(seq_ends_with(w, patronymic_suffixes()[k]));
            } else {
                assert forall|k: int| 0 <= k < patronymic_suffixes().len() implies !seq_ends_with(w, #[trigger] patronymic_suffixes()[k]) by {
                    assert(pl@[k]@ == patronymic_suffixes()[k]);
                }
            }
            if surname {
                let k = choose|k: int| 0 <= k < sl@.len() && seq_ends_with(w, #[trigger] sl@[k]@);
                assert(seq_ends_with(w, surname_suffixes()[k]));
            } else {
                assert forall|k: int| 0 <= k < surname_suffixes().len() implies !seq_ends_with(w, #[trigger] surname_suffixes()[k]) by {
                    assert(sl@[k]@ == surname_suffixes()[k]);
                }
            }
        }
        Token { cs, ce, start, end, initials, name, patronymic, surname, capitalized }
    }

    /// Reports the names found in the normalized text.
    pub fn detect(&self, doc: &Document<'_>, out: &mut Vec<Candidate>)
        requires
            doc.wf(),
        ensures
            appended(*doc, old(out)@, final(out)@, fio_from(*doc, toks_from(self.names(), *doc, 0), 0)),
    {
        let tokens = self.tokenize(doc);
        let ghost ts = tokens@;
        let ghost all = fio_from(*doc, ts, 0);
        let ghost old_out = out@;
        let ghost mut found: Seq<(usize, usize, u32)> = Seq::empty();
        let n = tokens.len();
        let mut i: usize = 0;
        let _total = str_byte_len(doc.norm.as_str());
        proof {
            lemma_tokens_wf(self.names(), *doc, 0);
        }
        while i < n
            invariant
                doc.wf(),
                ts == tokens@,
                n == ts.len(),
                i <= n,
                all == fio_from(*doc, ts, 0),
                found + fio_from(*doc, ts, i as int) == all,
                appended(*doc, old_out, out@, found),
                tokens_wf(ts),
            decreases n - i,
        {
            let ghost before = found;
            let t = doc.norm.as_str();
            if n - i > 2 && (tokens[i].surname && tokens[i + 1].name && tokens[i + 2].patronymic
                || tokens[i].name && tokens[i + 1].patronymic && tokens[i + 2].surname)
                && are_adjacent(doc, &tokens[i], &tokens[i + 1]) && are_adjacent(doc, &tokens[i + 1], &tokens[i + 2])
            {
                let h = (tokens[i].start, tokens[i + 2].end, 950u32);
                push_fio(doc, out, h.0, h.1, h.2, Ghost(old_out), Ghost(found));
                proof {
                    found = found.push(h);
                    assert(found + fio_from(*doc, ts, i + 3) =~= before + (seq![h] + fio_from(*doc, ts, i + 3)));
                }
                i += 3;
            } else if n - i > 1 && tokens[i].name && tokens[i + 1].patronymic && are_adjacent(doc, &tokens[i], &tokens[i + 1]) {
                let h = (tokens[i].start, tokens[i + 1].end, 950u32);
                push_fio(doc, out, h.0, h.1, h.2, Ghost(old_out), Ghost(found));
                proof {
                    found = found.push(h);
                    assert(found + fio_from(*doc, ts, i + 2) =~= before + (seq![h] + fio_from(*doc, ts, i + 2)));
                }
                i += 2;
            } else if n - i > 1 && (tokens[i].surname && tokens[i + 1].initials || tokens[i].initials && tokens[i + 1].surname)
                && are_adjacent(doc, &tokens[i], &tokens[i + 1])
            {
                let h = (tokens[i].start, tokens[i + 1].end, 900u32);
                push_fio(doc, out, h.0, h.1, h.2, Ghost(old_out), Ghost(found));
                proof {
                    found = found.push(h);
                    assert(found + fio_from(*doc, ts, i + 2) =~= before + (seq![h] + fio_from(*doc, ts, i + 2)));
                }
                i += 2;
            } else if n - i > 1 && (tokens[i].name && tokens[i + 1].surname || tokens[i].surname && tokens[i + 1].name)
                && are_adjacent(doc, &tokens[i], &tokens[i + 1])
            {
                let score: u32 = if tokens[i].capitalized && tokens[i + 1].capitalized {
                    900
                } else {
                    800
                };
                let h = (tokens[i].start, tokens[i + 1].end, score);
                push_fio(doc, out, h.0, h.1, h.2, Ghost(old_out), Ghost(found));
                proof {
                    found = found.push(h);
                    assert(found + fio_from(*doc, ts, i + 2) =~= before + (seq![h] + fio_from(*doc, ts, i + 2)));
                }
                i += 2;
            } else if tokens[i].surname && has_surname_context(doc, tokens[i].start, tokens[i].end) {
                let h = (tokens[i].start, tokens[i].end, 750u32);
                push_fio(doc, out, h.0, h.1, h.2, Ghost(old_out), Ghost(found));
                proof {
                    found = found.push(h);
                    assert(found + fio_from(*doc, ts, i + 1) =~= before + (seq![h] + fio_from(*doc, ts, i + 1)));
                }
                i += 1;
            } else {
                i += 1;
            }
        }
        assert(fio_from(*doc, ts, i as int) =~= Seq::<(usize, usize, u32)>::empty());
        assert(found =~= all);
    }
}

/// Every word's byte range is well ordered.
pub open spec fn tokens_wf(ts: Seq<Token>) -> bool {
    forall|k: int| 0 <= k < ts.len() ==> (#[trigger] ts[k]).start <= ts[k].end
}

proof fn lemma_tokens_wf(names: Seq<Seq<char>>, doc: Document, i: int)
    requires
        0 <= i <= doc.norm@.len(),
        byte_len(doc.norm@) <= usize::MAX,
    ensures
        tokens_wf(toks_from(names, doc, i)),
    decreases doc.norm@.len() - i,
{
    let t = doc.norm@;
    if i < t.len() {
        if is_sep(t[i]) {
            lemma_tokens_wf(names, doc, i + 1);
        } else {
            lemma_word_end(t, i);
            let j = word_end(t, i);
            lemma_tokens_wf(names, doc, j);
            let tk = tok_at(names, doc, i, j);
            let rest = toks_from(names, doc, j);
            lemma_prefix_le(t, i, j);
            lemma_prefix_boundary(t, j);
            if marked(tk) {
                let all = seq![tk] + rest;
                assert forall|k: int| 0 <= k < all.len() implies (#[trigger] all[k]).start <= all[k].end by {
                    if k > 0 {
                        assert(all[k] == rest[k - 1]);
                    }
                }
            }
        }
    }
}

/// The word ends with one of the suffixes of the list.
fn ends_with_list(w: &[char], sufs: &Vec<&'static str>) -> (r: bool)
    ensures
        r == exists|k: int| 0 <= k < sufs@.len() && seq_ends_with(w@, #[trigger] sufs@[k]@),
{
    let mut k: usize = 0;
    while k < sufs.len()
        invariant
            k <= sufs@.len(),
            forall|j: int| 0 <= j < k ==> !seq_ends_with(w@, #[trigger] sufs@[j]@),
        decreases sufs.len() - k,
    {
        let s = str_chars(sufs[k]);
        if s.len() <= w.len() {
            let off = w.len() - s.len();
            let mut x: usize = 0;
            let mut same = true;
            while x < s.len()
                invariant
                    off + s@.len() == w@.len(),
                    w@.len() <= usize::MAX,
                    x <= s@.len(),
                    same == forall|y: int| 0 <= y < x ==> w@[off + y] == s@[y],
                decreases s.len() - x,
            {
                if w[off + x] != s[x] {
                    same = false;
                }
                x += 1;
            }
            if same {
                assert(w@.subrange(w@.len() - s@.len(), w@.len() as int) =~= s@);
                return true;
            } else {
                assert(!(w@.subrange(w@.len() - s@.len(), w@.len() as int) =~= s@));
            }
        }
        k += 1;
    }
    false
}

/// The original text of the normalized range starts with a capital.
fn starts_capitalized(doc: &Document<'_>, t: &Vec<char>, cs: usize, ce: usize, start: usize, end: usize) -> (r: bool)
    requires
        doc.wf(),
        t@ == doc.norm@,
        cs <= ce <= t@.len(),
        start == byte_len(t@.take(cs as int)),
        end == byte_len(t@.take(ce as int)),
    ensures
        r == capitalized_at(*doc, start, end),
{
    proof {
        lemma_prefix_boundary(t@, cs as int);
        lemma_prefix_boundary(t@, ce as int);
        lemma_prefix_le(t@, cs as int, ce as int);
    }
    let span = doc.to_original(start, end);
    let o = doc.original_slice(span);
    proof {
        encode_utf8_decode_utf8(o@);
    }
    let oc = str_chars(o);
    oc.len() > 0 && is_uppercase(oc[0])
}

proof fn lemma_prefix_le(t: Seq<char>, i: int, j: int)
    requires
        0 <= i <= j <= t.len(),
    ensures
        byte_len(t.take(i)) <= byte_len(t.take(j)),
{
    assert(t.take(j).take(i) =~= t.take(i));
    lemma_prefix_boundary(t.take(j), i);
}

/// Only spaces and commas stand between the two words.
fn are_adjacent(doc: &Document<'_>, a: &Token, b: &Token) -> (r: bool)
    ensures
        r == adjacent(doc.norm@, *a, *b),
{
    if b.cs < a.ce {
        return false;
    }
    let t = str_chars(doc.norm.as_str());
    if b.cs > t.len() {
        return false;
    }
    let mut k: usize = a.ce;
    while k < b.cs
        invariant
            t@ == doc.norm@,
            a.ce <= k <= b.cs <= t@.len(),
            forall|x: int| a.ce <= x < k ==> #[trigger] t@[x] == ' ' || t@[x] == ',',
        decreases b.cs - k,
    {
        if t[k] != ' ' && t[k] != ',' {
            return false;
        }
        k += 1;
    }
    true
}

/// A context word near the normalized range.
fn has_surname_context(doc: &Document<'_>, start: usize, end: usize) -> (r: bool)
    requires
        start <= end,
    ensures
        r == surname_context(doc.norm@, start, end),
{
    let _l = str_byte_len(doc.norm.as_str());
    let lo = start.saturating_sub(60);
    let hi = end.saturating_add(20);
    let w = window(doc, lo, hi);
    proof {
        encode_utf8_decode_utf8(w@);
        assert(window_bounds(doc.norm@, lo as int, hi as int) == window_bounds(doc.norm@, lo as int, end + 20));
    }
    let words = surname_context_list();
    let r = str_contains_any(w, words.as_slice());
    proof {
        if r {
            let k = choose|k: int| 0 <= k < words@.len() && seq_contains_seq(w@, #[trigger] words@[k]@);
            assert(seq_contains_seq(w@, surname_context_words()[k]));
        } else {
            assert forall|k: int| 0 <= k < surname_context_words().len() implies !seq_contains_seq(w@, #[trigger] surname_context_words()[k]) by {
                assert(words@[k]@ == surname_context_words()[k]);
            }
        }
    }
    r
}

fn push_fio(doc: &Document<'_>, out: &mut Vec<Candidate>, start: usize, end: usize, score: u32, Ghost(old_out): Ghost<Seq<Candidate>>, Ghost(found): Ghost<Seq<(usize, usize, u32)>>)
    requires
        doc.wf(),
        appended(*doc, old_out, old(out)@, found),
    ensures
        appended(*doc, old_out, final(out)@, found.push((start, end, score))),
{
    let span = doc.to_original(start, end);
    let mut cand = Candidate::new(PdType::new(PdType::FIO), span, score, DetectorSource::Dictionary { id: "fio".to_string() });
    cand.signals.insert(Signal::DictHit);
    assert(cand.signals.has(Signal::DictHit) && !cand.signals.has(Signal::ChecksumOk) && !cand.signals.has(Signal::ContextPos)
        && !cand.signals.has(Signal::ContextNeg) && !cand.signals.has(Signal::CapitalizedOriginal) && !cand.signals.has(Signal::Validated));
    assert(cand.signals == SignalFlags { dict_hit: true, ..SignalFlags::empty_spec() });
    out.push(cand);
    proof {
        let hs = found.push((start, end, score));
        assert forall|k: int| 0 <= k < hs.len() implies fio_candidate(*doc, #[trigger] out@[old_out.len() + k], hs[k]) by {
            if k < found.len() {
                assert(out@[old_out.len() + k] == old(out)@[old_out.len() + k]);
            }
        }
    }
}

impl FioDetector {
    /// The kinds of data this detector reports.
    pub fn types(&self) -> (r: Vec<PdType>)
        ensures
            names_of(r@) == seq!["FIO"@],
    {
        let names: Vec<&str> = vec!["FIO"];
        let r = kinds(names);
        assert(literal_names(names@) =~= seq!["FIO"@]);
        r
    }
}

} // verus!
