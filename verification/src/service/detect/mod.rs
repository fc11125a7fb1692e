pub mod address;
pub mod card;
pub mod citizenship;
pub mod context;
pub mod dates;
pub mod documents;
pub mod email;
pub mod fio;
pub mod inn;
pub mod passport;
pub mod phone;
pub mod snils;
pub mod structured;
pub mod validators;

use vstd::prelude::*;
use vstd::utf8::{decode_utf8, encode_utf8, encode_utf8_decode_utf8};

use crate::config::model::{names_of, DetectorConfig};
use crate::domain::traits::EffectivePolicy;
use crate::domain::document::Document;
use crate::domain::entity::{Candidate, DetectorSource, Signal, SignalFlags};
use crate::domain::pd_type::PdType;
use crate::infra::pattern::{captures_view, captures_wf, group_ok, named_group, regex_captures, whole, Pattern};
use crate::service::detect::context::{boundary_spec, is_boundary, lower_score, raise_score, window, window_bounds};
use crate::service::detect::validators::{
    date_result, get_validator, inn_result, luhn_result, snils_result, ValidationResult, ValidatorKind,
};
use crate::service::pipeline::orig_span;
use crate::service::detect::context::{has_any_prefix, has_any_word, has_word_spec, piece_starts_with};
use crate::textops::{byte_len, seq_contains_seq, str_byte_len, str_contains_any, str_contains_any_string, str_slice};

verus! {

/// The byte range of the value of a match: the value group when it took part, else the
/// whole match.
/// The names of a list of literal names.
pub open spec fn literal_names(names: Seq<&str>) -> Seq<Seq<char>> {
    Seq::new(names.len(), |i: int| names[i]@)
}

/// The kinds named by a list of names, in order.
pub fn kinds(names: Vec<&str>) -> (r: Vec<PdType>)
    ensures
        names_of(r@) == literal_names(names@),
{
    let mut out: Vec<PdType> = Vec::new();
    let mut i: usize = 0;
    while i < names.len()
        invariant
            i <= names@.len(),
            out@.len() == i,
            names_of(out@) == literal_names(names@).take(i as int),
        decreases names@.len() - i,
    {
        let ghost before = out@;
        let t = PdType::new(names[i]);
        out.push(t);
        assert forall|k: int| 0 <= k < i + 1 implies #[trigger] names_of(out@)[k] == literal_names(names@).take(i + 1)[k] by {
            if k < i {
                assert(out@[k] == before[k]);
                assert(names_of(before)[k] == literal_names(names@).take(i as int)[k]);
            }
        }
        assert(names_of(out@) =~= literal_names(names@).take(i + 1));
        i += 1;
    }
    assert(literal_names(names@).take(i as int) =~= literal_names(names@));
    out
}

/// A detector is run for a policy when one of the kinds it reports is masked by the policy
/// or is an organisation's tax number.
pub open spec fn relevant_spec(kinds: Seq<PdType>, policy: EffectivePolicy) -> bool {
    exists|i: int| 0 <= i < kinds.len() && (policy.masks(#[trigger] kinds[i]@) || kinds[i]@ == "ORG_INN"@)
}

/// Whether a detector reporting `kinds` is run for `policy`.
pub fn relevant(kinds: &Vec<PdType>, policy: &EffectivePolicy) -> (r: bool)
    ensures
        r == relevant_spec(kinds@, *policy),
{
    let mut i: usize = 0;
    while i < kinds.len()
        invariant
            i <= kinds@.len(),
            forall|k: int| 0 <= k < i ==> !policy.masks(#[trigger] kinds@[k]@) && kinds@[k]@ != "ORG_INN"@,
        decreases kinds@.len() - i,
    {
        if kinds[i].is("ORG_INN") {
            return true;
        }
        let mut j: usize = 0;
        while j < policy.types.len()
            invariant
                i < kinds@.len(),
                j <= policy.types@.len(),
                forall|k: int| 0 <= k < j ==> policy.types@[k]@ != kinds@[i as int]@,
            decreases policy.types@.len() - j,
        {
            if policy.types[j].same(&kinds[i]) {
                return true;
            }
            j += 1;
        }
        i += 1;
    }
    false
}

pub open spec fn value_range(m: Seq<Option<(usize, usize)>>, gi: Option<usize>) -> (usize, usize) {
    match gi {
        Some(g) => if g < m.len() && m[g as int] is Some {
            m[g as int]->Some_0
        } else {
            whole(m)
        },
        None => whole(m),
    }
}

/// The named validator accepts the value (only `luhn`, `inn`, `snils` and `date` are
/// consulted).
pub open spec fn checksum_ok(validator: Seq<char>, v: Seq<char>) -> bool {
    ||| validator == "luhn"@ && luhn_result(v) == ValidationResult::Valid
    ||| validator == "inn"@ && inn_result(v) == ValidationResult::Valid
    ||| validator == "snils"@ && snils_result(v) == ValidationResult::Valid
    ||| validator == "date"@ && date_result(v) == ValidationResult::Valid
}

/// One of the words occurs within 60 bytes before and 20 after the match.
pub open spec fn near_match(norm: Seq<char>, s: usize, e: usize, words: Seq<String>) -> bool {
    let lo = if s >= 60 {
        s - 60
    } else {
        0
    };
    let wb = window_bounds(norm, lo, e + 20);
    let w = decode_utf8(encode_utf8(norm).subrange(wb.0, wb.1));
    exists|k: int| 0 <= k < words.len() && seq_contains_seq(w, #[trigger] words[k]@)
}

/// The matches not glued to a word, in order.
pub open spec fn kept_matches(b: Seq<u8>, ms: Seq<Seq<Option<(usize, usize)>>>) -> Seq<Seq<Option<(usize, usize)>>>
    decreases ms.len(),
{
    if ms.len() == 0 {
        ms
    } else {
        let rest = kept_matches(b, ms.drop_last());
        if boundary_spec(b, whole(ms.last()).0 as int, whole(ms.last()).1 as int) {
            rest.push(ms.last())
        } else {
            rest
        }
    }
}

/// A detector declared in the configuration: a pattern, the group that holds the value,
/// an optional validator, a base score (thousandths) and context words.
pub struct ConfigRegexDetector {
    pub pd_type: PdType,
    pub re: Pattern,
    pub value_group: String,
    pub validator: String,
    pub base_score: u32,
    pub context_pos: Vec<String>,
    pub context_neg: Vec<String>,
    pub types: Vec<PdType>,
}

impl ConfigRegexDetector {
    /// The kinds of data this detector reports: its configured kind.
    pub fn types(&self) -> (r: Vec<PdType>)
        ensures
            names_of(r@) == seq![self.pd_type@],
    {
        let r = vec![self.pd_type.clone()];
        assert(names_of(r@) =~= seq![self.pd_type@]);
        r
    }


    pub fn new(pd_type: PdType, cfg: &DetectorConfig, re: Pattern) -> (r: ConfigRegexDetector)
        ensures
            r.pd_type == pd_type,
            r.re@ == re@,
            r.value_group@ == cfg.value_group@,
            r.validator@ == cfg.validator@,
            r.base_score == cfg.base_score_permille,
            r.context_pos@ == cfg.context_pos@,
            r.context_neg@ == cfg.context_neg@,
            r.types@.len() == 1,
            r.types@[0] == pd_type,
    {
        ConfigRegexDetector {
            types: vec![pd_type.clone()],
            pd_type,
            re,
            value_group: cfg.value_group.clone(),
            validator: cfg.validator.clone(),
            base_score: cfg.base_score_permille,
            context_pos: cfg.context_pos.clone(),
            context_neg: cfg.context_neg.clone(),
        }
    }

    /// The candidate reported for a match `m`, the value group being `gi`.
    pub open spec fn candidate_for(&self, doc: Document, gi: Option<usize>, m: Seq<Option<(usize, usize)>>, c: Candidate) -> bool {
        let b = encode_utf8(doc.norm@);
        let w = whole(m);
        let v = value_range(m, gi);
        let ck = checksum_ok(self.validator@, decode_utf8(b.subrange(v.0 as int, v.1 as int)));
        let pos = near_match(doc.norm@, w.0, w.1, self.context_pos@);
        let neg = near_match(doc.norm@, w.0, w.1, self.context_neg@);
        let s1 = if pos {
            raise_score(self.base_score)
        } else {
            self.base_score
        };
        &&& c.pd_type == self.pd_type
        &&& c.span == orig_span(doc, v.0, v.1)
        &&& c.score == if neg {
            lower_score(s1)
        } else {
            s1
        }
        &&& c.source matches DetectorSource::Custom { id } && id@ == "config_regex"@
        &&& c.components@.len() == 0
        &&& c.signals == SignalFlags { checksum_ok: ck, context_pos: pos, context_neg: neg, ..SignalFlags::empty_spec() }
    }

    /// `out` is `old` followed by one candidate per match not glued to a word.
    pub open spec fn reported(&self, doc: Document, gi: Option<usize>, ms: Seq<Seq<Option<(usize, usize)>>>, old: Seq<Candidate>, out: Seq<Candidate>) -> bool {
        let ks = kept_matches(encode_utf8(doc.norm@), ms);
        &&& out.len() == old.len() + ks.len()
        &&& forall|k: int| 0 <= k < old.len() ==> #[trigger] out[k] == old[k]
        &&& forall|k: int| 0 <= k < ks.len() ==> self.candidate_for(doc, gi, ks[k], #[trigger] out[old.len() + k])
    }

    /// Reports a candidate for each match of the pattern in the normalized text.
    pub fn detect(&self, doc: &Document<'_>, out: &mut Vec<Candidate>)
        requires
            doc.wf(),
        ensures
            self.reported(*doc, named_group(self.re@, self.value_group@), regex_captures(self.re@, doc.norm@), old(out)@, final(out)@),
    {
        let ms = self.re.captures(doc.norm.as_str());
        let gi = self.re.group_index(self.value_group.as_str());
        self.detect_in(doc, gi, &ms, out);
    }

    /// What follows the search, given the value group and the matches on the normalized
    /// text.
    pub fn detect_in(&self, doc: &Document<'_>, gi: Option<usize>, ms: &Vec<Vec<Option<(usize, usize)>>>, out: &mut Vec<Candidate>)
        requires
            doc.wf(),
            captures_wf(captures_view(*ms), encode_utf8(doc.norm@)),
        ensures
            self.reported(*doc, gi, captures_view(*ms), old(out)@, final(out)@),
    {
        let _l = str_byte_len(doc.norm.as_str());
        let ghost b = encode_utf8(doc.norm@);
        let ghost cv = captures_view(*ms);
        let ghost old_out = out@;
        let kind = get_validator(self.validator.as_str());
        let kind = match kind {
            Some(ValidatorKind::PassportSeries) => None,
            k => k,
        };
        let mut i: usize = 0;
        while i < ms.len()
            invariant
                doc.wf(),
                b == encode_utf8(doc.norm@),
                cv == captures_view(*ms),
                captures_wf(cv, b),
                byte_len(doc.norm@) <= usize::MAX,
                i <= ms@.len(),
                kind == match get_validator_spec(self.validator@) {
                    Some(ValidatorKind::PassportSeries) => None,
                    k => k,
                },
                self.reported(*doc, gi, cv.take(i as int), old_out, out@),
            decreases ms.len() - i,
        {
            assert(cv[i as int] == ms@[i as int]@);
            assert(cv.take(i + 1).drop_last() =~= cv.take(i as int));
            assert(cv.take(i + 1).last() == cv[i as int]);
            let m = &ms[i];
            assert(group_ok(b, cv[i as int][0]));
            let (s, e) = match m[0] {
                Some(x) => x,
                None => (0, 0),
            };
            if is_boundary(doc, s, e) {
                let (vs, ve) = match gi {
                    Some(g) => if g < m.len() {
                        match m[g] {
                            Some(x) => x,
                            None => (s, e),
                        }
                    } else {
                        (s, e)
                    },
                    None => (s, e),
                };
                proof {
                    match gi {
                        Some(g) => {
                            if g < cv[i as int].len() {
                                assert(group_ok(b, cv[i as int][g as int]));
                            }
                        },
                        None => {},
                    }
                }
                assert((vs, ve) == value_range(cv[i as int], gi));
                let c = self.candidate(doc, kind, s, e, vs, ve);
                assert(self.candidate_for(*doc, gi, cv[i as int], c));
                let ghost before = out@;
                out.push(c);
                proof {
                    let ks = kept_matches(b, cv.take(i + 1));
                    assert(ks == kept_matches(b, cv.take(i as int)).push(cv[i as int]));
                    assert forall|k: int| 0 <= k < ks.len() implies self.candidate_for(*doc, gi, ks[k], #[trigger] out@[old_out.len() + k]) by {
                        if k < ks.len() - 1 {
                            assert(out@[old_out.len() + k] == before[old_out.len() + k]);
                        }
                    }
                }
            } else {
                assert(kept_matches(b, cv.take(i + 1)) == kept_matches(b, cv.take(i as int)));
            }
            i += 1;
        }
        assert(cv.take(i as int) =~= cv);
    }

    fn candidate(&self, doc: &Document<'_>, kind: Option<ValidatorKind>, s: usize, e: usize, vs: usize, ve: usize) -> (c: Candidate)
        requires
            doc.wf(),
            byte_len(doc.norm@) <= usize::MAX,
            group_ok(encode_utf8(doc.norm@), Some((s, e))),
            group_ok(encode_utf8(doc.norm@), Some((vs, ve))),
            kind == match get_validator_spec(self.validator@) {
                Some(ValidatorKind::PassportSeries) => None,
                k => k,
            },
        ensures
            ({
                let b = encode_utf8(doc.norm@);
                let ck = checksum_ok(self.validator@, decode_utf8(b.subrange(vs as int, ve as int)));
                let pos = near_match(doc.norm@, s, e, self.context_pos@);
                let neg = near_match(doc.norm@, s, e, self.context_neg@);
                let s1 = if pos {
                    raise_score(self.base_score)
                } else {
                    self.base_score
                };
                &&& c.pd_type == self.pd_type
                &&& c.span == orig_span(*doc, vs, ve)
                &&& c.score == if neg {
                    lower_score(s1)
                } else {
                    s1
                }
                &&& c.source matches DetectorSource::Custom { id } && id@ == "config_regex"@
                &&& c.components@.len() == 0
                &&& c.signals == SignalFlags { checksum_ok: ck, context_pos: pos, context_neg: neg, ..SignalFlags::empty_spec() }
            }),
    {
        let value = str_slice(doc.norm.as_str(), vs, ve);
        proof {
            encode_utf8_decode_utf8(value@);
        }
        let span = doc.to_original(vs, ve);
        let mut cand = Candidate::new(self.pd_type.clone(), span, self.base_score, DetectorSource::Custom { id: "config_regex".to_string() });
        let ok = match kind {
            Some(k) => k.validate(value) == ValidationResult::Valid,
            None => false,
        };
        proof {
            reveal_strlit("luhn");
            reveal_strlit("inn");
            reveal_strlit("snils");
            reveal_strlit("date");
            reveal_strlit("passport_series");
            assert("inn"@.len() == 3);
            assert("luhn"@.len() == 4);
            assert("snils"@.len() == 5);
            assert("inn"@ != "luhn"@);
            assert("snils"@ != "luhn"@);
            assert("snils"@ != "inn"@);
            assert("date"@[0] != "luhn"@[0]);
            assert("date"@ != "luhn"@);
            assert("date"@.len() == 4);
        }
        assert(self.validator@ == "luhn"@ ==> kind == Some(ValidatorKind::Luhn));
        assert(self.validator@ == "luhn"@ ==> ok == (luhn_result(value@) == ValidationResult::Valid));
        assert(self.validator@ == "inn"@ ==> ok == (inn_result(value@) == ValidationResult::Valid));
        assert(self.validator@ == "snils"@ ==> ok == (snils_result(value@) == ValidationResult::Valid));
        assert(self.validator@ == "date"@ ==> ok == (date_result(value@) == ValidationResult::Valid));
        assert(self.validator@ != "luhn"@ && self.validator@ != "inn"@ && self.validator@ != "snils"@ && self.validator@ != "date"@ ==> !ok);
        assert(ok == checksum_ok(self.validator@, value@));
        if ok {
            cand.signals.insert(Signal::ChecksumOk);
        }
        let pos = self.near(doc, s, e, &self.context_pos);
        if pos {
            cand.score = if cand.score >= 650 {
                1000
            } else {
                cand.score + 350
            };
            cand.signals.insert(Signal::ContextPos);
        }
        let neg = self.near(doc, s, e, &self.context_neg);
        if neg {
            cand.score = if cand.score >= 500 {
                cand.score - 500
            } else {
                0
            };
            cand.signals.insert(Signal::ContextNeg);
        }
        assert(cand.signals.has(Signal::ChecksumOk) == ok && cand.signals.has(Signal::ContextPos) == pos
            && cand.signals.has(Signal::ContextNeg) == neg && !cand.signals.has(Signal::DictHit)
            && !cand.signals.has(Signal::CapitalizedOriginal) && !cand.signals.has(Signal::Validated));
        cand
    }

    fn near(&self, doc: &Document<'_>, s: usize, e: usize, words: &Vec<String>) -> (r: bool)
        requires
            s <= e,
            byte_len(doc.norm@) <= usize::MAX,
        ensures
            r == near_match(doc.norm@, s, e, words@),
    {
        let lo = s.saturating_sub(60);
        let hi = e.saturating_add(20);
        let w = window(doc, lo, hi);
        proof {
            encode_utf8_decode_utf8(w@);
            assert(window_bounds(doc.norm@, lo as int, hi as int) == window_bounds(doc.norm@, lo as int, e + 20));
        }
        str_contains_any_string(w, words.as_slice())
    }
}

/// `get_validator`'s answer.
pub open spec fn get_validator_spec(name: Seq<char>) -> Option<ValidatorKind> {
    if name == "luhn"@ {
        Some(ValidatorKind::Luhn)
    } else if name == "inn"@ {
        Some(ValidatorKind::Inn)
    } else if name == "snils"@ {
        Some(ValidatorKind::Snils)
    } else if name == "date"@ {
        Some(ValidatorKind::Date)
    } else if name == "passport_series"@ {
        Some(ValidatorKind::PassportSeries)
    } else {
        None
    }
}


/// A value found by a pattern: its type, its byte range in the normalized text, its score
/// (thousandths) and its signals.
pub struct Hit {
    pub pd_type: Seq<char>,
    pub start: usize,
    pub end: usize,
    pub score: u32,
    pub signals: SignalFlags,
}

/// The candidate reports the hit, its source being the pattern (or the checksum) `id`.
pub open spec fn hit_candidate(doc: Document, c: Candidate, checksum: bool, id: Seq<char>, h: Hit) -> bool {
    &&& c.pd_type@ == h.pd_type
    &&& c.span == orig_span(doc, h.start, h.end)
    &&& c.score == h.score
    &&& if checksum {
        c.source matches DetectorSource::Checksum { id: i } && i@ == id
    } else {
        c.source matches DetectorSource::Regex { id: i } && i@ == id
    }
    &&& c.components@.len() == 0
    &&& c.signals == h.signals
}

/// `out` is `old` followed by one candidate per hit.
pub open spec fn hits_pushed(doc: Document, checksum: bool, id: Seq<char>, old: Seq<Candidate>, out: Seq<Candidate>, hs: Seq<Hit>) -> bool {
    &&& out.len() == old.len() + hs.len()
    &&& forall|k: int| 0 <= k < old.len() ==> #[trigger] out[k] == old[k]
    &&& forall|k: int| 0 <= k < hs.len() ==> hit_candidate(doc, #[trigger] out[old.len() + k], checksum, id, hs[k])
}

/// The hits of the matches, each match giving at most one, in order.
pub open spec fn collect_hits(ms: Seq<Seq<Option<(usize, usize)>>>, f: spec_fn(Seq<Option<(usize, usize)>>) -> Option<Hit>) -> Seq<Hit>
    decreases ms.len(),
{
    if ms.len() == 0 {
        Seq::empty()
    } else {
        let rest = collect_hits(ms.drop_last(), f);
        match f(ms.last()) {
            Some(h) => rest.push(h),
            None => rest,
        }
    }
}

/// Signals with the given flags set.
pub open spec fn signals_of(checksum_ok: bool, context_pos: bool, validated: bool) -> SignalFlags {
    SignalFlags { checksum_ok, context_pos, validated, ..SignalFlags::empty_spec() }
}

pub(crate) fn make_signals(checksum_ok: bool, context_pos: bool, validated: bool) -> (r: SignalFlags)
    ensures
        r == signals_of(checksum_ok, context_pos, validated),
{
    SignalFlags {
        checksum_ok,
        context_pos,
        context_neg: false,
        dict_hit: false,
        capitalized_original: false,
        validated,
    }
}

/// Pushes the candidate of a hit.
pub(crate) fn push_hit(
    doc: &Document<'_>,
    out: &mut Vec<Candidate>,
    pd: &str,
    checksum: bool,
    id: &str,
    start: usize,
    end: usize,
    score: u32,
    signals: SignalFlags,
    Ghost(old_out): Ghost<Seq<Candidate>>,
    Ghost(hs): Ghost<Seq<Hit>>,
)
    requires
        doc.wf(),
        hits_pushed(*doc, checksum, id@, old_out, old(out)@, hs),
    ensures
        hits_pushed(*doc, checksum, id@, old_out, final(out)@, hs.push(Hit { pd_type: pd@, start, end, score, signals })),
{
    let span = doc.to_original(start, end);
    let source = if checksum {
        DetectorSource::Checksum { id: id.to_string() }
    } else {
        DetectorSource::Regex { id: id.to_string() }
    };
    let mut cand = Candidate::new(PdType::new(pd), span, score, source);
    cand.signals = signals;
    let ghost before = out@;
    out.push(cand);
    proof {
        let h2 = hs.push(Hit { pd_type: pd@, start, end, score, signals });
        assert forall|k: int| 0 <= k < h2.len() implies hit_candidate(*doc, #[trigger] out@[old_out.len() + k], checksum, id@, h2[k]) by {
            if k < hs.len() {
                assert(out@[old_out.len() + k] == before[old_out.len() + k]);
            }
        }
    }
}

/// The text of a byte range of the normalized text.
pub open spec fn match_text(norm: Seq<char>, s: usize, e: usize) -> Seq<char> {
    decode_utf8(encode_utf8(norm).subrange(s as int, e as int))
}

pub(crate) fn match_str<'a>(doc: &'a Document<'_>, s: usize, e: usize) -> (r: &'a str)
    requires
        group_ok(encode_utf8(doc.norm@), Some((s, e))),
    ensures
        r@ == match_text(doc.norm@, s, e),
        byte_len(r@) == e - s,
{
    let r = str_slice(doc.norm.as_str(), s, e);
    proof {
        encode_utf8_decode_utf8(r@);
    }
    r
}

/// The context window of a match: 60 bytes before it and 20 after, widened to character
/// boundaries.
pub open spec fn near_text(norm: Seq<char>, s: usize, e: usize) -> Seq<char> {
    let lo = if s >= 60 {
        s - 60
    } else {
        0
    };
    let wb = window_bounds(norm, lo, e + 20);
    decode_utf8(encode_utf8(norm).subrange(wb.0, wb.1))
}

pub(crate) fn near_str<'a>(doc: &'a Document<'_>, s: usize, e: usize) -> (r: &'a str)
    requires
        s <= e,
    ensures
        r@ == near_text(doc.norm@, s, e),
{
    let _l = str_byte_len(doc.norm.as_str());
    let lo = s.saturating_sub(60);
    let hi = e.saturating_add(20);
    let w = window(doc, lo, hi);
    proof {
        encode_utf8_decode_utf8(w@);
        assert(window_bounds(doc.norm@, lo as int, hi as int) == window_bounds(doc.norm@, lo as int, e + 20));
    }
    w
}

/// The literal list holds exactly the given words.
pub open spec fn lists(words: Seq<&str>, ws: Seq<Seq<char>>) -> bool {
    &&& words.len() == ws.len()
    &&& forall|k: int| 0 <= k < words.len() ==> (#[trigger] words[k])@ == ws[k]
}

/// One of the words occurs in the text.
pub open spec fn contains_any(text: Seq<char>, ws: Seq<Seq<char>>) -> bool {
    exists|k: int| 0 <= k < ws.len() && seq_contains_seq(text, #[trigger] ws[k])
}

/// One of the words is a whole word of the text.
pub open spec fn has_any_word_spec(text: Seq<char>, ws: Seq<Seq<char>>) -> bool {
    exists|k: int| 0 <= k < ws.len() && has_word_spec(text, #[trigger] ws[k])
}

/// A word of the text starts with one of the stems.
pub open spec fn has_any_prefix_spec(text: Seq<char>, ws: Seq<Seq<char>>) -> bool {
    exists|k: int| 0 <= k < ws.len() && piece_starts_with(text, #[trigger] ws[k])
}

pub(crate) fn contains_any_of(text: &str, words: &Vec<&str>, Ghost(ws): Ghost<Seq<Seq<char>>>) -> (r: bool)
    requires
        lists(words@, ws),
    ensures
        r == contains_any(text@, ws),
{
    let r = str_contains_any(text, words.as_slice());
    proof {
        if r {
            let k = choose|k: int| 0 <= k < words@.len() && seq_contains_seq(text@, #[trigger] words@[k]@);
            assert(seq_contains_seq(text@, ws[k]));
        } else {
            assert forall|k: int| 0 <= k < ws.len() implies !seq_contains_seq(text@, #[trigger] ws[k]) by {
                assert(words@[k]@ == ws[k]);
            }
        }
    }
    r
}

pub(crate) fn any_word_of(text: &str, words: &Vec<&str>, Ghost(ws): Ghost<Seq<Seq<char>>>) -> (r: bool)
    requires
        lists(words@, ws),
    ensures
        r == has_any_word_spec(text@, ws),
{
    let r = has_any_word(text, words.as_slice());
    proof {
        if r {
            let k = choose|k: int| 0 <= k < words@.len() && has_word_spec(text@, #[trigger] words@[k]@);
            assert(has_word_spec(text@, ws[k]));
        } else {
            assert forall|k: int| 0 <= k < ws.len() implies !has_word_spec(text@, #[trigger] ws[k]) by {
                assert(words@[k]@ == ws[k]);
            }
        }
    }
    r
}

pub(crate) fn any_prefix_of(text: &str, words: &Vec<&str>, Ghost(ws): Ghost<Seq<Seq<char>>>) -> (r: bool)
    requires
        lists(words@, ws),
    ensures
        r == has_any_prefix_spec(text@, ws),
{
    let r = has_any_prefix(text, words.as_slice());
    proof {
        if r {
            let k = choose|k: int| 0 <= k < words@.len() && piece_starts_with(text@, #[trigger] words@[k]@);
            assert(piece_starts_with(text@, ws[k]));
        } else {
            assert forall|k: int| 0 <= k < ws.len() implies !piece_starts_with(text@, #[trigger] ws[k]) by {
                assert(words@[k]@ == ws[k]);
            }
        }
    }
    r
}

} // verus!
