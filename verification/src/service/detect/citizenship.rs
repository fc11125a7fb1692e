//! Detection of citizenship: the value after `гражданство`, and phrases like `гражданин
//! Российской Федерации`, when they name a known country.
use vstd::prelude::*;

use crate::config::model::names_of;
use crate::service::detect::{kinds, literal_names};
use vstd::utf8::encode_utf8;

use crate::domain::document::Document;
use crate::domain::entity::Candidate;
use crate::domain::pd_type::PdType;
use crate::infra::pattern::{captures_view, captures_wf, group_ok, regex_captures, regex_valid, whole, Pattern};
use crate::service::detect::{collect_hits, hits_pushed, make_signals, match_str, match_text, push_hit, signals_of, Hit};
use crate::textops::{chars_contains, chars_eq, seq_contains_seq, str_chars, trim_chars, trim_spec};

verus! {

pub open spec fn value_source() -> Seq<char> {
    r"гражданство\s*:?\s*([а-яa-z\s]+)"@
}

pub open spec fn phrase_source() -> Seq<char> {
    r"граждан(ин|ка|е)\s+([а-яa-z\s]+)"@
}

/// Names of Russia accepted as a whole value.
pub open spec fn russia_names() -> Seq<Seq<char>> {
    seq!["рф"@, "россия"@, "российской федерации"@, "российская федерация"@]
}

/// The value names one of the countries.
pub open spec fn names_country(v: Seq<char>, countries: Seq<String>) -> bool {
    exists|k: int| 0 <= k < countries.len() && seq_contains_seq(v, #[trigger] countries[k]@)
}

/// The value group (1) of a `гражданство` match, trimmed, names a country or is a name of
/// Russia: the group's range is reported with score 0.9.
pub open spec fn value_hit(doc: Document, countries: Seq<String>, m: Seq<Option<(usize, usize)>>) -> Option<Hit> {
    if 1 < m.len() && m[1] is Some {
        let (s, e) = m[1]->Some_0;
        let v = trim_spec(match_text(doc.norm@, s, e));
        if v.len() > 0 && (names_country(v, countries) || russia_names().contains(v)) {
            Some(Hit { pd_type: PdType::CITIZENSHIP@, start: s, end: e, score: 900, signals: signals_of(false, true, false) })
        } else {
            None
        }
    } else {
        None
    }
}

/// The value group (2) of a phrase, trimmed, names a country or holds `российской`: the
/// whole phrase is reported with score 0.9.
pub open spec fn phrase_hit(doc: Document, countries: Seq<String>, m: Seq<Option<(usize, usize)>>) -> Option<Hit> {
    if 2 < m.len() && m[2] is Some {
        let (s, e) = m[2]->Some_0;
        let v = trim_spec(match_text(doc.norm@, s, e));
        if v.len() > 0 && (names_country(v, countries) || seq_contains_seq(v, "российской"@)) {
            Some(Hit {
                pd_type: PdType::CITIZENSHIP@,
                start: whole(m).0,
                end: whole(m).1,
                score: 900,
                signals: signals_of(false, true, false),
            })
        } else {
            None
        }
    } else {
        None
    }
}

/// Detector of citizenship, with the dictionary of countries.
pub struct CitizenshipDetector {
    pub re_value: Pattern,
    pub re_phrase: Pattern,
    pub countries: Vec<String>,
    pub types: Vec<PdType>,
}

impl CitizenshipDetector {
    pub fn new(countries: Vec<String>) -> (r: Option<CitizenshipDetector>)
        ensures
            r is Some == (regex_valid(value_source()) && regex_valid(phrase_source())),
            r matches Some(d) ==> d.re_value@ == value_source() && d.re_phrase@ == phrase_source() && d.countries@
                == countries@ && d.types@.len() == 1 && d.types@[0]@ == PdType::CITIZENSHIP@,
    {
        let re_value = match Pattern::compile(r"гражданство\s*:?\s*([а-яa-z\s]+)") {
            Ok(p) => p,
            Err(_) => return None,
        };
        let re_phrase = match Pattern::compile(r"граждан(ин|ка|е)\s+([а-яa-z\s]+)") {
            Ok(p) => p,
            Err(_) => return None,
        };
        Some(CitizenshipDetector { re_value, re_phrase, countries, types: vec![PdType::new(PdType::CITIZENSHIP)] })
    }

    /// All hits: values first, then phrases.
    pub open spec fn hits(&self, doc: Document, vms: Seq<Seq<Option<(usize, usize)>>>, pms: Seq<Seq<Option<(usize, usize)>>>) -> Seq<Hit> {
        collect_hits(vms, |m: Seq<Option<(usize, usize)>>| value_hit(doc, self.countries@, m)) + collect_hits(
            pms,
            |m: Seq<Option<(usize, usize)>>| phrase_hit(doc, self.countries@, m),
        )
    }

    pub fn detect(&self, doc: &Document<'_>, out: &mut Vec<Candidate>)
        requires
            doc.wf(),
        ensures
            hits_pushed(*doc, false, "citizenship"@, old(out)@, final(out)@, self.hits(
                *doc,
                regex_captures(self.re_value@, doc.norm@),
                regex_captures(self.re_phrase@, doc.norm@),
            )),
    {
        let vms = self.re_value.captures(doc.norm.as_str());
        let pms = self.re_phrase.captures(doc.norm.as_str());
        self.detect_in(doc, &vms, &pms, out);
    }

    fn names_country_exec(&self, v: &Vec<char>) -> (r: bool)
        ensures
            r == names_country(v@, self.countries@),
    {
        let mut k: usize = 0;
        while k < self.countries.len()
            invariant
                k <= self.countries@.len(),
                forall|j: int| 0 <= j < k ==> !seq_contains_seq(v@, #[trigger] self.countries@[j]@),
            decreases self.countries.len() - k,
        {
            let c = str_chars(self.countries[k].as_str());
            if chars_contains(v.as_slice(), c.as_slice()) {
                return true;
            }
            k += 1;
        }
        false
    }

    /// What follows the searches, given the matches of the value and phrase patterns.
    pub fn detect_in(
        &self,
        doc: &Document<'_>,
        vms: &Vec<Vec<Option<(usize, usize)>>>,
        pms: &Vec<Vec<Option<(usize, usize)>>>,
        out: &mut Vec<Candidate>,
    )
        requires
            doc.wf(),
            captures_wf(captures_view(*vms), encode_utf8(doc.norm@)),
            captures_wf(captures_view(*pms), encode_utf8(doc.norm@)),
        ensures
            hits_pushed(*doc, false, "citizenship"@, old(out)@, final(out)@, self.hits(*doc, captures_view(*vms), captures_view(*pms))),
    {
        let ghost old_out = out@;
        let ghost fv = |m: Seq<Option<(usize, usize)>>| value_hit(*doc, self.countries@, m);
        let ghost fp = |m: Seq<Option<(usize, usize)>>| phrase_hit(*doc, self.countries@, m);
        let ghost b = encode_utf8(doc.norm@);
        let ghost cv = captures_view(*vms);
        let names: Vec<&str> = vec!["рф", "россия", "российской федерации", "российская федерация"];
        let mut i: usize = 0;
        while i < vms.len()
            invariant
                doc.wf(),
                b == encode_utf8(doc.norm@),
                cv == captures_view(*vms),
                captures_wf(cv, b),
                names@.len() == 4,
                forall|k: int| 0 <= k < 4 ==> (#[trigger] names@[k])@ == russia_names()[k],
                fv == (|m: Seq<Option<(usize, usize)>>| value_hit(*doc, self.countries@, m)),
                i <= cv.len(),
                hits_pushed(*doc, false, "citizenship"@, old_out, out@, collect_hits(cv.take(i as int), fv)),
            decreases vms.len() - i,
        {
            assert(cv[i as int] == vms@[i as int]@);
            assert(cv.take(i + 1).drop_last() =~= cv.take(i as int));
            assert(cv.take(i + 1).last() == cv[i as int]);
            let ghost found = collect_hits(cv.take(i as int), fv);
            let m = &vms[i];
            if 1 < m.len() {
                match m[1] {
                    Some((s, e)) => {
                        assert(group_ok(b, cv[i as int][1]));
                        let v = trim_chars(str_chars(match_str(doc, s, e)).as_slice());
                        if v.len() > 0 {
                            let mut ok = self.names_country_exec(&v);
                            let mut k: usize = 0;
                            while k < names.len()
                                invariant
                                    names@.len() == 4,
                                    forall|x: int| 0 <= x < 4 ==> (#[trigger] names@[x])@ == russia_names()[x],
                                    k <= 4,
                                    ok == (names_country(v@, self.countries@) || exists|x: int| 0 <= x < k && russia_names()[x] == v@),
                                decreases names.len() - k,
                            {
                                let n = str_chars(names[k]);
                                if chars_eq(n.as_slice(), v.as_slice()) {
                                    ok = true;
                                }
                                k += 1;
                            }
                            if ok {
                                push_hit(doc, out, PdType::CITIZENSHIP, false, "citizenship", s, e, 900, make_signals(false, true, false), Ghost(old_out), Ghost(found));
                            }
                        }
                    },
                    None => {},
                }
            }
            i += 1;
        }
        assert(cv.take(i as int) =~= cv);
        let ghost base = collect_hits(cv, fv);
        let ghost cw = captures_view(*pms);
        let mut j: usize = 0;
        while j < pms.len()
            invariant
                doc.wf(),
                b == encode_utf8(doc.norm@),
                cw == captures_view(*pms),
                captures_wf(cw, b),
                fp == (|m: Seq<Option<(usize, usize)>>| phrase_hit(*doc, self.countries@, m)),
                j <= cw.len(),
                hits_pushed(*doc, false, "citizenship"@, old_out, out@, base + collect_hits(cw.take(j as int), fp)),
            decreases pms.len() - j,
        {
            assert(cw[j as int] == pms@[j as int]@);
            assert(cw.take(j + 1).drop_last() =~= cw.take(j as int));
            assert(cw.take(j + 1).last() == cw[j as int]);
            let ghost found = base + collect_hits(cw.take(j as int), fp);
            let m = &pms[j];
            if 2 < m.len() {
                match m[2] {
                    Some((s, e)) => {
                        assert(group_ok(b, cw[j as int][2]));
                        let v = trim_chars(str_chars(match_str(doc, s, e)).as_slice());
                        if v.len() > 0 {
                            let ru = str_chars("российской");
                            if self.names_country_exec(&v) || chars_contains(v.as_slice(), ru.as_slice()) {
                                let (ms, me) = match m[0] {
                                    Some(x) => x,
                                    None => (0, 0),
                                };
                                push_hit(doc, out, PdType::CITIZENSHIP, false, "citizenship", ms, me, 900, make_signals(false, true, false), Ghost(old_out), Ghost(found));
                                assert(found.push(phrase_hit(*doc, self.countries@, cw[j as int])->0) =~= base + collect_hits(cw.take(j + 1), fp));
                            }
                        }
                    },
                    None => {},
                }
            }
            j += 1;
        }
        assert(cw.take(j as int) =~= cw);
    }
}

impl CitizenshipDetector {
    /// The kinds of data this detector reports.
    pub fn types(&self) -> (r: Vec<PdType>)
        ensures
            names_of(r@) == seq!["CITIZENSHIP"@],
    {
        let names: Vec<&str> = vec!["CITIZENSHIP"];
        let r = kinds(names);
        assert(literal_names(names@) =~= seq!["CITIZENSHIP"@]);
        r
    }
}

} // verus!
