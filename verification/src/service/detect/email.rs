//! Detection of e-mail addresses.
use vstd::prelude::*;

use crate::config::model::names_of;
use crate::service::detect::{kinds, literal_names};
use vstd::utf8::encode_utf8;

use crate::domain::document::Document;
use crate::domain::entity::Candidate;
use crate::domain::pd_type::PdType;
use crate::infra::pattern::{captures_view, captures_wf, group_ok, regex_captures, regex_valid, whole, Pattern};
use crate::service::detect::context::{boundary_spec, is_boundary};
use crate::service::detect::{collect_hits, hits_pushed, make_signals, push_hit, signals_of, Hit};

verus! {

pub open spec fn email_source() -> Seq<char> {
    r"[a-z0-9._%+\-]+@[a-z0-9.\-]+\.[a-z]{2,24}"@
}

/// An address not glued to a word, with score 0.95.
pub open spec fn email_hit(doc: Document, m: Seq<Option<(usize, usize)>>) -> Option<Hit> {
    let (s, e) = whole(m);
    if boundary_spec(encode_utf8(doc.norm@), s as int, e as int) {
        Some(Hit { pd_type: PdType::EMAIL@, start: s, end: e, score: 950, signals: signals_of(false, false, false) })
    } else {
        None
    }
}

/// Detector of e-mail addresses.
pub struct EmailDetector {
    pub re: Pattern,
    pub types: Vec<PdType>,
}

impl EmailDetector {
    pub fn new() -> (r: Option<EmailDetector>)
        ensures
            r is Some == regex_valid(email_source()),
            r matches Some(d) ==> d.re@ == email_source() && d.types@.len() == 1 && d.types@[0]@ == PdType::EMAIL@,
    {
        match Pattern::compile(r"[a-z0-9._%+\-]+@[a-z0-9.\-]+\.[a-z]{2,24}") {
            Ok(re) => Some(EmailDetector { re, types: vec![PdType::new(PdType::EMAIL)] }),
            Err(_) => None,
        }
    }

    pub fn detect(&self, doc: &Document<'_>, out: &mut Vec<Candidate>)
        requires
            doc.wf(),
        ensures
            hits_pushed(*doc, false, "email"@, old(out)@, final(out)@, collect_hits(
                regex_captures(self.re@, doc.norm@),
                |m: Seq<Option<(usize, usize)>>| email_hit(*doc, m),
            )),
    {
        let ms = self.re.captures(doc.norm.as_str());
        detect_emails(doc, &ms, out);
    }
}

/// What follows the search for addresses, given its matches.
pub fn detect_emails(doc: &Document<'_>, ms: &Vec<Vec<Option<(usize, usize)>>>, out: &mut Vec<Candidate>)
    requires
        doc.wf(),
        captures_wf(captures_view(*ms), encode_utf8(doc.norm@)),
    ensures
        hits_pushed(*doc, false, "email"@, old(out)@, final(out)@, collect_hits(
            captures_view(*ms),
            |m: Seq<Option<(usize, usize)>>| email_hit(*doc, m),
        )),
{
    let ghost old_out = out@;
    let ghost f = |m: Seq<Option<(usize, usize)>>| email_hit(*doc, m);
    let ghost b = encode_utf8(doc.norm@);
    let ghost cv = captures_view(*ms);
    let mut i: usize = 0;
    while i < ms.len()
        invariant
            doc.wf(),
            b == encode_utf8(doc.norm@),
            cv == captures_view(*ms),
            captures_wf(cv, b),
            f == (|m: Seq<Option<(usize, usize)>>| email_hit(*doc, m)),
            i <= cv.len(),
            hits_pushed(*doc, false, "email"@, old_out, out@, collect_hits(cv.take(i as int), f)),
        decreases ms.len() - i,
    {
        assert(cv[i as int] == ms@[i as int]@);
        assert(cv.take(i + 1).drop_last() =~= cv.take(i as int));
        assert(cv.take(i + 1).last() == cv[i as int]);
        assert(group_ok(b, cv[i as int][0]));
        let ghost found = collect_hits(cv.take(i as int), f);
        let (s, e) = match ms[i][0] {
            Some(x) => x,
            None => (0, 0),
        };
        if is_boundary(doc, s, e) {
            push_hit(doc, out, PdType::EMAIL, false, "email", s, e, 950, make_signals(false, false, false), Ghost(old_out), Ghost(found));
        }
        i += 1;
    }
    assert(cv.take(i as int) =~= cv);
}

impl EmailDetector {
    /// The kinds of data this detector reports.
    pub fn types(&self) -> (r: Vec<PdType>)
        ensures
            names_of(r@) == seq!["EMAIL"@],
    {
        let names: Vec<&str> = vec!["EMAIL"];
        let r = kinds(names);
        assert(literal_names(names@) =~= seq!["EMAIL"@]);
        r
    }
}

} // verus!
