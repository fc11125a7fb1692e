//! Compiled regular expressions, and what a search with one reports.
use vstd::prelude::*;

use regex::Regex;
use vstd::utf8::{encode_utf8, is_char_boundary};

verus! {

#[verifier::external_type_specification]
#[verifier::external_body]
pub struct ExRegex(Regex);

#[verifier::external_type_specification]
#[verifier::external_body]
pub struct ExRegexError(regex::Error);

/// Whether `regex` accepts the pattern: it parses and stays within the default size limit.
pub uninterp spec fn regex_valid(source: Seq<char>) -> bool;

/// The matches that `captures_iter` reports for the pattern on the text: for each match,
/// the byte range of every group (group 0 is the whole match), `None` where a group did
/// not take part.
pub uninterp spec fn regex_captures(source: Seq<char>, text: Seq<char>) -> Seq<Seq<Option<(usize, usize)>>>;

/// The name of each group of the pattern, `None` for unnamed groups (group 0 included).
pub uninterp spec fn regex_group_names(source: Seq<char>) -> Seq<Option<Seq<char>>>;

/// A group range lies within the text, on character boundaries.
pub open spec fn group_ok(b: Seq<u8>, g: Option<(usize, usize)>) -> bool {
    g matches Some((s, e)) ==> s <= e <= b.len() && is_char_boundary(b, s as int)
        && is_char_boundary(b, e as int)
}

/// The start and end of a match (its group 0).
pub open spec fn whole(m: Seq<Option<(usize, usize)>>) -> (usize, usize) {
    m[0]->Some_0
}

/// What `captures_iter` guarantees of its matches: each has its group 0, every group
/// range lies on character boundaries of the text, and the matches do not overlap and come
/// left to right.
pub open spec fn captures_wf(ms: Seq<Seq<Option<(usize, usize)>>>, b: Seq<u8>) -> bool {
    &&& forall|i: int| 0 <= i < ms.len() ==> (#[trigger] ms[i]).len() >= 1 && ms[i][0] is Some
    &&& forall|i: int, k: int| 0 <= i < ms.len() && 0 <= k < ms[i].len() ==> group_ok(b, #[trigger] ms[i][k])
    &&& forall|i: int, j: int| 0 <= i < j < ms.len() ==> whole(#[trigger] ms[i]).1 <= whole(#[trigger] ms[j]).0
}

/// The first group of the pattern with this name, if any.
pub open spec fn named_group(source: Seq<char>, name: Seq<char>) -> Option<usize> {
    let ns = regex_group_names(source);
    if exists|i: int| 0 <= i < ns.len() && ns[i] == Some(name) {
        Some((choose|i: int| 0 <= i < ns.len() && ns[i] == Some(name) && forall|j: int| 0 <= j < i ==> ns[j] != Some(name)) as usize)
    } else {
        None
    }
}

pub open spec fn captures_view(v: Vec<Vec<Option<(usize, usize)>>>) -> Seq<Seq<Option<(usize, usize)>>> {
    v@.map_values(|m: Vec<Option<(usize, usize)>>| m@)
}

pub open spec fn names_view(v: Vec<Option<String>>) -> Seq<Option<Seq<char>>> {
    v@.map_values(|o: Option<String>| match o {
        Some(s) => Some(s@),
        None => None,
    })
}

/// `Regex::new`: succeeds exactly on the patterns the crate accepts.
#[verifier::external_body]
fn regex_new(source: &str) -> (r: Result<Regex, regex::Error>)
    ensures
        r is Ok == regex_valid(source@),
{
    Regex::new(source)
}

/// The text of a `regex::Error` (its `Display`).
#[verifier::external_body]
fn regex_error_text(e: &regex::Error) -> String {
    e.to_string()
}

/// `Regex::clone`: the same compiled expression.
#[verifier::external_body]
fn regex_clone(re: &Regex) -> Regex {
    re.clone()
}

/// A compiled regular expression, with the pattern it was compiled from.
pub struct Pattern {
    source: String,
    re: Regex,
}

impl View for Pattern {
    type V = Seq<char>;

    closed spec fn view(&self) -> Seq<char> {
        self.source@
    }
}

impl Clone for Pattern {
    fn clone(&self) -> (r: Self)
        ensures
            r@ == self@,
    {
        Pattern { source: self.source.clone(), re: regex_clone(&self.re) }
    }
}

impl Pattern {
    /// Compiles a pattern; the error carries the crate's message.
    pub fn compile(source: &str) -> (r: Result<Pattern, String>)
        ensures
            r is Ok == regex_valid(source@),
            r matches Ok(p) ==> p@ == source@,
    {
        match regex_new(source) {
            Ok(re) => Ok(Pattern { source: source.to_string(), re }),
            Err(e) => Err(regex_error_text(&e)),
        }
    }

    /// The pattern's text.
    pub fn as_str(&self) -> (r: &str)
        ensures
            r@ == self@,
    {
        self.source.as_str()
    }

    /// `Regex::captures_iter`, each match taken as the byte ranges of its groups.
    #[verifier::external_body]
    pub(crate) fn captures(&self, text: &str) -> (r: Vec<Vec<Option<(usize, usize)>>>)
        ensures
            captures_view(r) == regex_captures(self@, text@),
            captures_wf(captures_view(r), encode_utf8(text@)),
    {
        let mut out = Vec::new();
        for c in self.re.captures_iter(text) {
            out.push(c.iter().map(|g| g.map(|m| (m.start(), m.end()))).collect());
        }
        out
    }

    /// `Regex::capture_names`, each name taken as a `String`.
    #[verifier::external_body]
    fn group_names(&self) -> (r: Vec<Option<String>>)
        ensures
            names_view(r) == regex_group_names(self@),
    {
        self.re.capture_names().map(|n| n.map(|s| s.to_string())).collect()
    }

    /// The index of the first group with this name.
    pub fn group_index(&self, name: &str) -> (r: Option<usize>)
        ensures
            r == named_group(self@, name@),
    {
        let names = self.group_names();
        let ghost gn = regex_group_names(self@);
        let mut i: usize = 0;
        while i < names.len()
            invariant
                names_view(names) == gn,
                gn == regex_group_names(self@),
                gn.len() == names@.len(),
                i <= names@.len(),
                forall|j: int| 0 <= j < i ==> gn[j] != Some(name@),
            decreases names.len() - i,
        {
            assert(gn[i as int] == match names@[i as int] {
                Some(s) => Some(s@),
                None => None::<Seq<char>>,
            });
            let o = &names[i];
            if let Some(n) = o {
                if crate::textops::str_eq(n.as_str(), name) {
                    assert(names@[i as int] == Some(*n));
                    assert(gn[i as int] == Some(name@));
                    let ghost c = choose|c: int| 0 <= c < gn.len() && gn[c] == Some(name@) && forall|j: int| 0 <= j < c ==> gn[j] != Some(name@);
                    assert(c == i as int) by {
                        if c < i {
                        } else if c > i {
                            assert(gn[i as int] != Some(name@));
                        }
                    }
                    return Some(i);
                }
            }
            i += 1;
        }
        assert(!exists|i: int| 0 <= i < gn.len() && gn[i] == Some(name@));
        None
    }
}

} // verus!
