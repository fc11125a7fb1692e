//! A small syntax of JSON paths: `$`, `.key`, `["key"]`, `[*]`, `[n]`.
use vstd::prelude::*;

use crate::service::json_value::{items_view, lemma_view_parts, members_view, Json, JsonView};
use crate::textops::{decimal_value, is_ascii_digit, is_digit, str_chars, str_eq, string_from_chars, trim_chars, trim_spec};

verus! {

/// One step of a path.
#[derive(Debug)]
pub enum PathSegment {
    Key(String),
    Index(usize),
    All,
}

/// The value of a step.
pub enum SegView {
    Key(Seq<char>),
    Index(usize),
    All,
}

pub open spec fn seg_view(s: PathSegment) -> SegView {
    match s {
        PathSegment::Key(k) => SegView::Key(k@),
        PathSegment::Index(n) => SegView::Index(n),
        PathSegment::All => SegView::All,
    }
}

/// The values of the steps of a path.
pub open spec fn path_view(p: Seq<PathSegment>) -> Seq<SegView> {
    Seq::new(p.len(), |i: int| seg_view(p[i]))
}

/// The first position at or after `i` holding `x` or `y`, or the end.
pub open spec fn scan_until(c: Seq<char>, i: int, x: char, y: char) -> int
    decreases c.len() - i,
{
    if i >= c.len() || c[i] == x || c[i] == y {
        i
    } else {
        scan_until(c, i + 1, x, y)
    }
}

/// The first position at or after `i` that is not an ASCII digit, or the end.
pub open spec fn scan_digits(c: Seq<char>, i: int) -> int
    decreases c.len() - i,
{
    if i >= c.len() || !is_digit(c[i]) {
        i
    } else {
        scan_digits(c, i + 1)
    }
}

pub proof fn lemma_scan_until(c: Seq<char>, i: int, x: char, y: char)
    ensures
        i <= scan_until(c, i, x, y),
        i <= c.len() ==> scan_until(c, i, x, y) <= c.len(),
        forall|k: int| i <= k < scan_until(c, i, x, y) ==> c[k] != x && c[k] != y,
        scan_until(c, i, x, y) < c.len() ==> (c[scan_until(c, i, x, y)] == x || c[scan_until(c, i, x, y)] == y),
    decreases c.len() - i,
{
    if !(i >= c.len() || c[i] == x || c[i] == y) {
        lemma_scan_until(c, i + 1, x, y);
    }
}

pub proof fn lemma_scan_digits(c: Seq<char>, i: int)
    ensures
        i <= scan_digits(c, i),
        i <= c.len() ==> scan_digits(c, i) <= c.len(),
        forall|k: int| i <= k < scan_digits(c, i) ==> is_digit(#[trigger] c[k]),
        scan_digits(c, i) < c.len() ==> !is_digit(c[scan_digits(c, i)]),
    decreases c.len() - i,
{
    if !(i >= c.len() || !is_digit(c[i])) {
        lemma_scan_digits(c, i + 1);
    }
}

/// Past an optional `]` at `i`.
pub open spec fn skip_close(c: Seq<char>, i: int) -> int {
    if 0 <= i < c.len() && c[i] == ']' {
        i + 1
    } else {
        i
    }
}

/// The steps read from position `i` of the text after `$`, or nothing when a quoted key is
/// not closed or an index does not fit.
pub open spec fn parse_from(c: Seq<char>, i: int) -> Option<Seq<SegView>>
    decreases c.len() - i,
{
    if i < 0 || i >= c.len() {
        Some(Seq::empty())
    } else if c[i] == '.' {
        let j = scan_until(c, i + 1, '.', '[');
        proof {
            lemma_scan_until(c, i + 1, '.', '[');
        }
        if j <= i + 1 {
            parse_from(c, j)
        } else {
            match parse_from(c, j) {
                Some(rest) => Some(seq![SegView::Key(c.subrange(i + 1, j))] + rest),
                None => None,
            }
        }
    } else if c[i] == '[' {
        let i1 = i + 1;
        if i1 < c.len() && c[i1] == '"' {
            let j = scan_until(c, i1 + 1, '"', '"');
            proof {
                lemma_scan_until(c, i1 + 1, '"', '"');
            }
            if j >= c.len() {
                None
            } else {
                match parse_from(c, skip_close(c, j + 1)) {
                    Some(rest) => Some(seq![SegView::Key(c.subrange(i1 + 1, j))] + rest),
                    None => None,
                }
            }
        } else if i1 < c.len() && c[i1] == '*' {
            match parse_from(c, skip_close(c, i1 + 1)) {
                Some(rest) => Some(seq![SegView::All] + rest),
                None => None,
            }
        } else {
            let j = scan_digits(c, i1);
            proof {
                lemma_scan_digits(c, i1);
            }
            if j > i1 {
                let n = decimal_value(c.subrange(i1, j));
                if n > usize::MAX {
                    None
                } else {
                    match parse_from(c, skip_close(c, j)) {
                        Some(rest) => Some(seq![SegView::Index(n as usize)] + rest),
                        None => None,
                    }
                }
            } else {
                parse_from(c, skip_close(c, j))
            }
        }
    } else {
        parse_from(c, i + 1)
    }
}

/// The path a text denotes: after trimming, `$` and then the steps; nothing when it does
/// not start with `$`.
pub open spec fn parse_path_spec(s: Seq<char>) -> Option<Seq<SegView>> {
    let t = trim_spec(s);
    if t.len() == 0 || t[0] != '$' {
        None
    } else {
        parse_from(t.skip(1), 0)
    }
}

proof fn lemma_decimal_prefix(s: Seq<char>, k: int)
    requires
        0 <= k <= s.len(),
        forall|i: int| 0 <= i < s.len() ==> is_digit(#[trigger] s[i]),
    ensures
        decimal_value(s.take(k)) <= decimal_value(s),
        0 <= decimal_value(s.take(k)),
    decreases s.len() - k,
{
    if k < s.len() {
        lemma_decimal_prefix(s, k + 1);
        assert(s.take(k + 1).drop_last() =~= s.take(k));
        lemma_decimal_nonneg(s.take(k));
    } else {
        assert(s.take(k) =~= s);
        lemma_decimal_nonneg(s);
    }
}

proof fn lemma_decimal_nonneg(s: Seq<char>)
    requires
        forall|i: int| 0 <= i < s.len() ==> is_digit(#[trigger] s[i]),
    ensures
        decimal_value(s) >= 0,
    decreases s.len(),
{
    if s.len() > 0 {
        lemma_decimal_nonneg(s.drop_last());
        assert(is_digit(s[s.len() - 1]));
    }
}

/// The index a run of digits denotes, or nothing when it does not fit.
fn parse_index(c: &[char], a: usize, b: usize) -> (r: Option<usize>)
    requires
        a <= b <= c@.len(),
        forall|k: int| a <= k < b ==> is_digit(#[trigger] c@[k]),
    ensures
        decimal_value(c@.subrange(a as int, b as int)) <= usize::MAX ==> r == Some(decimal_value(c@.subrange(a as int, b as int)) as usize),
        decimal_value(c@.subrange(a as int, b as int)) > usize::MAX ==> r is None,
{
    let ghost d = c@.subrange(a as int, b as int);
    let mut v: usize = 0;
    let mut k: usize = a;
    while k < b
        invariant
            a <= k <= b <= c@.len(),
            d == c@.subrange(a as int, b as int),
            forall|x: int| a <= x < b ==> is_digit(#[trigger] c@[x]),
            v == decimal_value(d.take(k - a)),
        decreases b - k,
    {
        assert(d.take(k - a + 1).drop_last() =~= d.take(k - a));
        assert(d.take(k - a + 1).last() == c@[k as int]);
        let digit = (c[k] as u32 - 48) as usize;
        match v.checked_mul(10) {
            Some(m) => match m.checked_add(digit) {
                Some(n) => {
                    v = n;
                },
                None => {
                    proof {
                        assert forall|x: int| 0 <= x < d.len() implies is_digit(#[trigger] d[x]) by {
                            assert(d[x] == c@[a + x]);
                        }
                        lemma_decimal_prefix(d, k - a + 1);
                    }
                    return None;
                },
            },
            None => {
                proof {
                    assert forall|x: int| 0 <= x < d.len() implies is_digit(#[trigger] d[x]) by {
                        assert(d[x] == c@[a + x]);
                    }
                    lemma_decimal_prefix(d, k - a + 1);
                    lemma_decimal_nonneg(d.take(k - a));
                }
                return None;
            },
        }
        k += 1;
    }
    assert(d.take(b - a) =~= d);
    Some(v)
}

/// Parses a path such as `$.messages[*].content`; nothing when it does not start with `$`
/// (after trimming), has an unclosed quoted key, or an index that does not fit.
pub fn parse_path(s: &str) -> (r: Option<Vec<PathSegment>>)
    ensures
        match parse_path_spec(s@) {
            Some(p) => r matches Some(v) && path_view(v@) == p,
            None => r is None,
        },
{
    let sc = str_chars(s);
    let t = trim_chars(sc.as_slice());
    if t.len() == 0 || t[0] != '$' {
        return None;
    }
    let c = vstd::slice::slice_subrange(t.as_slice(), 1, t.len());
    let ghost cs = c@;
    assert(cs == t@.skip(1));
    assert(parse_path_spec(s@) == parse_from(cs, 0));
    let mut path: Vec<PathSegment> = Vec::new();
    let mut i: usize = 0;
    while i < c.len()
        invariant
            cs == c@,
            i <= cs.len(),
            parse_path_spec(s@) == parse_from(cs, 0),
            parse_from(cs, 0) == match parse_from(cs, i as int) {
                Some(rest) => Some(path_view(path@) + rest),
                None => None::<Seq<SegView>>,
            },
        decreases cs.len() - i,
    {
        let ghost before = path@;
        if c[i] == '.' {
            proof {
                lemma_scan_until(cs, i + 1, '.', '[');
            }
            let start = i + 1;
            let mut j = start;
            while j < c.len() && c[j] != '.' && c[j] != '['
                invariant
                    cs == c@,
                    start <= j <= cs.len(),
                    scan_until(cs, start as int, '.', '[') == scan_until(cs, j as int, '.', '['),
                decreases cs.len() - j,
            {
                j += 1;
            }
            if j > start {
                let key = vstd::slice::slice_subrange(c, start, j);
                path.push(PathSegment::Key(string_from_chars(key)));
                proof {
                    assert(path_view(path@) =~= path_view(before).push(SegView::Key(cs.subrange(start as int, j as int))));
                    assert(forall|rest: Seq<SegView>| path_view(before) + (seq![SegView::Key(cs.subrange(start as int, j as int))] + rest) =~= path_view(path@) + rest);
                }
            }
            i = j;
        } else if c[i] == '[' {
            let i1 = i + 1;
            if i1 < c.len() && c[i1] == '"' {
                proof {
                    lemma_scan_until(cs, i1 + 1, '"', '"');
                }
                let start = i1 + 1;
                let mut j = start;
                while j < c.len() && c[j] != '"'
                    invariant
                        cs == c@,
                        start <= j <= cs.len(),
                        scan_until(cs, start as int, '"', '"') == scan_until(cs, j as int, '"', '"'),
                    decreases cs.len() - j,
                {
                    j += 1;
                }
                assert(j == scan_until(cs, start as int, '"', '"'));
                if j >= c.len() {
                    assert(parse_from(cs, i as int) is None);
                    return None;
                }
                let key = vstd::slice::slice_subrange(c, start, j);
                path.push(PathSegment::Key(string_from_chars(key)));
                proof {
                    assert(path_view(path@) =~= path_view(before).push(SegView::Key(cs.subrange(start as int, j as int))));
                    assert(forall|rest: Seq<SegView>| path_view(before) + (seq![SegView::Key(cs.subrange(start as int, j as int))] + rest) =~= path_view(path@) + rest);
                }
                let mut k = j + 1;
                if k < c.len() && c[k] == ']' {
                    k += 1;
                }
                i = k;
            } else if i1 < c.len() && c[i1] == '*' {
                path.push(PathSegment::All);
                proof {
                    assert(path_view(path@) =~= path_view(before).push(SegView::All));
                    assert(forall|rest: Seq<SegView>| path_view(before) + (seq![SegView::All] + rest) =~= path_view(path@) + rest);
                }
                let mut k = i1 + 1;
                if k < c.len() && c[k] == ']' {
                    k += 1;
                }
                i = k;
            } else {
                proof {
                    lemma_scan_digits(cs, i1 as int);
                }
                let mut j = i1;
                while j < c.len() && is_ascii_digit(c[j])
                    invariant
                        cs == c@,
                        i1 <= j <= cs.len(),
                        scan_digits(cs, i1 as int) == scan_digits(cs, j as int),
                    decreases cs.len() - j,
                {
                    j += 1;
                }
                if j > i1 {
                    match parse_index(c, i1, j) {
                        Some(n) => {
                            path.push(PathSegment::Index(n));
                            proof {
                                assert(path_view(path@) =~= path_view(before).push(SegView::Index(n)));
                                assert(forall|rest: Seq<SegView>| path_view(before) + (seq![SegView::Index(n)] + rest) =~= path_view(path@) + rest);
                            }
                        },
                        None => {
                            assert(j == scan_digits(cs, i1 as int));
                            assert(parse_from(cs, i as int) is None);
                            return None;
                        },
                    }
                }
                let mut k = j;
                if k < c.len() && c[k] == ']' {
                    k += 1;
                }
                i = k;
            }
        } else {
            i += 1;
        }
    }
    assert(path_view(path@) + Seq::<SegView>::empty() =~= path_view(path@));
    Some(path)
}


/// The position of the first member named `k`, or the number of members.
pub open spec fn member_index(es: Seq<(Seq<char>, JsonView)>, k: Seq<char>) -> int
    decreases es.len(),
{
    if es.len() == 0 {
        0
    } else if es[0].0 == k {
        0
    } else {
        1 + member_index(es.drop_first(), k)
    }
}

pub proof fn lemma_member_index(es: Seq<(Seq<char>, JsonView)>, k: Seq<char>)
    ensures
        0 <= member_index(es, k) <= es.len(),
        member_index(es, k) < es.len() ==> es[member_index(es, k)].0 == k,
        forall|j: int| 0 <= j < member_index(es, k) ==> es[j].0 != k,
    decreases es.len(),
{
    if es.len() > 0 && es[0].0 != k {
        lemma_member_index(es.drop_first(), k);
        assert forall|j: int| 0 <= j < member_index(es, k) implies es[j].0 != k by {
            if j > 0 {
                assert(es[j] == es.drop_first()[j - 1]);
            }
        }
    }
}

/// The position of a member depends on the keys alone.
pub proof fn lemma_member_index_keys(a: Seq<(Seq<char>, JsonView)>, b: Seq<(Seq<char>, JsonView)>, k: Seq<char>)
    requires
        a.len() == b.len(),
        forall|j: int| 0 <= j < a.len() ==> #[trigger] a[j].0 == b[j].0,
    ensures
        member_index(a, k) == member_index(b, k),
    decreases a.len(),
{
    if a.len() > 0 {
        assert(a[0].0 == b[0].0);
        assert forall|j: int| 0 <= j < a.drop_first().len() implies #[trigger] a.drop_first()[j].0 == b.drop_first()[j].0 by {
            assert(a[j + 1].0 == b[j + 1].0);
        }
        lemma_member_index_keys(a.drop_first(), b.drop_first(), k);
    }
}

/// The strings that the steps of `p` from `idx` on reach in `v`, in document order.
pub open spec fn extract_at(v: JsonView, p: Seq<SegView>, idx: nat) -> Seq<Seq<char>>
    decreases v, 1nat,
{
    if idx >= p.len() {
        match v {
            JsonView::Str(s) => seq![s],
            _ => Seq::empty(),
        }
    } else {
        match p[idx as int] {
            SegView::Key(k) => match v {
                JsonView::Object(es) => {
                    let i = member_index(es, k);
                    if 0 <= i < es.len() {
                        proof {
                            assert(decreases_to!(v => es));
                            assert(decreases_to!(es => es[i]));
                        }
                        extract_at(es[i].1, p, idx + 1)
                    } else {
                        Seq::empty()
                    }
                },
                _ => Seq::empty(),
            },
            SegView::Index(n) => match v {
                JsonView::Array(items) => if n < items.len() {
                    extract_at(items[n as int], p, idx + 1)
                } else {
                    Seq::empty()
                },
                _ => Seq::empty(),
            },
            SegView::All => match v {
                JsonView::Array(items) => extract_items(items, p, idx + 1),
                _ => Seq::empty(),
            },
        }
    }
}

/// The strings reached from each of `items` in turn.
pub open spec fn extract_items(items: Seq<JsonView>, p: Seq<SegView>, idx: nat) -> Seq<Seq<char>>
    decreases items, 0nat,
{
    if items.len() == 0 {
        Seq::empty()
    } else {
        proof {
            assert(decreases_to!(items => items[items.len() - 1]));
        }
        extract_items(items.drop_last(), p, idx) + extract_at(items[items.len() - 1], p, idx)
    }
}

/// The texts of a sequence of strings.
pub open spec fn texts(s: Seq<String>) -> Seq<Seq<char>> {
    s.map_values(|x: String| x@)
}

/// Position of the first member of `es` whose key is `k`.
fn find_member(es: &Vec<(String, Json)>, k: &String) -> (r: usize)
    ensures
        r == member_index(members_view(es@), k@),
{
    let ghost vs = members_view(es@);
    proof {
        lemma_member_index(vs, k@);
    }
    let mut i: usize = 0;
    while i < es.len()
        invariant
            vs == members_view(es@),
            i <= es.len(),
            i <= member_index(vs, k@),
            0 <= member_index(vs, k@) <= vs.len(),
            member_index(vs, k@) < vs.len() ==> vs[member_index(vs, k@)].0 == k@,
            forall|j: int| 0 <= j < member_index(vs, k@) ==> vs[j].0 != k@,
        decreases es.len() - i,
    {
        if str_eq(es[i].0.as_str(), k.as_str()) {
            assert(vs[i as int].0 == k@);
            return i;
        }
        assert(vs[i as int].0 != k@);
        i += 1;
    }
    i
}

fn extract_rec(value: &Json, path: &Vec<PathSegment>, idx: usize, out: &mut Vec<String>)
    requires
        idx <= path@.len(),
    ensures
        texts(final(out)@) == texts(old(out)@) + extract_at(value@, path_view(path@), idx as nat),
    decreases value,
{
    let ghost pv = path_view(path@);
    let ghost o0 = texts(out@);
    proof {
        lemma_view_parts(*value);
    }
    if idx == path.len() {
        match value {
            Json::Str(s) => {
                out.push(s.clone());
                assert(texts(out@) =~= o0 + seq![s@]);
            },
            _ => {
                assert(texts(out@) =~= o0 + Seq::<Seq<char>>::empty());
            },
        }
        return;
    }
    assert(pv[idx as int] == seg_view(path@[idx as int]));
    match &path[idx] {
        PathSegment::Key(k) => match value {
            Json::Object(es) => {
                let i = find_member(es, k);
                if i < es.len() {
                    proof {
                        assert(decreases_to!(value => es));
                        assert(decreases_to!(es => es@));
                        assert(decreases_to!(es@ => es@[i as int]));
                    }
                    extract_rec(&es[i].1, path, idx + 1, out);
                } else {
                    assert(texts(out@) =~= o0 + Seq::<Seq<char>>::empty());
                }
            },
            _ => {
                assert(texts(out@) =~= o0 + Seq::<Seq<char>>::empty());
            },
        },
        PathSegment::Index(n) => match value {
            Json::Array(items) => {
                if *n < items.len() {
                    proof {
                        assert(decreases_to!(value => items));
                        assert(decreases_to!(items => items@));
                    }
                    extract_rec(&items[*n], path, idx + 1, out);
                } else {
                    assert(texts(out@) =~= o0 + Seq::<Seq<char>>::empty());
                }
            },
            _ => {
                assert(texts(out@) =~= o0 + Seq::<Seq<char>>::empty());
            },
        },
        PathSegment::All => match value {
            Json::Array(items) => {
                let ghost iv = items_view(items@);
                let next = idx + 1;
                let mut j: usize = 0;
                while j < items.len()
                    invariant
                        j <= items@.len(),
                        idx < path@.len(),
                        iv == items_view(items@),
                        next == idx + 1,
                        pv == path_view(path@),
                        texts(out@) == o0 + extract_items(iv.take(j as int), pv, (idx + 1) as nat),
                        decreases_to!(value => items),
                    decreases items@.len() - j,
                {
                    proof {
                        assert(decreases_to!(items => items@));
                        assert(iv.take(j + 1).drop_last() =~= iv.take(j as int));
                        assert(iv.take(j + 1)[j as int] == items@[j as int]@);
                    }
                    extract_rec(&items[j], path, next, out);
                    assert(texts(out@) =~= o0 + extract_items(iv.take(j + 1), pv, (idx + 1) as nat));
                    j += 1;
                }
                assert(iv.take(j as int) =~= iv);
            },
            _ => {
                assert(texts(out@) =~= o0 + Seq::<Seq<char>>::empty());
            },
        },
    }
}

/// All strings that `path` reaches in `value`, in document order.
pub fn extract(value: &Json, path: &Vec<PathSegment>) -> (r: Vec<String>)
    ensures
        texts(r@) == extract_at(value@, path_view(path@), 0),
{
    let mut out: Vec<String> = Vec::new();
    extract_rec(value, path, 0, &mut out);
    assert(texts(Seq::<String>::empty()) =~= Seq::<Seq<char>>::empty());
    assert(Seq::<Seq<char>>::empty() + extract_at(value@, path_view(path@), 0) =~= extract_at(value@, path_view(path@), 0));
    out
}

/// `v` with the strings that the steps of `p` from `idx` on reach replaced, in document
/// order, by the texts of `ns`.
pub open spec fn replaced(v: JsonView, p: Seq<SegView>, idx: nat, ns: Seq<Seq<char>>) -> JsonView
    decreases v, 1nat,
{
    if idx >= p.len() {
        match v {
            JsonView::Str(_) => if ns.len() > 0 {
                JsonView::Str(ns[0])
            } else {
                v
            },
            _ => v,
        }
    } else {
        match p[idx as int] {
            SegView::Key(k) => match v {
                JsonView::Object(es) => {
                    let i = member_index(es, k);
                    if 0 <= i < es.len() {
                        proof {
                            assert(decreases_to!(v => es));
                            assert(decreases_to!(es => es[i]));
                        }
                        JsonView::Object(es.update(i, (es[i].0, replaced(es[i].1, p, idx + 1, ns))))
                    } else {
                        v
                    }
                },
                _ => v,
            },
            SegView::Index(n) => match v {
                JsonView::Array(items) => if n < items.len() {
                    JsonView::Array(items.update(n as int, replaced(items[n as int], p, idx + 1, ns)))
                } else {
                    v
                },
                _ => v,
            },
            SegView::All => match v {
                JsonView::Array(items) => JsonView::Array(replaced_items(items, p, idx + 1, ns)),
                _ => v,
            },
        }
    }
}

/// Each of `items` with its share of `ns` put in, in turn.
pub open spec fn replaced_items(items: Seq<JsonView>, p: Seq<SegView>, idx: nat, ns: Seq<Seq<char>>) -> Seq<JsonView>
    decreases items, 0nat,
{
    if items.len() == 0 {
        Seq::empty()
    } else {
        let c = extract_items(items.drop_last(), p, idx).len() as int;
        proof {
            assert(decreases_to!(items => items[items.len() - 1]));
        }
        replaced_items(items.drop_last(), p, idx, ns.take(c)).push(
            replaced(items[items.len() - 1], p, idx, ns.skip(c)),
        )
    }
}

/// Reading a path back after its strings were replaced gives the new strings: putting as
/// many new strings as the path reaches, in document order, and then extracting along the
/// same path yields exactly those strings, in that order.
pub proof fn law_extract_after_replace(v: JsonView, p: Seq<SegView>, idx: nat, ns: Seq<Seq<char>>)
    requires
        ns.len() == extract_at(v, p, idx).len(),
    ensures
        extract_at(replaced(v, p, idx, ns), p, idx) == ns,
    decreases v, 1nat,
{
    if idx >= p.len() {
        match v {
            JsonView::Str(_) => {
                assert(ns =~= seq![ns[0]]);
            },
            _ => {
                assert(ns =~= Seq::<Seq<char>>::empty());
            },
        }
    } else {
        match p[idx as int] {
            SegView::Key(k) => match v {
                JsonView::Object(es) => {
                    let i = member_index(es, k);
                    if 0 <= i < es.len() {
                        assert(decreases_to!(v => es));
                        assert(decreases_to!(es => es[i]));
                        law_extract_after_replace(es[i].1, p, idx + 1, ns);
                        let es2 = es.update(i, (es[i].0, replaced(es[i].1, p, idx + 1, ns)));
                        lemma_member_index_keys(es, es2, k);
                    } else {
                        assert(ns =~= Seq::<Seq<char>>::empty());
                    }
                },
                _ => {
                    assert(ns =~= Seq::<Seq<char>>::empty());
                },
            },
            SegView::Index(n) => match v {
                JsonView::Array(items) => {
                    if n < items.len() {
                        law_extract_after_replace(items[n as int], p, idx + 1, ns);
                    } else {
                        assert(ns =~= Seq::<Seq<char>>::empty());
                    }
                },
                _ => {
                    assert(ns =~= Seq::<Seq<char>>::empty());
                },
            },
            SegView::All => match v {
                JsonView::Array(items) => {
                    lemma_extract_after_replace_items(items, p, idx + 1, ns);
                },
                _ => {
                    assert(ns =~= Seq::<Seq<char>>::empty());
                },
            },
        }
    }
}

/// The same, item by item; the items keep their number.
pub proof fn lemma_extract_after_replace_items(items: Seq<JsonView>, p: Seq<SegView>, idx: nat, ns: Seq<Seq<char>>)
    requires
        ns.len() == extract_items(items, p, idx).len(),
    ensures
        replaced_items(items, p, idx, ns).len() == items.len(),
        extract_items(replaced_items(items, p, idx, ns), p, idx) == ns,
    decreases items, 0nat,
{
    if items.len() == 0 {
        assert(ns =~= Seq::<Seq<char>>::empty());
    } else {
        let c = extract_items(items.drop_last(), p, idx).len() as int;
        assert(decreases_to!(items => items[items.len() - 1]));
        lemma_extract_after_replace_items(items.drop_last(), p, idx, ns.take(c));
        law_extract_after_replace(items[items.len() - 1], p, idx, ns.skip(c));
        let r = replaced_items(items, p, idx, ns);
        assert(r.drop_last() =~= replaced_items(items.drop_last(), p, idx, ns.take(c)));
        assert(ns.take(c) + ns.skip(c) =~= ns);
    }
}

/// The strings reached from the first `k` items are no more than those from all of them.
pub proof fn lemma_extract_items_prefix(items: Seq<JsonView>, p: Seq<SegView>, idx: nat, k: int)
    requires
        0 <= k <= items.len(),
    ensures
        extract_items(items.take(k), p, idx).len() <= extract_items(items, p, idx).len(),
    decreases items.len(),
{
    if k < items.len() {
        assert(items.drop_last().take(k) =~= items.take(k));
        lemma_extract_items_prefix(items.drop_last(), p, idx, k);
    } else {
        assert(items.take(k) =~= items);
    }
}

fn replace_rec(value: &mut Json, path: &Vec<PathSegment>, idx: usize, news: &Vec<String>, pos: usize) -> (next: usize)
    requires
        idx <= path@.len(),
        pos + extract_at(old(value)@, path_view(path@), idx as nat).len() <= news@.len(),
    ensures
        next == pos + extract_at(old(value)@, path_view(path@), idx as nat).len(),
        final(value)@ == replaced(old(value)@, path_view(path@), idx as nat, texts(news@).subrange(pos as int, next as int)),
    decreases *old(value),
{
    let ghost pv = path_view(path@);
    let ghost v0 = old(value)@;
    proof {
        lemma_view_parts(*value);
    }
    if idx == path.len() {
        let is_str = match value {
            Json::Str(_) => true,
            _ => false,
        };
        if is_str {
            assert(extract_at(v0, pv, idx as nat) =~= seq![old(value)->Str_0@]);
            assert(pos < news.len());
            *value = Json::Str(news[pos].clone());
            assert(texts(news@).subrange(pos as int, pos + 1)[0] == news@[pos as int]@);
            return pos + 1;
        }
        return pos;
    }
    assert(pv[idx as int] == seg_view(path@[idx as int]));
    match &path[idx] {
        PathSegment::Key(k) => match value {
            Json::Object(es) => {
                let i = find_member(es, k);
                if i < es.len() {
                    proof {
                        lemma_member_index(members_view(es@), k@);
                    }
                    let next = replace_rec(&mut es[i].1, path, idx + 1, news, pos);
                    proof {
                        lemma_view_parts(*value);
                        assert(members_view(es@) =~= members_view(old(value)->Object_0@).update(i as int, (es@[i as int].0@, es@[i as int].1@)));
                    }
                    next
                } else {
                    pos
                }
            },
            _ => pos,
        },
        PathSegment::Index(n) => match value {
            Json::Array(items) => {
                if *n < items.len() {
                    let next = replace_rec(&mut items[*n], path, idx + 1, news, pos);
                    proof {
                        lemma_view_parts(*value);
                        assert(items_view(items@) =~= items_view(old(value)->Array_0@).update(*n as int, items@[*n as int]@));
                    }
                    next
                } else {
                    pos
                }
            },
            _ => pos,
        },
        PathSegment::All => match value {
            Json::Array(items) => {
                let ghost iv = items_view(items@);
                let ghost orig = *items;
                assert(*old(value) == Json::Array(orig));
                let step = idx + 1;
                let mut j: usize = 0;
                let mut at: usize = pos;
                while j < items.len()
                    invariant
                        j <= items@.len(),
                        items@.len() == iv.len(),
                        step == idx + 1,
                        step <= path@.len(),
                        pv == path_view(path@),
                        at == pos + extract_items(iv.take(j as int), pv, step as nat).len(),
                        pos + extract_items(iv, pv, step as nat).len() <= news@.len(),
                        items_view(items@).take(j as int) == replaced_items(iv.take(j as int), pv, step as nat, texts(news@).subrange(pos as int, at as int)),
                        items_view(items@).skip(j as int) == iv.skip(j as int),
                        items@.skip(j as int) == orig@.skip(j as int),
                        iv == items_view(orig@),
                        *old(value) == Json::Array(orig),
                        pos <= at <= pos + extract_items(iv, pv, step as nat).len(),
                    decreases items@.len() - j,
                {
                    let ghost ns0 = texts(news@).subrange(pos as int, at as int);
                    let ghost before = items@;
                    proof {
                        assert(iv.take(j + 1).drop_last() =~= iv.take(j as int));
                        assert(iv.take(j + 1)[j as int] == iv[j as int]);
                        lemma_extract_items_prefix(iv, pv, step as nat, j + 1);
                        assert(items_view(items@).skip(j as int)[0] == iv.skip(j as int)[0]);
                        assert(items_view(items@)[j as int] == iv[j as int]);
                        assert(items@.skip(j as int)[0] == orig@.skip(j as int)[0]);
                        assert(decreases_to!(*old(value) => (*old(value))->Array_0));
                        assert(decreases_to!(orig => orig@));
                        assert(decreases_to!(orig@ => orig@[j as int]));
                    }
                    let next = replace_rec(&mut items[j], path, step, news, at);
                    proof {
                        let ns = texts(news@).subrange(pos as int, next as int);
                        let c = (at - pos) as int;
                        assert(ns.take(c) =~= ns0);
                        assert(ns.skip(c) =~= texts(news@).subrange(at as int, next as int));
                        assert(items@ == before.update(j as int, items@[j as int]));
                        assert(items_view(items@).take(j + 1) =~= items_view(before).take(j as int).push(items@[j as int]@));
                        assert(items_view(items@).skip(j + 1) =~= items_view(before).skip(j + 1));
                        assert(iv.skip(j + 1) =~= iv.skip(j as int).skip(1));
                        assert(items_view(before).skip(j + 1) =~= items_view(before).skip(j as int).skip(1));
                        assert(items@.skip(j + 1) =~= before.skip(j + 1));
                        assert(before.skip(j + 1) =~= before.skip(j as int).skip(1));
                        assert(orig@.skip(j + 1) =~= orig@.skip(j as int).skip(1));
                        lemma_extract_items_prefix(iv, pv, step as nat, j + 1);
                    }
                    at = next;
                    j += 1;
                }
                proof {
                    assert(iv.take(j as int) =~= iv);
                    assert(items_view(items@).take(j as int) =~= items_view(items@));
                    lemma_view_parts(*value);
                }
                at
            },
            _ => pos,
        },
    }
}

/// Puts `news`, in document order, in place of the strings that `path` reaches in `value`;
/// leaves `value` as it is and answers `false` when their numbers differ.
pub fn replace_with(value: &mut Json, path: &Vec<PathSegment>, news: &Vec<String>) -> (ok: bool)
    ensures
        ok == (news@.len() == extract_at(old(value)@, path_view(path@), 0).len()),
        ok ==> final(value)@ == replaced(old(value)@, path_view(path@), 0, texts(news@)),
        ok ==> extract_at(final(value)@, path_view(path@), 0) == texts(news@),
        !ok ==> *final(value) == *old(value),
{
    let olds = extract(value, path);
    if olds.len() != news.len() {
        return false;
    }
    let ghost before = value@;
    let next = replace_rec(value, path, 0, news, 0);
    assert(texts(news@).subrange(0, next as int) =~= texts(news@));
    proof {
        law_extract_after_replace(before, path_view(path@), 0, texts(news@));
    }
    true
}

/// `new` is a result that `f` may give for a string whose text is `old`.
pub open spec fn produced<F: Fn(&str) -> String>(f: F, old: Seq<char>, new: String) -> bool {
    exists|s: &str| s@ == old && #[trigger] f.ensures((s,), new)
}

/// `after` is `before` with each string that `p` reaches replaced by a result of `f` for it.
pub open spec fn replaced_by<F: Fn(&str) -> String>(f: F, before: JsonView, after: JsonView, p: Seq<SegView>) -> bool {
    exists|news: Seq<String>|
        {
            &&& news.len() == extract_at(before, p, 0).len()
            &&& forall|i: int| 0 <= i < news.len() ==> produced(f, extract_at(before, p, 0)[i], #[trigger] news[i])
            &&& #[trigger] replaced(before, p, 0, texts(news)) == after
        }
}

/// Replaces each string that `path` reaches in `value` by what `f` gives for it.
pub fn replace<F: Fn(&str) -> String>(value: &mut Json, path: &Vec<PathSegment>, f: &F)
    requires
        forall|s: &str| f.requires((s,)),
    ensures
        replaced_by(*f, old(value)@, final(value)@, path_view(path@)),
{
    let olds = extract(value, path);
    let ghost ex = extract_at(value@, path_view(path@), 0);
    let mut news: Vec<String> = Vec::new();
    let mut i: usize = 0;
    while i < olds.len()
        invariant
            i <= olds@.len(),
            news@.len() == i,
            texts(olds@) == ex,
            forall|s: &str| f.requires((s,)),
            forall|k: int| 0 <= k < i ==> produced(*f, ex[k], #[trigger] news@[k]),
        decreases olds@.len() - i,
    {
        let x = olds[i].as_str();
        let r = f(x);
        assert(x@ == ex[i as int]);
        assert(produced(*f, ex[i as int], r));
        news.push(r);
        i += 1;
    }
    let next = replace_rec(value, path, 0, &news, 0);
    assert(texts(news@).subrange(0, next as int) =~= texts(news@));
    assert(forall|k: int| 0 <= k < news@.len() ==> produced(*f, ex[k], #[trigger] news@[k]));
}

} // verus!
