//! Resolution of overlapping candidates into entities.
use vstd::prelude::*;

use crate::domain::document::{spans_overlap, Span};
use crate::domain::entity::{cand_view, Candidate, Entity, EntityView, Signal};
use crate::domain::pd_type::PdType;
use crate::domain::sensitive::Sensitive;
use crate::domain::traits::EffectivePolicy;
use crate::domain::type_map::TypeMap;
use crate::textops::{
    collapse_whitespace, collapse_ws, digits_of, filter_digits, str_lowercase_of, str_to_lowercase,
    string_from_chars,
};

verus! {

/// Threshold of a type in thousandths (0.6 when the policy names none).
pub open spec fn threshold_of(p: EffectivePolicy, t: Seq<char>) -> u32 {
    match p.thresholds.get_spec(t) {
        Some(v) => v,
        None => 600,
    }
}

/// Priority of a type (50 when the policy names none).
pub open spec fn priority_of(p: EffectivePolicy, t: Seq<char>) -> i32 {
    match p.priorities.get_spec(t) {
        Some(v) => v,
        None => 50,
    }
}

/// Candidates whose score reaches the threshold of their type, in order.
pub open spec fn above_threshold(s: Seq<Candidate>, p: EffectivePolicy) -> Seq<Candidate>
    decreases s.len(),
{
    if s.len() == 0 {
        Seq::empty()
    } else if s.last().score >= threshold_of(p, s.last().pd_type@) {
        above_threshold(s.drop_last(), p).push(s.last())
    } else {
        above_threshold(s.drop_last(), p)
    }
}

/// Insertion of `c` after every element that does not start after it.
pub open spec fn insert_by_start(s: Seq<Candidate>, c: Candidate) -> Seq<Candidate>
    decreases s.len(),
{
    if s.len() == 0 {
        seq![c]
    } else if s.last().span.start <= c.span.start {
        s.push(c)
    } else {
        insert_by_start(s.drop_last(), c).push(s.last())
    }
}

/// Stable sort by start offset.
pub open spec fn sort_by_start(s: Seq<Candidate>) -> Seq<Candidate>
    decreases s.len(),
{
    if s.len() == 0 {
        Seq::empty()
    } else {
        insert_by_start(sort_by_start(s.drop_last()), s.last())
    }
}

/// Length of a span, zero when reversed.
pub open spec fn span_len(s: Span) -> int {
    if s.end >= s.start {
        s.end - s.start
    } else {
        0
    }
}

/// `a` wins over `b`: a passed checksum first, then higher priority, then higher score,
/// then the longer span.
pub open spec fn a_wins_spec(a: Candidate, b: Candidate, p: EffectivePolicy) -> bool {
    let ac = a.signals.has(Signal::ChecksumOk);
    let bc = b.signals.has(Signal::ChecksumOk);
    if ac != bc {
        ac
    } else if priority_of(p, a.pd_type@) != priority_of(p, b.pd_type@) {
        priority_of(p, a.pd_type@) > priority_of(p, b.pd_type@)
    } else if a.score != b.score {
        a.score > b.score
    } else {
        span_len(a.span) > span_len(b.span)
    }
}

/// A component of `c` overlaps the span.
pub open spec fn component_overlaps(c: Candidate, s: Span) -> bool {
    exists|i: int| 0 <= i < c.components@.len() && spans_overlap(#[trigger] c.components@[i].span, s)
}

/// The sweep over candidates sorted by start: a candidate overlapping the last selected one
/// is absorbed by an address whose span a component of it overlaps, replaces the last one
/// when it wins, and is dropped otherwise.
pub open spec fn sweep(s: Seq<Candidate>, p: EffectivePolicy) -> Seq<Candidate>
    decreases s.len(),
{
    if s.len() == 0 {
        Seq::empty()
    } else {
        let sel = sweep(s.drop_last(), p);
        let c = s.last();
        if sel.len() > 0 && spans_overlap(sel.last().span, c.span) {
            if sel.last().pd_type@ == "ADDRESS"@ && component_overlaps(c, sel.last().span) {
                sel
            } else if a_wins_spec(c, sel.last(), p) {
                sel.update(sel.len() - 1, c)
            } else {
                sel
            }
        } else {
            sel.push(c)
        }
    }
}

/// The candidates kept by the resolver, in start order.
pub open spec fn resolved(s: Seq<Candidate>, p: EffectivePolicy) -> Seq<Candidate> {
    sweep(sort_by_start(above_threshold(s, p)), p)
}

/// The entity made of a candidate, with an empty canonical form.
pub open spec fn entity_of(c: Candidate) -> EntityView
    decreases c,
{
    EntityView {
        pd_type: c.pd_type@,
        span: c.span,
        score: c.score,
        source: c.source,
        components: entities_of(c.components@),
        canonical: Seq::empty(),
    }
}

pub open spec fn entities_of(s: Seq<Candidate>) -> Seq<EntityView>
    decreases s,
{
    if s.len() == 0 {
        Seq::empty()
    } else {
        entities_of(s.drop_last()).push(entity_of(s.last()))
    }
}

pub proof fn lemma_entities_of(s: Seq<Candidate>)
    ensures
        entities_of(s).len() == s.len(),
        forall|i: int| 0 <= i < s.len() ==> #[trigger] entities_of(s)[i] == entity_of(s[i]),
    decreases s.len(),
{
    if s.len() > 0 {
        lemma_entities_of(s.drop_last());
    }
}

fn threshold(p: &EffectivePolicy, t: &PdType) -> (r: u32)
    requires
        p.wf(),
    ensures
        r == threshold_of(*p, t@),
{
    match p.thresholds.get(t) {
        Some(v) => *v,
        None => 600,
    }
}

fn priority(p: &EffectivePolicy, t: &PdType) -> (r: i32)
    requires
        p.wf(),
    ensures
        r == priority_of(*p, t@),
{
    match p.priorities.get(t) {
        Some(v) => *v,
        None => 50,
    }
}

/// Does `a` win over `b`?
pub fn a_wins(a: &Candidate, b: &Candidate, policy: &EffectivePolicy) -> (r: bool)
    requires
        policy.wf(),
    ensures
        r == a_wins_spec(*a, *b, *policy),
{
    let ac = a.signals.contains(Signal::ChecksumOk);
    let bc = b.signals.contains(Signal::ChecksumOk);
    if ac != bc {
        return ac;
    }
    let ap = priority(policy, &a.pd_type);
    let bp = priority(policy, &b.pd_type);
    if ap != bp {
        return ap > bp;
    }
    if a.score != b.score {
        return a.score > b.score;
    }
    a.span.len() > b.span.len()
}

fn any_component_overlaps(c: &Candidate, s: &Span) -> (r: bool)
    ensures
        r == component_overlaps(*c, *s),
{
    let mut i: usize = 0;
    while i < c.components.len()
        invariant
            i <= c.components@.len(),
            forall|j: int| 0 <= j < i ==> !spans_overlap(#[trigger] c.components@[j].span, *s),
        decreases c.components.len() - i,
    {
        if c.components[i].span.overlaps(s) {
            return true;
        }
        i += 1;
    }
    false
}

proof fn lemma_insert_at(s: Seq<Candidate>, c: Candidate, p: int)
    requires
        0 <= p <= s.len(),
        forall|j: int| p <= j < s.len() ==> (#[trigger] s[j]).span.start > c.span.start,
        p == 0 || s[p - 1].span.start <= c.span.start,
    ensures
        insert_by_start(s, c) == s.insert(p, c),
    decreases s.len(),
{
    if s.len() == 0 {
        assert(s.insert(p, c) =~= seq![c]);
    } else if p == s.len() {
        assert(s.insert(p, c) =~= s.push(c));
    } else {
        let d = s.drop_last();
        assert forall|j: int| p <= j < d.len() implies (#[trigger] d[j]).span.start > c.span.start by {
            assert(d[j] == s[j]);
        }
        if p > 0 {
            assert(d[p - 1] == s[p - 1]);
        }
        lemma_insert_at(d, c, p);
        assert(d.insert(p, c).push(s.last()) =~= s.insert(p, c));
    }
}

/// Every candidate satisfies `pred`.
pub open spec fn all_cands(s: Seq<Candidate>, pred: spec_fn(Candidate) -> bool) -> bool {
    forall|i: int| 0 <= i < s.len() ==> pred(#[trigger] s[i])
}

/// Candidates in start order.
pub open spec fn sorted_by_start(s: Seq<Candidate>) -> bool {
    forall|i: int, j: int| 0 <= i <= j < s.len() ==> (#[trigger] s[i]).span.start <= (#[trigger] s[j]).span.start
}

/// Each candidate ends before the next one starts.
pub open spec fn ordered_apart(s: Seq<Candidate>) -> bool {
    forall|i: int, j: int| 0 <= i < j < s.len() ==> (#[trigger] s[i]).span.end <= (#[trigger] s[j]).span.start
}

proof fn lemma_all_drop(s: Seq<Candidate>, pred: spec_fn(Candidate) -> bool)
    requires
        all_cands(s, pred),
        s.len() > 0,
    ensures
        all_cands(s.drop_last(), pred),
        pred(s.last()),
{
    assert(pred(s[s.len() - 1]));
    assert forall|i: int| 0 <= i < s.drop_last().len() implies pred(#[trigger] s.drop_last()[i]) by {
        assert(s.drop_last()[i] == s[i]);
    }
}

proof fn lemma_all_push(s: Seq<Candidate>, c: Candidate, pred: spec_fn(Candidate) -> bool)
    requires
        all_cands(s, pred),
        pred(c),
    ensures
        all_cands(s.push(c), pred),
{
    assert forall|i: int| 0 <= i < s.push(c).len() implies pred(#[trigger] s.push(c)[i]) by {
        if i < s.len() {
            assert(s.push(c)[i] == s[i]);
        }
    }
}

proof fn lemma_threshold_all(s: Seq<Candidate>, p: EffectivePolicy, pred: spec_fn(Candidate) -> bool)
    requires
        all_cands(s, pred),
    ensures
        all_cands(above_threshold(s, p), pred),
        all_cands(above_threshold(s, p), |c: Candidate| c.score >= threshold_of(p, c.pd_type@)),
    decreases s.len(),
{
    let t = |c: Candidate| c.score >= threshold_of(p, c.pd_type@);
    if s.len() > 0 {
        lemma_all_drop(s, pred);
        lemma_threshold_all(s.drop_last(), p, pred);
        let r = above_threshold(s.drop_last(), p);
        if s.last().score >= threshold_of(p, s.last().pd_type@) {
            lemma_all_push(r, s.last(), pred);
            lemma_all_push(r, s.last(), t);
        }
    }
}

proof fn lemma_insert_all(s: Seq<Candidate>, c: Candidate, pred: spec_fn(Candidate) -> bool)
    requires
        all_cands(s, pred),
        pred(c),
    ensures
        all_cands(insert_by_start(s, c), pred),
    decreases s.len(),
{
    if s.len() == 0 {
        assert(seq![c][0] == c);
    } else if s.last().span.start <= c.span.start {
        lemma_all_push(s, c, pred);
    } else {
        lemma_all_drop(s, pred);
        lemma_insert_all(s.drop_last(), c, pred);
        lemma_all_push(insert_by_start(s.drop_last(), c), s.last(), pred);
    }
}

proof fn lemma_sort_all(s: Seq<Candidate>, pred: spec_fn(Candidate) -> bool)
    requires
        all_cands(s, pred),
    ensures
        all_cands(sort_by_start(s), pred),
    decreases s.len(),
{
    if s.len() > 0 {
        lemma_all_drop(s, pred);
        lemma_sort_all(s.drop_last(), pred);
        lemma_insert_all(sort_by_start(s.drop_last()), s.last(), pred);
    }
}

proof fn lemma_sweep_all(s: Seq<Candidate>, p: EffectivePolicy, pred: spec_fn(Candidate) -> bool)
    requires
        all_cands(s, pred),
    ensures
        all_cands(sweep(s, p), pred),
    decreases s.len(),
{
    if s.len() > 0 {
        lemma_all_drop(s, pred);
        lemma_sweep_all(s.drop_last(), p, pred);
        let sel = sweep(s.drop_last(), p);
        let c = s.last();
        if sel.len() > 0 {
            assert forall|i: int| 0 <= i < sel.len() implies pred(#[trigger] sel.update(sel.len() - 1, c)[i]) by {
                if i < sel.len() - 1 {
                    assert(sel.update(sel.len() - 1, c)[i] == sel[i]);
                }
            }
        }
        lemma_all_push(sel, c, pred);
    }
}

proof fn lemma_insert_sorted(s: Seq<Candidate>, c: Candidate)
    requires
        sorted_by_start(s),
    ensures
        sorted_by_start(insert_by_start(s, c)),
    decreases s.len(),
{
    if s.len() == 0 {
        assert(seq![c][0] == c);
    } else if s.last().span.start <= c.span.start {
        assert forall|i: int, j: int| 0 <= i <= j < s.push(c).len() implies (#[trigger] s.push(c)[i]).span.start
            <= (#[trigger] s.push(c)[j]).span.start by {
            if j < s.len() {
                assert(s.push(c)[i] == s[i] && s.push(c)[j] == s[j]);
            } else if i < s.len() {
                assert(s.push(c)[i] == s[i]);
                assert(s[i].span.start <= s[s.len() - 1].span.start);
            }
        }
    } else {
        let d = s.drop_last();
        let m = s.last().span.start;
        assert(sorted_by_start(d)) by {
            assert forall|i: int, j: int| 0 <= i <= j < d.len() implies (#[trigger] d[i]).span.start <= (#[trigger] d[j]).span.start by {
                assert(d[i] == s[i] && d[j] == s[j]);
            }
        }
        lemma_insert_sorted(d, c);
        let bound = |x: Candidate| x.span.start <= m;
        assert forall|i: int| 0 <= i < d.len() implies bound(#[trigger] d[i]) by {
            assert(d[i] == s[i]);
            assert(s[i].span.start <= s[s.len() - 1].span.start);
        }
        lemma_insert_all(d, c, bound);
        let r = insert_by_start(d, c);
        assert forall|i: int, j: int| 0 <= i <= j < r.push(s.last()).len() implies (#[trigger] r.push(s.last())[i]).span.start
            <= (#[trigger] r.push(s.last())[j]).span.start by {
            if j < r.len() {
                assert(r.push(s.last())[i] == r[i] && r.push(s.last())[j] == r[j]);
            } else if i < r.len() {
                assert(r.push(s.last())[i] == r[i]);
                assert(bound(r[i]));
            }
        }
    }
}

proof fn lemma_sort_sorted(s: Seq<Candidate>)
    ensures
        sorted_by_start(sort_by_start(s)),
    decreases s.len(),
{
    if s.len() > 0 {
        lemma_sort_sorted(s.drop_last());
        lemma_insert_sorted(sort_by_start(s.drop_last()), s.last());
    }
}

proof fn lemma_sweep_apart(s: Seq<Candidate>, p: EffectivePolicy)
    requires
        sorted_by_start(s),
        all_cands(s, |c: Candidate| c.span.start < c.span.end),
    ensures
        ordered_apart(sweep(s, p)),
    decreases s.len(),
{
    let ne = |c: Candidate| c.span.start < c.span.end;
    if s.len() > 0 {
        let d = s.drop_last();
        let c = s.last();
        lemma_all_drop(s, ne);
        assert(sorted_by_start(d)) by {
            assert forall|i: int, j: int| 0 <= i <= j < d.len() implies (#[trigger] d[i]).span.start <= (#[trigger] d[j]).span.start by {
                assert(d[i] == s[i] && d[j] == s[j]);
            }
        }
        lemma_sweep_apart(d, p);
        let sel = sweep(d, p);
        let before_c = |x: Candidate| x.span.start <= c.span.start;
        assert forall|i: int| 0 <= i < d.len() implies before_c(#[trigger] d[i]) by {
            assert(d[i] == s[i]);
            assert(s[i].span.start <= s[s.len() - 1].span.start);
        }
        lemma_sweep_all(d, p, before_c);
        lemma_sweep_all(d, p, ne);
        if sel.len() > 0 {
            assert(before_c(sel[sel.len() - 1]));
            assert(ne(sel[sel.len() - 1]));
        }
        if sel.len() > 0 && spans_overlap(sel.last().span, c.span) {
            if !(sel.last().pd_type@ == "ADDRESS"@ && component_overlaps(c, sel.last().span)) && a_wins_spec(c, sel.last(), p) {
                let u = sel.update(sel.len() - 1, c);
                assert forall|i: int, j: int| 0 <= i < j < u.len() implies (#[trigger] u[i]).span.end <= (#[trigger] u[j]).span.start by {
                    if j < sel.len() - 1 {
                        assert(u[i] == sel[i] && u[j] == sel[j]);
                    } else {
                        assert(u[i] == sel[i]);
                        assert(sel[i].span.end <= sel[sel.len() - 1].span.start);
                    }
                }
            }
        } else {
            let u = sel.push(c);
            assert forall|i: int, j: int| 0 <= i < j < u.len() implies (#[trigger] u[i]).span.end <= (#[trigger] u[j]).span.start by {
                if j < sel.len() {
                    assert(u[i] == sel[i] && u[j] == sel[j]);
                } else {
                    assert(u[i] == sel[i]);
                    let l = sel[sel.len() - 1];
                    assert(l.span.end <= c.span.start);
                    if i < sel.len() - 1 {
                        assert(sel[i].span.end <= l.span.start);
                    }
                }
            }
        }
    }
}

/// What the resolver keeps reaches the threshold of its type; when every candidate's span is
/// non-empty, the kept spans come in start order and each ends before the next begins, so no
/// two of them overlap.
pub proof fn law_resolved(s: Seq<Candidate>, p: EffectivePolicy)
    ensures
        forall|i: int| 0 <= i < resolved(s, p).len() ==> (#[trigger] resolved(s, p)[i]).score >= threshold_of(p, resolved(s, p)[i].pd_type@),
        (forall|i: int| 0 <= i < s.len() ==> (#[trigger] s[i]).span.start < s[i].span.end) ==> {
            &&& forall|i: int, j: int| 0 <= i < j < resolved(s, p).len() ==> (#[trigger] resolved(s, p)[i]).span.end <= (#[trigger] resolved(s, p)[j]).span.start
            &&& forall|i: int, j: int| 0 <= i < j < resolved(s, p).len() ==> !spans_overlap(#[trigger] resolved(s, p)[i].span, #[trigger] resolved(s, p)[j].span)
        },
{
    let t = |c: Candidate| c.score >= threshold_of(p, c.pd_type@);
    let ne = |c: Candidate| c.span.start < c.span.end;
    let any = |c: Candidate| true;
    lemma_threshold_all(s, p, any);
    let a = above_threshold(s, p);
    lemma_sort_all(a, t);
    lemma_sort_sorted(a);
    lemma_sweep_all(sort_by_start(a), p, t);
    let r = resolved(s, p);
    assert forall|i: int| 0 <= i < r.len() implies (#[trigger] r[i]).score >= threshold_of(p, r[i].pd_type@) by {
        assert(t(r[i]));
    }
    if forall|i: int| 0 <= i < s.len() ==> (#[trigger] s[i]).span.start < s[i].span.end {
        assert(all_cands(s, ne));
        lemma_threshold_all(s, p, ne);
        lemma_sort_all(a, ne);
        lemma_sweep_apart(sort_by_start(a), p);
        lemma_sweep_all(sort_by_start(a), p, ne);
        assert forall|i: int, j: int| 0 <= i < j < r.len() implies !spans_overlap(#[trigger] r[i].span, #[trigger] r[j].span) by {
            assert(r[i].span.end <= r[j].span.start);
            assert(ne(r[j]));
        }
    }
}

/// Standard resolver: drops candidates below the threshold of their type, sorts by start
/// and resolves overlaps (see `sweep`).
pub struct DefaultResolver;

impl DefaultResolver {
    pub fn resolve(&self, cands: Vec<Candidate>, policy: &EffectivePolicy) -> (r: Vec<Entity>)
        requires
            policy.wf(),
        ensures
            r@.len() == resolved(cands@, *policy).len(),
            forall|i: int| 0 <= i < r@.len() ==> (#[trigger] r@[i])@ == entity_of(resolved(cands@, *policy)[i]),
    {
        // 1. threshold filter
        let ghost input = cands@;
        let mut src = cands;
        let mut kept: Vec<Candidate> = Vec::new();
        let mut k: usize = 0;
        let n = src.len();
        while src.len() > 0
            invariant
                n == input.len(),
                policy.wf(),
                k + src@.len() == n,
                src@ == input.skip(k as int),
                kept@ == above_threshold(input.take(k as int), *policy),
            decreases src.len(),
        {
            let c = src.remove(0);
            assert(c == input[k as int]);
            assert(input.take(k + 1).drop_last() =~= input.take(k as int));
            assert(input.take(k + 1).last() == c);
            let t = threshold(policy, &c.pd_type);
            if c.score >= t {
                kept.push(c);
            }
            assert(src@ =~= input.skip(k + 1));
            k += 1;
        }
        assert(input.take(n as int) =~= input);
        // 2. stable insertion sort by start
        let ghost filtered = kept@;
        let mut sorted: Vec<Candidate> = Vec::new();
        let mut j: usize = 0;
        let m = kept.len();
        while kept.len() > 0
            invariant
                m == filtered.len(),
                j + kept@.len() == m,
                kept@ == filtered.skip(j as int),
                sorted@ == sort_by_start(filtered.take(j as int)),
                forall|a: int, b: int| 0 <= a <= b < sorted@.len() ==> (#[trigger] sorted@[a]).span.start <= (#[trigger] sorted@[b]).span.start,
            decreases kept.len(),
        {
            let c = kept.remove(0);
            assert(c == filtered[j as int]);
            assert(filtered.take(j + 1).drop_last() =~= filtered.take(j as int));
            assert(filtered.take(j + 1).last() == c);
            let mut p = sorted.len();
            while p > 0 && sorted[p - 1].span.start > c.span.start
                invariant
                    p <= sorted@.len(),
                    forall|x: int| p <= x < sorted@.len() ==> (#[trigger] sorted@[x]).span.start > c.span.start,
                decreases p,
            {
                p -= 1;
            }
            proof {
                lemma_insert_at(sorted@, c, p as int);
            }
            let ghost before = sorted@;
            sorted.insert(p, c);
            proof {
                let s2 = sorted@;
                assert(s2 =~= before.insert(p as int, c));
                assert forall|a: int, b: int| 0 <= a <= b < s2.len() implies (#[trigger] s2[a]).span.start <= (#[trigger] s2[b]).span.start by {
                    if a < p && b < p {
                        assert(s2[a] == before[a] && s2[b] == before[b]);
                    } else if a < p && b == p {
                        assert(s2[a] == before[a]);
                        assert(before[a].span.start <= before[p - 1].span.start);
                    } else if a < p {
                        assert(s2[a] == before[a] && s2[b] == before[b - 1]);
                    } else if a == p && b == p {
                    } else if a == p {
                        assert(s2[b] == before[b - 1]);
                    } else {
                        assert(s2[a] == before[a - 1] && s2[b] == before[b - 1]);
                    }
                }
            }
            assert(kept@ =~= filtered.skip(j + 1));
            j += 1;
        }
        assert(filtered.take(m as int) =~= filtered);
        // 3. sweep
        let ghost ordered = sorted@;
        let mut selected: Vec<Candidate> = Vec::new();
        let mut q: usize = 0;
        let total = sorted.len();
        while sorted.len() > 0
            invariant
                policy.wf(),
                total == ordered.len(),
                q + sorted@.len() == total,
                sorted@ == ordered.skip(q as int),
                selected@ == sweep(ordered.take(q as int), *policy),
            decreases sorted.len(),
        {
            let c = sorted.remove(0);
            assert(c == ordered[q as int]);
            assert(ordered.take(q + 1).drop_last() =~= ordered.take(q as int));
            assert(ordered.take(q + 1).last() == c);
            let ghost sel = selected@;
            let len = selected.len();
            if len > 0 && selected[len - 1].span.overlaps(&c.span) {
                let last_is_address = selected[len - 1].pd_type.is(PdType::ADDRESS);
                proof {
                    reveal_strlit("ADDRESS");
                }
                if last_is_address && any_component_overlaps(&c, &selected[len - 1].span) {
                } else if a_wins(&c, &selected[len - 1], policy) {
                    selected.set(len - 1, c);
                }
            } else {
                selected.push(c);
            }
            assert(sorted@ =~= ordered.skip(q + 1));
            q += 1;
        }
        assert(ordered.take(total as int) =~= ordered);
        // 4. entities
        let ghost chosen = selected@;
        let mut out: Vec<Entity> = Vec::new();
        let mut w: usize = 0;
        let cnt = selected.len();
        while selected.len() > 0
            invariant
                cnt == chosen.len(),
                w + selected@.len() == cnt,
                selected@ == chosen.skip(w as int),
                out@.len() == w,
                forall|i: int| 0 <= i < w ==> (#[trigger] out@[i])@ == entity_of(chosen[i]),
            decreases selected.len(),
        {
            let c = selected.remove(0);
            assert(c == chosen[w as int]);
            out.push(to_entity(c));
            assert(selected@ =~= chosen.skip(w + 1));
            w += 1;
        }
        out
    }
}

/// The entity of a candidate (components converted too), with an empty canonical form.
pub fn to_entity(c: Candidate) -> (r: Entity)
    ensures
        r@ == entity_of(c),
    decreases c,
{
    let ghost orig = c.components@;
    let Candidate { pd_type, span, score, source, components, signals: _ } = c;
    let mut comps = components;
    let mut out: Vec<Entity> = Vec::new();
    let mut k: usize = 0;
    let n = comps.len();
    while comps.len() > 0
        invariant
            n == orig.len(),
            k + comps@.len() == n,
            comps@ == orig.skip(k as int),
            out@.len() == k,
            forall|i: int| 0 <= i < k ==> (#[trigger] out@[i])@ == entity_of(orig[i]),
            orig == c.components@,
        decreases comps.len(),
    {
        let x = comps.remove(0);
        assert(x == orig[k as int]);
        proof {
            assert(decreases_to!(c => c.components));
            assert(decreases_to!(c.components => c.components@));
            assert(decreases_to!(c.components@ => c.components@[k as int]));
        }
        out.push(to_entity(x));
        assert(comps@ =~= orig.skip(k + 1));
        k += 1;
    }
    let r = Entity {
        pd_type,
        span,
        score,
        source,
        components: out,
        canonical: Sensitive::new(String::new()),
    };
    proof {
        crate::domain::entity::lemma_entity_views(out@);
        lemma_entities_of(orig);
        assert(r@.components =~= entities_of(orig));
    }
    r
}

/// The canonical form of a value of type `t` written as `original`: the digits for
/// numbers, the lower-cased words joined by single spaces for names, the lower-cased
/// text otherwise.
pub open spec fn canonical_spec(original: Seq<char>, t: Seq<char>) -> Seq<char> {
    if t == PdType::CARD_NUMBER@ || t == PdType::INN@ || t == PdType::ORG_INN@ || t
        == PdType::SNILS@ || t == PdType::PHONE@ {
        filter_digits(original)
    } else if t == PdType::FIO@ || t == PdType::CARD_HOLDER@ {
        collapse_ws(str_lowercase_of(original))
    } else {
        str_lowercase_of(original)
    }
}

/// Canonical form at resolution time: empty, filled in later from the original text.
pub fn canonicalize(c: &Candidate, policy: &EffectivePolicy) -> (r: String)
    ensures
        r@ == Seq::<char>::empty(),
{
    String::new()
}

/// The canonical form of `original`, a value of type `pd_type`.
pub fn canonical_from_original(original: &str, pd_type: &PdType) -> (r: String)
    ensures
        r@ == canonical_spec(original@, pd_type@),
{
    if pd_type.is(PdType::CARD_NUMBER) || pd_type.is(PdType::INN) || pd_type.is(PdType::ORG_INN)
        || pd_type.is(PdType::SNILS) || pd_type.is(PdType::PHONE) {
        let d = digits_of(original);
        string_from_chars(d.as_slice())
    } else if pd_type.is(PdType::FIO) || pd_type.is(PdType::CARD_HOLDER) {
        let low = str_to_lowercase(original);
        collapse_whitespace(low.as_str())
    } else {
        str_to_lowercase(original)
    }
}

} // verus!
