//! The end of the masking of one line: the candidates that the detectors and the
//! recognition service found are checked against the text, filtered, resolved, passed
//! through the co-occurrence rules and masked.
use vstd::prelude::*;
use vstd::string::StringSliceAdditionalSpecFns;
use vstd::utf8::{
    encode_utf8, encode_utf8_valid_utf8, is_char_boundary, is_char_boundary_iff_not_is_continuation_byte,
    is_char_boundary_start_end_of_seq, valid_utf8, valid_utf8_concat, valid_utf8_split,
};

use crate::domain::document::Document;
use crate::domain::entity::{
    counter_in, entity_view, entity_views, lemma_entity_views, number_in, Candidate, Entity, EntityView, MaskState,
    NumberingView,
};
use crate::domain::pd_type::PdType;
use crate::domain::traits::{AddressMode, EffectivePolicy};
use crate::service::combination::{
    combination_result, combined_views, filter_entities, lemma_combined_views, DefaultCombinationRule,
};
use crate::service::mask::Maskers;
use crate::service::guard_service::record_in;
use crate::service::pipeline::{
    all_spans_ok, entities_to_mask, entity_spans_ok, expand_addresses, kind_of, lemma_to_mask_spans, mask_entities,
    mask_pass, record_view, span_ok, span_text, MaskAcc, MaskLineResult, RecordView,
};
use crate::service::relevance::RelevanceFilters;
use crate::service::resolve::{
    above_threshold, entities_of, entity_of, insert_by_start, lemma_entities_of, resolved, sort_by_start, sweep,
    DefaultResolver,
};
use crate::textops::{lemma_valid_between, str_byte_len};

verus! {

/// The candidate and its components lie within `b` on character boundaries.
pub open spec fn cand_spans_ok(c: Candidate, b: Seq<u8>) -> bool {
    &&& span_ok(c.span, b)
    &&& forall|i: int| 0 <= i < c.components@.len() ==> span_ok(#[trigger] c.components@[i].span, b)
}

/// The candidates of `cs` that lie within `b`, in order.
pub open spec fn within_text(cs: Seq<Candidate>, b: Seq<u8>) -> Seq<Candidate>
    decreases cs.len(),
{
    if cs.len() == 0 {
        cs
    } else if cand_spans_ok(cs.last(), b) {
        within_text(cs.drop_last(), b).push(cs.last())
    } else {
        within_text(cs.drop_last(), b)
    }
}

/// The entities of a line before masking: the candidates within the text that the filters
/// in force keep, resolved, then passed through the co-occurrence rules.
pub open spec fn line_entities(doc: Document, p: EffectivePolicy, f: RelevanceFilters, cands: Seq<Candidate>) -> Seq<EntityView> {
    let inside = within_text(cands, encode_utf8(doc.original@));
    combined_views(entities_of(resolved(f.kept(doc, p.filters@, inside, inside), p)), p)
}

/// The largest counter value recorded (0 when none).
pub open spec fn max_count(cs: Seq<(PdType, u32)>) -> int
    decreases cs.len(),
{
    if cs.len() == 0 {
        0
    } else if cs.last().1 > max_count(cs.drop_last()) {
        cs.last().1 as int
    } else {
        max_count(cs.drop_last())
    }
}

/// Every candidate lies within `b`.
pub open spec fn cands_ok(s: Seq<Candidate>, b: Seq<u8>) -> bool {
    forall|i: int| 0 <= i < s.len() ==> cand_spans_ok(#[trigger] s[i], b)
}

/// Every entity lies within `b`.
pub open spec fn ents_ok(s: Seq<Entity>, b: Seq<u8>) -> bool {
    forall|i: int| 0 <= i < s.len() ==> entity_spans_ok(#[trigger] entity_view(s[i]), b)
}

proof fn lemma_drop_ok(s: Seq<Candidate>, b: Seq<u8>)
    requires
        cands_ok(s, b),
        s.len() > 0,
    ensures
        cands_ok(s.drop_last(), b),
        cand_spans_ok(s.last(), b),
{
    assert(cand_spans_ok(s[s.len() - 1], b));
    assert forall|i: int| 0 <= i < s.drop_last().len() implies cand_spans_ok(#[trigger] s.drop_last()[i], b) by {
        assert(s.drop_last()[i] == s[i]);
    }
}

proof fn lemma_push_ok(s: Seq<Candidate>, c: Candidate, b: Seq<u8>)
    requires
        cands_ok(s, b),
        cand_spans_ok(c, b),
    ensures
        cands_ok(s.push(c), b),
{
    assert forall|i: int| 0 <= i < s.push(c).len() implies cand_spans_ok(#[trigger] s.push(c)[i], b) by {
        if i < s.len() {
            assert(s.push(c)[i] == s[i]);
        }
    }
}

proof fn lemma_within_ok(cs: Seq<Candidate>, b: Seq<u8>)
    ensures
        cands_ok(within_text(cs, b), b),
    decreases cs.len(),
{
    if cs.len() > 0 {
        lemma_within_ok(cs.drop_last(), b);
        if cand_spans_ok(cs.last(), b) {
            lemma_push_ok(within_text(cs.drop_last(), b), cs.last(), b);
        }
    }
}

proof fn lemma_kept_ok(f: RelevanceFilters, doc: Document, filters: Seq<String>, cs: Seq<Candidate>, all: Seq<Candidate>, b: Seq<u8>)
    requires
        cands_ok(cs, b),
    ensures
        cands_ok(f.kept(doc, filters, cs, all), b),
    decreases cs.len(),
{
    if cs.len() > 0 {
        lemma_drop_ok(cs, b);
        lemma_kept_ok(f, doc, filters, cs.drop_last(), all, b);
        if f.keeps(doc, filters, cs.last(), all) {
            lemma_push_ok(f.kept(doc, filters, cs.drop_last(), all), cs.last(), b);
        }
    }
}

proof fn lemma_threshold_ok(s: Seq<Candidate>, p: EffectivePolicy, b: Seq<u8>)
    requires
        cands_ok(s, b),
    ensures
        cands_ok(above_threshold(s, p), b),
    decreases s.len(),
{
    if s.len() > 0 {
        lemma_drop_ok(s, b);
        lemma_threshold_ok(s.drop_last(), p, b);
        lemma_push_ok(above_threshold(s.drop_last(), p), s.last(), b);
    }
}

proof fn lemma_insert_ok(s: Seq<Candidate>, c: Candidate, b: Seq<u8>)
    requires
        cands_ok(s, b),
        cand_spans_ok(c, b),
    ensures
        cands_ok(insert_by_start(s, c), b),
    decreases s.len(),
{
    if s.len() == 0 {
        assert(seq![c][0] == c);
    } else if s.last().span.start <= c.span.start {
        lemma_push_ok(s, c, b);
    } else {
        lemma_drop_ok(s, b);
        lemma_insert_ok(s.drop_last(), c, b);
        lemma_push_ok(insert_by_start(s.drop_last(), c), s.last(), b);
    }
}

proof fn lemma_sort_ok(s: Seq<Candidate>, b: Seq<u8>)
    requires
        cands_ok(s, b),
    ensures
        cands_ok(sort_by_start(s), b),
    decreases s.len(),
{
    if s.len() > 0 {
        lemma_drop_ok(s, b);
        lemma_sort_ok(s.drop_last(), b);
        lemma_insert_ok(sort_by_start(s.drop_last()), s.last(), b);
    }
}

proof fn lemma_sweep_ok(s: Seq<Candidate>, p: EffectivePolicy, b: Seq<u8>)
    requires
        cands_ok(s, b),
    ensures
        cands_ok(sweep(s, p), b),
    decreases s.len(),
{
    if s.len() > 0 {
        lemma_drop_ok(s, b);
        lemma_sweep_ok(s.drop_last(), p, b);
        let sel = sweep(s.drop_last(), p);
        let c = s.last();
        if sel.len() > 0 {
            assert forall|i: int| 0 <= i < sel.len() implies cand_spans_ok(#[trigger] sel.update(sel.len() - 1, c)[i], b) by {
                if i < sel.len() - 1 {
                    assert(sel.update(sel.len() - 1, c)[i] == sel[i]);
                }
            }
        }
        lemma_push_ok(sel, c, b);
    }
}

proof fn lemma_entity_of_ok(c: Candidate, b: Seq<u8>)
    requires
        cand_spans_ok(c, b),
    ensures
        entity_spans_ok(entity_of(c), b),
{
    lemma_entities_of(c.components@);
    let e = entity_of(c);
    assert forall|i: int| 0 <= i < e.components.len() implies span_ok(#[trigger] e.components[i].span, b) by {
        assert(e.components[i] == entity_of(c.components@[i]));
    }
}

proof fn lemma_filter_ok(s: Seq<Entity>, pred: spec_fn(Entity) -> bool, b: Seq<u8>)
    requires
        ents_ok(s, b),
    ensures
        ents_ok(filter_entities(s, pred), b),
    decreases s.len(),
{
    if s.len() > 0 {
        let d = s.drop_last();
        assert(entity_spans_ok(entity_view(s[s.len() - 1]), b));
        assert forall|i: int| 0 <= i < d.len() implies entity_spans_ok(#[trigger] entity_view(d[i]), b) by {
            assert(d[i] == s[i]);
        }
        lemma_filter_ok(d, pred, b);
        let r = filter_entities(d, pred);
        assert forall|i: int| 0 <= i < r.push(s.last()).len() implies entity_spans_ok(#[trigger] entity_view(r.push(s.last())[i]), b) by {
            if i < r.len() {
                assert(r.push(s.last())[i] == r[i]);
            }
        }
    }
}

proof fn lemma_counter_bounded(cs: Seq<(PdType, u32)>, t: Seq<char>)
    ensures
        counter_in(cs, t) <= max_count(cs),
        0 <= max_count(cs),
    decreases cs.len(),
{
    if cs.len() > 0 {
        lemma_counter_bounded(cs.drop_last(), t);
    }
}

/// The masking pass is in order: its output is valid text, its cursor a character boundary
/// of the original, and every record lies within the original and the output.
pub open spec fn pass_ok(a: MaskAcc, b: Seq<u8>) -> bool {
    &&& valid_utf8(a.out)
    &&& 0 <= a.cursor <= b.len()
    &&& is_char_boundary(b, a.cursor)
    &&& forall|i: int| 0 <= i < a.records.len() ==> record_in(#[trigger] a.records[i], b, a.out)
}

proof fn lemma_boundary_concat(x: Seq<u8>, y: Seq<u8>, i: int)
    requires
        valid_utf8(x),
        valid_utf8(y),
        0 <= i <= x.len(),
        is_char_boundary(x, i),
    ensures
        is_char_boundary(x + y, i),
        valid_utf8(x + y),
{
    valid_utf8_concat(x, y);
    if i == x.len() {
        if y.len() == 0 {
            assert(x + y =~= x);
        } else {
            is_char_boundary_start_end_of_seq(y);
            is_char_boundary_iff_not_is_continuation_byte(y, 0);
            is_char_boundary_iff_not_is_continuation_byte(x + y, i);
            assert((x + y)[i] == y[0]);
        }
    } else {
        is_char_boundary_iff_not_is_continuation_byte(x, i);
        is_char_boundary_iff_not_is_continuation_byte(x + y, i);
        assert((x + y)[i] == x[i]);
    }
}

proof fn lemma_records_extend(rs: Seq<RecordView>, b: Seq<u8>, x: Seq<u8>, y: Seq<u8>)
    requires
        valid_utf8(x),
        valid_utf8(y),
        forall|i: int| 0 <= i < rs.len() ==> record_in(#[trigger] rs[i], b, x),
    ensures
        forall|i: int| 0 <= i < rs.len() ==> record_in(#[trigger] rs[i], b, x + y),
{
    assert forall|i: int| 0 <= i < rs.len() implies record_in(#[trigger] rs[i], b, x + y) by {
        let r = rs[i];
        assert(record_in(r, b, x));
        lemma_boundary_concat(x, y, r.masked_start);
        lemma_boundary_concat(x, y, r.masked_end);
    }
}

proof fn lemma_pass_ok(ms: Maskers, p: EffectivePolicy, b: Seq<u8>, es: Seq<EntityView>, v0: NumberingView, k: nat)
    requires
        valid_utf8(b),
        all_spans_ok(es, b),
        k <= es.len(),
    ensures
        pass_ok(mask_pass(ms, p, b, es, v0, k), b),
    decreases k,
{
    is_char_boundary_start_end_of_seq(b);
    if k == 0 {
        assert(valid_utf8(encode_utf8(Seq::<char>::empty())));
        assert(encode_utf8(Seq::<char>::empty()) =~= Seq::<u8>::empty());
    } else {
        lemma_pass_ok(ms, p, b, es, v0, (k - 1) as nat);
        let a = mask_pass(ms, p, b, es, v0, (k - 1) as nat);
        let e = es[k - 1];
        assert(span_ok(es[k - 1].span, b));
        if e.span.start >= a.cursor {
            let kind = kind_of(p, e.pd_type);
            let n = number_in(a.numbering, e.pd_type, e.canonical);
            let o = ms.out_spec(kind, e.pd_type, e.canonical, span_text(b, e.span), n);
            let mid = b.subrange(a.cursor, e.span.start as int);
            lemma_valid_between(b, a.cursor, e.span.start as int);
            let before = a.out + mid;
            let piece = encode_utf8(o.0);
            encode_utf8_valid_utf8(o.0);
            lemma_records_extend(a.records, b, a.out, mid);
            lemma_boundary_concat(a.out, mid, 0);
            lemma_records_extend(a.records, b, before, piece);
            is_char_boundary_start_end_of_seq(before);
            lemma_boundary_concat(before, piece, before.len() as int);
            is_char_boundary_start_end_of_seq(before + piece);
            let a2 = mask_pass(ms, p, b, es, v0, k);
            assert(a2.out == before + piece);
            assert forall|i: int| 0 <= i < a2.records.len() implies record_in(#[trigger] a2.records[i], b, a2.out) by {
                if i < a.records.len() {
                    assert(a2.records[i] == a.records[i]);
                }
            }
        }
    }
}

/// The records of a masking pass lie within the original and the masked text.
proof fn lemma_records_in_result(ms: Maskers, p: EffectivePolicy, b: Seq<u8>, es: Seq<EntityView>, v0: NumberingView)
    requires
        valid_utf8(b),
        all_spans_ok(es, b),
    ensures
        ({
            let a = mask_pass(ms, p, b, es, v0, es.len());
            forall|i: int| 0 <= i < a.records.len() ==> record_in(#[trigger] a.records[i], b, a.out + b.subrange(a.cursor, b.len() as int))
        }),
{
    lemma_pass_ok(ms, p, b, es, v0, es.len());
    let a = mask_pass(ms, p, b, es, v0, es.len());
    is_char_boundary_start_end_of_seq(b);
    lemma_valid_between(b, a.cursor, b.len() as int);
    lemma_records_extend(a.records, b, a.out, b.subrange(a.cursor, b.len() as int));
}

/// The output of a masking pass, piece by piece: each masked value's replacement stands at
/// its masked range; the values come in start order, each ending before the next begins, in
/// the original and in the output; and before the first value and between two values the
/// output holds the original's bytes unchanged. The cursor is the end of the last value.
pub open spec fn pass_shape(a: MaskAcc, b: Seq<u8>) -> bool {
    let n = a.infos.len();
    &&& forall|i: int| #![trigger a.infos[i]] 0 <= i < n ==> {
        &&& 0 <= a.infos[i].start <= a.infos[i].end <= b.len()
        &&& 0 <= a.infos[i].masked_start <= a.infos[i].masked_end <= a.out.len()
        &&& a.out.subrange(a.infos[i].masked_start, a.infos[i].masked_end) == encode_utf8(a.infos[i].replacement)
    }
    &&& forall|i: int, j: int| 0 <= i < j < n ==> (#[trigger] a.infos[i]).end <= (#[trigger] a.infos[j]).start
        && a.infos[i].masked_end <= a.infos[j].masked_start
    &&& n == 0 ==> a.out.len() == 0 && a.cursor == 0
    &&& n > 0 ==> a.cursor == a.infos[n - 1].end && a.out.len() == a.infos[n - 1].masked_end
    &&& n > 0 ==> a.out.subrange(0, a.infos[0].masked_start) == b.subrange(0, a.infos[0].start)
    &&& forall|i: int, j: int| 0 <= i && j == i + 1 && j < n ==> a.out.subrange(
        (#[trigger] a.infos[i]).masked_end,
        (#[trigger] a.infos[j]).masked_start,
    ) == b.subrange(a.infos[i].end, a.infos[j].start)
}

proof fn lemma_pass_shape(ms: Maskers, p: EffectivePolicy, b: Seq<u8>, es: Seq<EntityView>, v0: NumberingView, k: nat)
    requires
        all_spans_ok(es, b),
        k <= es.len(),
    ensures
        pass_shape(mask_pass(ms, p, b, es, v0, k), b),
    decreases k,
{
    if k > 0 {
        lemma_pass_shape(ms, p, b, es, v0, (k - 1) as nat);
        let a = mask_pass(ms, p, b, es, v0, (k - 1) as nat);
        let e = es[k - 1];
        assert(span_ok(es[k - 1].span, b));
        if e.span.start >= a.cursor {
            let a2 = mask_pass(ms, p, b, es, v0, k);
            let n = a.infos.len();
            let mid = b.subrange(a.cursor, e.span.start as int);
            let before = a.out + mid;
            assert(a2.infos == a.infos.push(a2.infos[n as int]));
            assert(a2.out == before + encode_utf8(a2.infos[n as int].replacement));
            let out2 = a2.out;
            assert forall|i: int| #![trigger a2.infos[i]] 0 <= i < n + 1 implies {
                &&& 0 <= a2.infos[i].start <= a2.infos[i].end <= b.len()
                &&& 0 <= a2.infos[i].masked_start <= a2.infos[i].masked_end <= out2.len()
                &&& out2.subrange(a2.infos[i].masked_start, a2.infos[i].masked_end) == encode_utf8(a2.infos[i].replacement)
            } by {
                if i < n {
                    assert(a2.infos[i] == a.infos[i]);
                    assert(out2.subrange(a.infos[i].masked_start, a.infos[i].masked_end) =~= a.out.subrange(
                        a.infos[i].masked_start,
                        a.infos[i].masked_end,
                    ));
                } else {
                    assert(out2.subrange(before.len() as int, out2.len() as int) =~= encode_utf8(a2.infos[n as int].replacement));
                }
            }
            if n > 0 {
                assert(a.infos[n - 1].start <= a.infos[n - 1].end);
            }
            assert forall|i: int, j: int| 0 <= i < j < n + 1 implies (#[trigger] a2.infos[i]).end <= (#[trigger] a2.infos[j]).start
                && a2.infos[i].masked_end <= a2.infos[j].masked_start by {
                assert(a2.infos[i] == a.infos[i]);
                if j < n {
                    assert(a2.infos[j] == a.infos[j]);
                } else if i < n - 1 {
                    assert(a.infos[i].end <= a.infos[n - 1].start);
                    assert(a.infos[i].masked_end <= a.infos[n - 1].masked_start);
                }
            }
            if n > 0 {
                assert(a2.infos[0] == a.infos[0]);
                assert(out2.subrange(0, a.infos[0].masked_start) =~= a.out.subrange(0, a.infos[0].masked_start));
            } else {
                assert(out2.subrange(0, before.len() as int) =~= mid);
            }
            assert forall|i: int, j: int| 0 <= i && j == i + 1 && j < n + 1 implies out2.subrange(
                (#[trigger] a2.infos[i]).masked_end,
                (#[trigger] a2.infos[j]).masked_start,
            ) == b.subrange(a2.infos[i].end, a2.infos[j].start) by {
                assert(a2.infos[i] == a.infos[i]);
                if j < n {
                    assert(a2.infos[j] == a.infos[j]);
                    assert(out2.subrange(a.infos[i].masked_end, a.infos[j].masked_start) =~= a.out.subrange(
                        a.infos[i].masked_end,
                        a.infos[j].masked_start,
                    ));
                } else {
                    assert(out2.subrange(a.out.len() as int, before.len() as int) =~= mid);
                }
            }
        }
    }
}

/// A masked line, piece by piece (see `pass_shape`): the masked values come in start order
/// without overlap, each replacement stands at its masked range, and the rest of the
/// masked text is the original's text between them, then the original's tail after the last
/// one.
pub proof fn law_masked_line_shape(ms: Maskers, p: EffectivePolicy, b: Seq<u8>, es: Seq<EntityView>, v0: NumberingView)
    requires
        all_spans_ok(es, b),
    ensures
        pass_shape(mask_pass(ms, p, b, es, v0, es.len()), b),
        ({
            let a = mask_pass(ms, p, b, es, v0, es.len());
            let text = a.out + b.subrange(a.cursor, b.len() as int);
            &&& text.subrange(0, a.out.len() as int) == a.out
            &&& text.subrange(a.out.len() as int, text.len() as int) == b.subrange(a.cursor, b.len() as int)
        }),
{
    lemma_pass_shape(ms, p, b, es, v0, es.len());
    let a = mask_pass(ms, p, b, es, v0, es.len());
    let text = a.out + b.subrange(a.cursor, b.len() as int);
    assert(text.subrange(0, a.out.len() as int) =~= a.out);
    assert(text.subrange(a.out.len() as int, text.len() as int) =~= b.subrange(a.cursor, b.len() as int));
}

/// The candidate and its components lie within the text on character boundaries.
fn cand_in_text(c: &Candidate, text: &str) -> (r: bool)
    ensures
        r == cand_spans_ok(*c, encode_utf8(text@)),
{
    let n = str_byte_len(text);
    if !(c.span.start <= c.span.end && c.span.end <= n && text.is_char_boundary(c.span.start)
        && text.is_char_boundary(c.span.end)) {
        return false;
    }
    let mut i: usize = 0;
    while i < c.components.len()
        invariant
            n == encode_utf8(text@).len(),
            text.spec_bytes() == encode_utf8(text@),
            i <= c.components@.len(),
            forall|j: int| 0 <= j < i ==> span_ok(#[trigger] c.components@[j].span, encode_utf8(text@)),
        decreases c.components.len() - i,
    {
        let s = c.components[i].span;
        if !(s.start <= s.end && s.end <= n && text.is_char_boundary(s.start) && text.is_char_boundary(s.end)) {
            return false;
        }
        i += 1;
    }
    true
}

/// The candidates that lie within the text, in order.
fn keep_within(cands: Vec<Candidate>, text: &str) -> (r: Vec<Candidate>)
    ensures
        r@ == within_text(cands@, encode_utf8(text@)),
{
    let ghost input = cands@;
    let ghost b = encode_utf8(text@);
    let mut src = cands;
    let mut out: Vec<Candidate> = Vec::new();
    let mut k: usize = 0;
    let n = src.len();
    assert(input.take(0) =~= Seq::<Candidate>::empty());
    assert(input.skip(0) =~= input);
    while src.len() > 0
        invariant
            n == input.len(),
            b == encode_utf8(text@),
            k + src@.len() == n,
            src@ == input.skip(k as int),
            out@ == within_text(input.take(k as int), b),
        decreases src.len(),
    {
        let c = src.remove(0);
        assert(c == input[k as int]);
        assert(input.take(k + 1).drop_last() =~= input.take(k as int));
        assert(input.take(k + 1).last() == c);
        assert(src@ =~= input.skip(k + 1));
        let ghost prev = within_text(input.take(k as int), b);
        assert(within_text(input.take(k + 1), b) == if cand_spans_ok(c, b) {
            prev.push(c)
        } else {
            prev
        });
        if cand_in_text(&c, text) {
            out.push(c);
        }
        k += 1;
    }
    assert(input.take(n as int) =~= input);
    out
}

/// How many numbers the masking pass may take for these entities (addresses masked by their
/// components count one per component), capped at `u32::MAX`.
fn numbers_needed(entities: &Vec<Entity>, mode: AddressMode) -> (r: u64)
    ensures
        r == if expand_addresses(entity_views(entities@), mode).len() < u32::MAX {
            expand_addresses(entity_views(entities@), mode).len() as int
        } else {
            u32::MAX as int
        },
{
    let cap: u64 = 0xFFFF_FFFF;
    let is_components = match mode {
        AddressMode::Components => true,
        AddressMode::Whole => false,
    };
    let ghost all = entities@;
    let mut n: u64 = 0;
    let mut i: usize = 0;
    assert(all.take(0) =~= Seq::<Entity>::empty());
    while i < entities.len()
        invariant
            all == entities@,
            i <= all.len(),
            cap == u32::MAX,
            is_components == (mode == AddressMode::Components),
            n == if expand_addresses(entity_views(all.take(i as int)), mode).len() < cap {
                expand_addresses(entity_views(all.take(i as int)), mode).len() as int
            } else {
                cap as int
            },
        decreases entities.len() - i,
    {
        let e = &entities[i];
        let ghost prev = entity_views(all.take(i as int));
        assert(all.take(i + 1).drop_last() =~= all.take(i as int));
        assert(all.take(i + 1).last() == *e);
        assert(entity_views(all.take(i + 1)) == prev.push(entity_view(*e)));
        assert(entity_views(all.take(i + 1)).drop_last() =~= prev);
        proof {
            lemma_entity_views(e.components@);
            reveal_strlit("ADDRESS");
        }
        let k: u64 = if is_components && e.pd_type.is(PdType::ADDRESS) && e.components.len() > 0 {
            e.components.len() as u64
        } else {
            1
        };
        n = if k >= cap || n >= cap - k {
            cap
        } else {
            n + k
        };
        i += 1;
    }
    assert(all.take(i as int) =~= all);
    n
}

/// The largest counter value of the numbering state.
fn max_counter(state: &MaskState) -> (r: u32)
    ensures
        r == max_count(state.counters@),
{
    let ghost cs = state.counters@;
    let mut m: u32 = 0;
    let mut i: usize = 0;
    assert(cs.take(0) =~= Seq::<(PdType, u32)>::empty());
    while i < state.counters.len()
        invariant
            cs == state.counters@,
            i <= cs.len(),
            m == max_count(cs.take(i as int)),
        decreases state.counters.len() - i,
    {
        assert(cs.take(i + 1).drop_last() =~= cs.take(i as int));
        assert(cs.take(i + 1).last() == cs[i as int]);
        if state.counters[i].1 > m {
            m = state.counters[i].1;
        }
        i += 1;
    }
    assert(cs.take(i as int) =~= cs);
    m
}

/// The end of masking one line: keeps the candidates that lie within the text, applies the
/// relevance filters in force, resolves overlaps, applies the co-occurrence rules and masks
/// what remains in one pass. When the numbering could run past `u32::MAX` the text comes
/// back unmasked and the line is marked degraded.
pub fn finish_line(
    doc: &Document<'_>,
    policy: &EffectivePolicy,
    filters: &RelevanceFilters,
    maskers: &Maskers,
    candidates: Vec<Candidate>,
    degraded: bool,
    ner_failed: bool,
    state: &mut MaskState,
) -> (r: MaskLineResult)
    requires
        policy.wf(),
        old(state).wf(),
    ensures
        r.ner_failed == ner_failed,
        forall|i: int| 0 <= i < r.records@.len() ==> record_in(
            record_view(#[trigger] r.records@[i]),
            encode_utf8(doc.original@),
            encode_utf8(r.text@),
        ),
        ({
            let b = encode_utf8(doc.original@);
            let es = line_entities(*doc, *policy, *filters, candidates@);
            if max_count(old(state).counters@) + expand_addresses(es, policy.address_mode).len() < u32::MAX {
                let m = entities_to_mask(es, *policy, b);
                let a = mask_pass(*maskers, *policy, b, m, old(state).numbering(), m.len());
                &&& encode_utf8(r.text@) == a.out + b.subrange(a.cursor, b.len() as int)
                &&& pass_shape(a, b)
                &&& r.entities@.len() == a.infos.len()
                &&& forall|i: int| 0 <= i < a.infos.len() ==> (#[trigger] r.entities@[i])@ == a.infos[i]
                &&& r.records@.len() == a.records.len()
                &&& forall|i: int| 0 <= i < a.records.len() ==> record_view(#[trigger] r.records@[i]) == a.records[i]
                &&& final(state).wf()
                &&& final(state).numbering() == a.numbering
                &&& r.degraded == degraded
            } else {
                &&& r.text@ == doc.original@
                &&& r.entities@.len() == 0
                &&& r.records@.len() == 0
                &&& r.degraded
                &&& *final(state) == *old(state)
            }
        }),
{
    let ghost b = encode_utf8(doc.original@);
    let ghost input = candidates@;
    let inside = keep_within(candidates, doc.original);
    proof {
        lemma_within_ok(input, b);
    }
    let ghost ins = inside@;
    let kept = filters.apply(doc, &policy.filters, inside);
    let ghost kv = kept@;
    proof {
        lemma_kept_ok(*filters, *doc, policy.filters@, ins, ins, b);
        lemma_threshold_ok(kv, *policy, b);
        lemma_sort_ok(above_threshold(kv, *policy), b);
        lemma_sweep_ok(sort_by_start(above_threshold(kv, *policy)), *policy, b);
    }
    let ghost rs = resolved(kv, *policy);
    let mut entities = DefaultResolver.resolve(kept, policy);
    let ghost before = entities@;
    proof {
        lemma_entity_views(before);
        lemma_entities_of(rs);
        assert(entity_views(before) =~= entities_of(rs));
        assert forall|i: int| 0 <= i < before.len() implies entity_spans_ok(#[trigger] entity_view(before[i]), b) by {
            assert(entity_view(before[i]) == entity_of(rs[i]));
            assert(cand_spans_ok(rs[i], b));
            lemma_entity_of_ok(rs[i], b);
        }
    }
    DefaultCombinationRule.apply(&mut entities, policy);
    proof {
        lemma_combined_views(before, *policy);
        if policy.combination.min_distinct_types > 0 && crate::service::combination::distinct_types(before)
            < policy.combination.min_distinct_types {
            lemma_filter_ok(before, |e: Entity| crate::service::combination::always_masked(*policy, e.pd_type@), b);
        } else {
            lemma_filter_ok(before, |e: Entity| crate::service::combination::keeps(e, before, *policy), b);
        }
        assert(entity_views(entities@) == line_entities(*doc, *policy, *filters, input));
    }
    let need = numbers_needed(&entities, policy.address_mode);
    let top = max_counter(state);
    if need >= 0xFFFF_FFFF || top as u64 >= 0xFFFF_FFFF - need {
        return MaskLineResult {
            text: doc.original.to_string(),
            entities: Vec::new(),
            records: Vec::new(),
            degraded: true,
            ner_failed,
        };
    }
    proof {
        assert forall|t: Seq<char>| old(state).counter(t) + expand_addresses(entity_views(entities@), policy.address_mode).len() < u32::MAX by {
            lemma_counter_bounded(old(state).counters@, t);
        }
    }
    let ghost es = entity_views(entities@);
    let ghost v0 = state.numbering();
    proof {
        lemma_entity_views(entities@);
        assert forall|i: int| 0 <= i < es.len() implies entity_spans_ok(#[trigger] es[i], b) by {
            assert(es[i] == entity_view(entities@[i]));
        }
        lemma_to_mask_spans(es, *policy, b);
        encode_utf8_valid_utf8(doc.original@);
        lemma_records_in_result(*maskers, *policy, b, entities_to_mask(es, *policy, b), v0);
        lemma_pass_shape(*maskers, *policy, b, entities_to_mask(es, *policy, b), v0, entities_to_mask(es, *policy, b).len());
    }
    let (text, infos, records) = mask_entities(maskers, policy, doc.original, entities, state);
    MaskLineResult { text, entities: infos, records, degraded, ner_failed }
}

} // verus!
