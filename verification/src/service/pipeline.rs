//! The masking pipeline: from resolved entities to the masked text, in one pass.
use vstd::prelude::*;
use vstd::utf8::{decode_utf8, encode_utf8, encode_utf8_decode_utf8, encode_utf8_valid_utf8, is_char_boundary};

use crate::domain::document::{Document, Span};
use crate::domain::entity::{
    entity_view, entity_views, lemma_entity_views, lemma_number_in, lemma_numbering, number_in, numbered,
    renumber, source_kind, Entity, EntityView, MaskRecord, MaskState, NumberingView,
};
use crate::domain::pd_type::PdType;
use crate::domain::sensitive::Sensitive;
use crate::domain::traits::{AddressMode, EffectivePolicy, MaskKind, MaskOutput};
use crate::service::demask::{
    demask, demask_restored, demask_text, demask_unresolved, placeholder_matches_of, DemaskResult, Mapping,
};
use crate::service::mask::{numbers, Maskers};
use crate::service::resolve::{canonical_from_original, canonical_spec};
use crate::textops::{
    byte_len, chars_contains, is_ascii_digit, is_digit, is_uppercase, lemma_prefix_boundary,
    str_contains_any, str_to_lowercase, is_whitespace, lemma_encode_concat, push_str,
    seq_contains_seq, str_byte_len, str_lowercase_of, str_chars, str_slice, uppercase, whitespace,
};

verus! {

/// What was masked: type, original and masked byte spans, replacement, score (thousandths)
/// and the kind of detector.
pub struct MaskedEntityInfo {
    pub pd_type: String,
    pub start: usize,
    pub end: usize,
    pub masked_start: usize,
    pub masked_end: usize,
    pub replacement: String,
    pub score: u32,
    pub source: String,
}

/// The value of a `MaskedEntityInfo`.
pub struct InfoView {
    pub pd_type: Seq<char>,
    pub start: int,
    pub end: int,
    pub masked_start: int,
    pub masked_end: int,
    pub replacement: Seq<char>,
    pub score: u32,
    pub source: Seq<char>,
}

impl View for MaskedEntityInfo {
    type V = InfoView;

    open spec fn view(&self) -> InfoView {
        InfoView {
            pd_type: self.pd_type@,
            start: self.start as int,
            end: self.end as int,
            masked_start: self.masked_start as int,
            masked_end: self.masked_end as int,
            replacement: self.replacement@,
            score: self.score,
            source: self.source@,
        }
    }
}

/// The value of a `MaskRecord`.
pub struct RecordView {
    pub masked_start: int,
    pub masked_end: int,
    pub original_span: Span,
    pub pd_type: Seq<char>,
    pub key: Option<Seq<char>>,
}

pub open spec fn record_view(r: MaskRecord) -> RecordView {
    RecordView {
        masked_start: r.masked_span.start as int,
        masked_end: r.masked_span.end as int,
        original_span: r.original_span,
        pd_type: r.pd_type@,
        key: match r.key {
            Some(k) => Some(k@),
            None => None,
        },
    }
}

/// Result of masking one line.
pub struct MaskLineResult {
    pub text: String,
    pub entities: Vec<MaskedEntityInfo>,
    pub records: Vec<MaskRecord>,
    pub degraded: bool,
    pub ner_failed: bool,
}

// ---------------------------------------------------------------- the stages, as values

/// With whole-address mode the entities as they are; with component mode an address that
/// has components is replaced by them.
pub open spec fn expand_addresses(es: Seq<EntityView>, mode: AddressMode) -> Seq<EntityView>
    decreases es.len(),
{
    if es.len() == 0 {
        Seq::empty()
    } else {
        let e = es.last();
        let rest = expand_addresses(es.drop_last(), mode);
        if mode == AddressMode::Components && e.pd_type == PdType::ADDRESS@ && e.components.len() > 0 {
            rest + e.components
        } else {
            rest.push(e)
        }
    }
}

/// The entities of a type the policy masks, in order.
pub open spec fn retain_policy_types(es: Seq<EntityView>, p: EffectivePolicy) -> Seq<EntityView>
    decreases es.len(),
{
    if es.len() == 0 {
        Seq::empty()
    } else if p.masks(es.last().pd_type) {
        retain_policy_types(es.drop_last(), p).push(es.last())
    } else {
        retain_policy_types(es.drop_last(), p)
    }
}

/// The characters of the original between the byte offsets of a span.
pub open spec fn span_text(b: Seq<u8>, s: Span) -> Seq<char> {
    decode_utf8(b.subrange(s.start as int, s.end as int))
}

/// The entity with its canonical form computed from the original text.
pub open spec fn with_canonical(e: EntityView, b: Seq<u8>) -> EntityView {
    EntityView { canonical: canonical_spec(span_text(b, e.span), e.pd_type), ..e }
}

/// Insertion of `e` after every entity that does not start after it.
pub open spec fn insert_view_by_start(s: Seq<EntityView>, e: EntityView) -> Seq<EntityView>
    decreases s.len(),
{
    if s.len() == 0 {
        seq![e]
    } else if s.last().span.start <= e.span.start {
        s.push(e)
    } else {
        insert_view_by_start(s.drop_last(), e).push(s.last())
    }
}

/// Stable sort by start offset.
pub open spec fn sort_views_by_start(s: Seq<EntityView>) -> Seq<EntityView>
    decreases s.len(),
{
    if s.len() == 0 {
        Seq::empty()
    } else {
        insert_view_by_start(sort_views_by_start(s.drop_last()), s.last())
    }
}

/// The entities the masking pass walks over: expanded, restricted to the policy's types,
/// given their canonical forms, sorted by start.
pub open spec fn entities_to_mask(es: Seq<EntityView>, p: EffectivePolicy, b: Seq<u8>) -> Seq<EntityView> {
    let r = retain_policy_types(expand_addresses(es, p.address_mode), p);
    sort_views_by_start(Seq::new(r.len(), |i: int| with_canonical(r[i], b)))
}

/// Mask kind of a type (placeholder when the policy names none).
pub open spec fn kind_of(p: EffectivePolicy, t: Seq<char>) -> MaskKind {
    match p.mask_kinds.get_spec(t) {
        Some(k) => k,
        None => MaskKind::Placeholder,
    }
}

/// State of the masking pass.
pub struct MaskAcc {
    pub out: Seq<u8>,
    pub cursor: int,
    pub numbering: NumberingView,
    pub infos: Seq<InfoView>,
    pub records: Seq<RecordView>,
}

/// The masking pass over the first `k` entities: an entity that starts before the end of
/// the last masked one is skipped; otherwise the text up to it is copied and its mask
/// written, and the pass moves past it.
pub open spec fn mask_pass(
    ms: Maskers,
    p: EffectivePolicy,
    b: Seq<u8>,
    es: Seq<EntityView>,
    v0: NumberingView,
    k: nat,
) -> MaskAcc
    decreases k,
{
    if k == 0 {
        MaskAcc { out: Seq::empty(), cursor: 0, numbering: v0, infos: Seq::empty(), records: Seq::empty() }
    } else {
        let a = mask_pass(ms, p, b, es, v0, (k - 1) as nat);
        let e = es[k - 1];
        if e.span.start < a.cursor {
            a
        } else {
            let kind = kind_of(p, e.pd_type);
            let n = number_in(a.numbering, e.pd_type, e.canonical);
            let o = ms.out_spec(kind, e.pd_type, e.canonical, span_text(b, e.span), n);
            let before = a.out + b.subrange(a.cursor, e.span.start as int);
            let out = before + encode_utf8(o.0);
            MaskAcc {
                out,
                cursor: e.span.end as int,
                numbering: if numbers(kind) {
                    renumber(a.numbering, e.pd_type, e.canonical)
                } else {
                    a.numbering
                },
                infos: a.infos.push(
                    InfoView {
                        pd_type: e.pd_type,
                        start: e.span.start as int,
                        end: e.span.end as int,
                        masked_start: before.len() as int,
                        masked_end: out.len() as int,
                        replacement: o.0,
                        score: e.score,
                        source: source_kind(e.source),
                    },
                ),
                records: match o.1 {
                    Some(key) => a.records.push(
                        RecordView {
                            masked_start: before.len() as int,
                            masked_end: out.len() as int,
                            original_span: e.span,
                            pd_type: e.pd_type,
                            key: Some(key),
                        },
                    ),
                    None => a.records,
                },
            }
        }
    }
}

/// A span within `b`, on character boundaries.
pub open spec fn span_ok(s: Span, b: Seq<u8>) -> bool {
    &&& s.start <= s.end <= b.len()
    &&& is_char_boundary(b, s.start as int)
    &&& is_char_boundary(b, s.end as int)
}

/// The entity and its components lie within `b` on character boundaries.
pub open spec fn entity_spans_ok(e: EntityView, b: Seq<u8>) -> bool {
    &&& span_ok(e.span, b)
    &&& forall|i: int| 0 <= i < e.components.len() ==> span_ok(#[trigger] e.components[i].span, b)
}

/// Element by element, the values of `s` are `v`.
pub open spec fn views_match(s: Seq<Entity>, v: Seq<EntityView>) -> bool {
    &&& s.len() == v.len()
    &&& forall|i: int| 0 <= i < s.len() ==> entity_view(#[trigger] s[i]) == v[i]
}

proof fn lemma_views_step(s: Seq<Entity>, k: int)
    requires
        0 <= k < s.len(),
    ensures
        entity_views(s.take(k + 1)) == entity_views(s.take(k)).push(entity_view(s[k])),
{
    assert(s.take(k + 1).drop_last() =~= s.take(k));
}

/// Replaces each address that has components by its components, in component mode.
fn expand_entities(entities: Vec<Entity>, mode: AddressMode) -> (r: Vec<Entity>)
    ensures
        views_match(r@, expand_addresses(entity_views(entities@), mode)),
{
    let ghost input = entities@;
    let mut src = entities;
    let mut out: Vec<Entity> = Vec::new();
    let mut k: usize = 0;
    let n = src.len();
    while src.len() > 0
        invariant
            n == input.len(),
            k + src@.len() == n,
            src@ == input.skip(k as int),
            views_match(out@, expand_addresses(entity_views(input.take(k as int)), mode)),
        decreases src.len(),
    {
        let e = src.remove(0);
        assert(e == input[k as int]);
        proof {
            lemma_views_step(input, k as int);
            assert(entity_views(input.take(k as int)).push(entity_view(e)).drop_last()
                =~= entity_views(input.take(k as int)));
        }
        let ghost base = expand_addresses(entity_views(input.take(k as int)), mode);
        let ghost ev = entity_view(e);
        let is_components = match mode {
            AddressMode::Components => true,
            AddressMode::Whole => false,
        };
        proof {
            reveal_strlit("ADDRESS");
        }
        if is_components && e.pd_type.is(PdType::ADDRESS) && e.components.len() > 0 {
            let Entity { components, .. } = e;
            let ghost cv = entity_views(components@);
            proof {
                lemma_entity_views(components@);
            }
            let mut comps = components;
            let ghost cs = comps@;
            let mut j: usize = 0;
            let m = comps.len();
            while comps.len() > 0
                invariant
                    m == cs.len(),
                    cv == entity_views(cs),
                    cv.len() == cs.len(),
                    forall|i: int| 0 <= i < cs.len() ==> #[trigger] cv[i] == entity_view(cs[i]),
                    j + comps@.len() == m,
                    comps@ == cs.skip(j as int),
                    views_match(out@, base + cv.take(j as int)),
                decreases comps.len(),
            {
                let c = comps.remove(0);
                assert(c == cs[j as int]);
                let ghost before = out@;
                out.push(c);
                assert(base + cv.take(j + 1) =~= (base + cv.take(j as int)).push(cv[j as int]));
                assert(comps@ =~= cs.skip(j + 1));
                j += 1;
            }
            assert(cv.take(m as int) =~= cv);
        } else {
            out.push(e);
        }
        assert(src@ =~= input.skip(k + 1));
        k += 1;
    }
    assert(input.take(n as int) =~= input);
    out
}

/// Keeps the entities of a type the policy masks.
fn retain_types(entities: Vec<Entity>, policy: &EffectivePolicy, Ghost(vs): Ghost<Seq<EntityView>>) -> (r: Vec<Entity>)
    requires
        views_match(entities@, vs),
    ensures
        views_match(r@, retain_policy_types(vs, *policy)),
{
    let ghost input = entities@;
    let mut src = entities;
    let mut out: Vec<Entity> = Vec::new();
    let mut k: usize = 0;
    let n = src.len();
    while src.len() > 0
        invariant
            n == input.len(),
            views_match(input, vs),
            k + src@.len() == n,
            src@ == input.skip(k as int),
            views_match(out@, retain_policy_types(vs.take(k as int), *policy)),
        decreases src.len(),
    {
        let e = src.remove(0);
        assert(e == input[k as int]);
        assert(vs.take(k + 1).drop_last() =~= vs.take(k as int));
        assert(vs.take(k + 1).last() == entity_view(e));
        if policy.has_type(&e.pd_type) {
            out.push(e);
        }
        assert(src@ =~= input.skip(k + 1));
        k += 1;
    }
    assert(vs.take(n as int) =~= vs);
    out
}


/// Gives each entity its canonical form, read from the original text.
fn fill_canonical(entities: Vec<Entity>, original: &str, Ghost(vs): Ghost<Seq<EntityView>>) -> (r: Vec<Entity>)
    requires
        views_match(entities@, vs),
        forall|i: int| 0 <= i < vs.len() ==> span_ok(#[trigger] vs[i].span, encode_utf8(original@)),
    ensures
        views_match(r@, Seq::new(vs.len(), |i: int| with_canonical(vs[i], encode_utf8(original@)))),
{
    let ghost b = encode_utf8(original@);
    let ghost target = Seq::new(vs.len(), |i: int| with_canonical(vs[i], b));
    let ghost input = entities@;
    let mut src = entities;
    let mut out: Vec<Entity> = Vec::new();
    let mut k: usize = 0;
    let n = src.len();
    while src.len() > 0
        invariant
            n == input.len(),
            b == encode_utf8(original@),
            target == Seq::new(vs.len(), |i: int| with_canonical(vs[i], b)),
            views_match(input, vs),
            forall|i: int| 0 <= i < vs.len() ==> span_ok(#[trigger] vs[i].span, b),
            k + src@.len() == n,
            src@ == input.skip(k as int),
            views_match(out@, target.take(k as int)),
        decreases src.len(),
    {
        let e = src.remove(0);
        assert(e == input[k as int]);
        assert(span_ok(vs[k as int].span, b));
        let orig = str_slice(original, e.span.start, e.span.end);
        let canon = canonical_from_original(orig, &e.pd_type);
        proof {
            encode_utf8_decode_utf8(orig@);
        }
        let Entity { pd_type, span, score, source, components, canonical: _ } = e;
        let ne = Entity { pd_type, span, score, source, components, canonical: Sensitive::new(canon) };
        assert(entity_view(ne) == target[k as int]);
        out.push(ne);
        assert(out@ =~= out@);
        assert(target.take(k + 1) =~= target.take(k as int).push(target[k as int]));
        assert(src@ =~= input.skip(k + 1));
        k += 1;
    }
    assert(target.take(n as int) =~= target);
    out
}

proof fn lemma_insert_view_at(s: Seq<EntityView>, e: EntityView, p: int)
    requires
        0 <= p <= s.len(),
        forall|j: int| p <= j < s.len() ==> (#[trigger] s[j]).span.start > e.span.start,
        p == 0 || s[p - 1].span.start <= e.span.start,
    ensures
        insert_view_by_start(s, e) == s.insert(p, e),
    decreases s.len(),
{
    if s.len() == 0 {
        assert(s.insert(p, e) =~= seq![e]);
    } else if p == s.len() {
        assert(s.insert(p, e) =~= s.push(e));
    } else {
        let d = s.drop_last();
        assert forall|j: int| p <= j < d.len() implies (#[trigger] d[j]).span.start > e.span.start by {
            assert(d[j] == s[j]);
        }
        if p > 0 {
            assert(d[p - 1] == s[p - 1]);
        }
        lemma_insert_view_at(d, e, p);
        assert(d.insert(p, e).push(s.last()) =~= s.insert(p, e));
    }
}

/// Stable insertion sort of entities by start offset.
fn sort_entities(entities: Vec<Entity>, Ghost(vs): Ghost<Seq<EntityView>>) -> (r: Vec<Entity>)
    requires
        views_match(entities@, vs),
    ensures
        views_match(r@, sort_views_by_start(vs)),
{
    let ghost input = entities@;
    let mut src = entities;
    let mut sorted: Vec<Entity> = Vec::new();
    let ghost mut sv: Seq<EntityView> = Seq::empty();
    let mut j: usize = 0;
    let m = src.len();
    while src.len() > 0
        invariant
            m == input.len(),
            views_match(input, vs),
            j + src@.len() == m,
            src@ == input.skip(j as int),
            sv == sort_views_by_start(vs.take(j as int)),
            views_match(sorted@, sv),
            forall|a: int, b: int| 0 <= a <= b < sv.len() ==> (#[trigger] sv[a]).span.start <= (#[trigger] sv[b]).span.start,
        decreases src.len(),
    {
        let e = src.remove(0);
        assert(e == input[j as int]);
        let ghost ev = vs[j as int];
        assert(entity_view(e) == ev);
        assert(vs.take(j + 1).drop_last() =~= vs.take(j as int));
        assert(vs.take(j + 1).last() == ev);
        let mut p = sorted.len();
        while p > 0 && sorted[p - 1].span.start > e.span.start
            invariant
                p <= sorted@.len(),
                views_match(sorted@, sv),
                ev.span == e.span,
                forall|x: int| p <= x < sv.len() ==> (#[trigger] sv[x]).span.start > ev.span.start,
            decreases p,
        {
            assert(entity_view(sorted@[p - 1]) == sv[p - 1]);
            p -= 1;
        }
        proof {
            if p > 0 {
                assert(entity_view(sorted@[p - 1]) == sv[p - 1]);
            }
            lemma_insert_view_at(sv, ev, p as int);
        }
        let ghost before = sv;
        let ghost before_sorted = sorted@;
        sorted.insert(p, e);
        proof {
            sv = before.insert(p as int, ev);
            assert(sorted@ =~= before_sorted.insert(p as int, e));
            assert forall|i: int| 0 <= i < sorted@.len() implies entity_view(#[trigger] sorted@[i]) == sv[i] by {
                if i < p {
                    assert(sorted@[i] == before_sorted[i]);
                } else if i > p {
                    assert(sorted@[i] == before_sorted[i - 1]);
                }
            }
            assert forall|a: int, b: int| 0 <= a <= b < sv.len() implies (#[trigger] sv[a]).span.start <= (#[trigger] sv[b]).span.start by {
                if a < p && b < p {
                    assert(sv[a] == before[a] && sv[b] == before[b]);
                } else if a < p && b == p {
                    assert(sv[a] == before[a]);
                    assert(before[a].span.start <= before[p - 1].span.start);
                } else if a < p {
                    assert(sv[a] == before[a] && sv[b] == before[b - 1]);
                } else if a == p && b == p {
                } else if a == p {
                    assert(sv[b] == before[b - 1]);
                } else {
                    assert(sv[a] == before[a - 1] && sv[b] == before[b - 1]);
                }
            }
        }
        assert(src@ =~= input.skip(j + 1));
        j += 1;
    }
    assert(vs.take(m as int) =~= vs);
    sorted
}


fn mask_kind(policy: &EffectivePolicy, t: &PdType) -> (k: MaskKind)
    ensures
        k == kind_of(*policy, t@),
{
    match policy.mask_kinds.get(t) {
        Some(k) => *k,
        None => MaskKind::Placeholder,
    }
}

/// The masking pass: the masked text, what was masked, and the records of reversible masks.
fn mask_pass_exec(
    maskers: &Maskers,
    policy: &EffectivePolicy,
    original: &str,
    es: &Vec<Entity>,
    state: &mut MaskState,
    Ghost(vs): Ghost<Seq<EntityView>>,
) -> (r: (String, Vec<MaskedEntityInfo>, Vec<MaskRecord>))
    requires
        views_match(es@, vs),
        forall|i: int| 0 <= i < vs.len() ==> span_ok(#[trigger] vs[i].span, encode_utf8(original@)),
        old(state).wf(),
        forall|t: Seq<char>| old(state).counter(t) + vs.len() < u32::MAX,
    ensures
        ({
            let b = encode_utf8(original@);
            let a = mask_pass(*maskers, *policy, b, vs, old(state).numbering(), vs.len());
            &&& encode_utf8(r.0@) == a.out + b.subrange(a.cursor, b.len() as int)
            &&& r.1@.len() == a.infos.len()
            &&& forall|i: int| 0 <= i < a.infos.len() ==> (#[trigger] r.1@[i])@ == a.infos[i]
            &&& r.2@.len() == a.records.len()
            &&& forall|i: int| 0 <= i < a.records.len() ==> record_view(#[trigger] r.2@[i]) == a.records[i]
            &&& final(state).wf()
            &&& final(state).numbering() == a.numbering
        }),
{
    let ghost b = encode_utf8(original@);
    let ghost v0 = state.numbering();
    let ghost st0 = *state;
    let blen = str_byte_len(original);
    proof {
        encode_utf8_valid_utf8(original@);
        vstd::utf8::is_char_boundary_start_end_of_seq(b);
    }
    let mut text = String::new();
    let mut cursor: usize = 0;
    let mut infos: Vec<MaskedEntityInfo> = Vec::new();
    let mut records: Vec<MaskRecord> = Vec::new();
    let mut k: usize = 0;
    while k < es.len()
        invariant
            b == encode_utf8(original@),
            blen == b.len(),
            views_match(es@, vs),
            forall|i: int| 0 <= i < vs.len() ==> span_ok(#[trigger] vs[i].span, b),
            forall|t: Seq<char>| st0.counter(t) + vs.len() < u32::MAX,
            v0 == st0.numbering(),
            k <= vs.len(),
            state.wf(),
            forall|t: Seq<char>| #[trigger] state.counter(t) <= st0.counter(t) + k,
            ({
                let a = mask_pass(*maskers, *policy, b, vs, v0, k as nat);
                &&& encode_utf8(text@) == a.out
                &&& cursor == a.cursor
                &&& infos@.len() == a.infos.len()
                &&& (forall|i: int| 0 <= i < a.infos.len() ==> (#[trigger] infos@[i])@ == a.infos[i])
                &&& records@.len() == a.records.len()
                &&& (forall|i: int| 0 <= i < a.records.len() ==> record_view(#[trigger] records@[i]) == a.records[i])
                &&& state.numbering() == a.numbering
            }),
            cursor <= blen,
            is_char_boundary(b, cursor as int),
        decreases es.len() - k,
    {
        let e = &es[k];
        let ghost ev = vs[k as int];
        assert(entity_view(*e) == ev);
        assert(span_ok(ev.span, b));
        let ghost a = mask_pass(*maskers, *policy, b, vs, v0, k as nat);
        if e.span.start < cursor {
            k += 1;
        } else {
            let orig = str_slice(original, e.span.start, e.span.end);
            let kind = mask_kind(policy, &e.pd_type);
            let ghost pre = *state;
            proof {
                encode_utf8_decode_utf8(orig@);
                lemma_number_in(pre, e.pd_type@, ev.canonical);
                assert(state.counter(e.pd_type@) <= st0.counter(e.pd_type@) + k);
            }
            let out = maskers.mask_with(kind, e, orig, state);
            proof {
                if numbers(kind) {
                    lemma_numbering(pre, *state, e.pd_type@, ev.canonical);
                }
                assert forall|t: Seq<char>| #[trigger] state.counter(t) <= st0.counter(t) + k + 1 by {
                    assert(pre.counter(t) <= st0.counter(t) + k);
                }
            }
            let piece = str_slice(original, cursor, e.span.start);
            let ghost t0 = text@;
            push_str(&mut text, piece);
            let masked_start = str_byte_len(text.as_str());
            let ghost t1 = text@;
            push_str(&mut text, out.replacement.as_str());
            let masked_end = str_byte_len(text.as_str());
            proof {
                lemma_encode_concat(t0, piece@);
                lemma_encode_concat(t1, out.replacement@);
            }
            let MaskOutput { replacement, key } = out;
            match key {
                Some(kk) => {
                    records.push(MaskRecord {
                        masked_span: Span::new(masked_start, masked_end),
                        original_span: e.span,
                        pd_type: e.pd_type.clone(),
                        key: Some(kk),
                    });
                },
                None => {},
            }
            infos.push(MaskedEntityInfo {
                pd_type: e.pd_type.as_str().to_string(),
                start: e.span.start,
                end: e.span.end,
                masked_start,
                masked_end,
                replacement,
                score: e.score,
                source: e.source.kind().to_string(),
            });
            cursor = e.span.end;
            k += 1;
        }
    }
    let tail = str_slice(original, cursor, blen);
    let ghost t2 = text@;
    push_str(&mut text, tail);
    proof {
        lemma_encode_concat(t2, tail@);
    }
    (text, infos, records)
}


/// Every entity of `s` lies within `b` on character boundaries.
pub open spec fn all_spans_ok(s: Seq<EntityView>, b: Seq<u8>) -> bool {
    forall|i: int| 0 <= i < s.len() ==> span_ok(#[trigger] s[i].span, b)
}

proof fn lemma_expand_spans(es: Seq<EntityView>, mode: AddressMode, b: Seq<u8>)
    requires
        forall|i: int| 0 <= i < es.len() ==> entity_spans_ok(#[trigger] es[i], b),
    ensures
        all_spans_ok(expand_addresses(es, mode), b),
    decreases es.len(),
{
    if es.len() > 0 {
        let d = es.drop_last();
        assert forall|i: int| 0 <= i < d.len() implies entity_spans_ok(#[trigger] d[i], b) by {
            assert(d[i] == es[i]);
        }
        lemma_expand_spans(d, mode, b);
        assert(entity_spans_ok(es[es.len() - 1], b));
        let r = expand_addresses(d, mode);
        let e = es.last();
        if mode == AddressMode::Components && e.pd_type == PdType::ADDRESS@ && e.components.len() > 0 {
            assert forall|i: int| 0 <= i < (r + e.components).len() implies span_ok(#[trigger] (r + e.components)[i].span, b) by {
                if i >= r.len() {
                    assert((r + e.components)[i] == e.components[i - r.len()]);
                }
            }
        } else {
            assert forall|i: int| 0 <= i < r.push(e).len() implies span_ok(#[trigger] r.push(e)[i].span, b) by {
                if i < r.len() {
                    assert(r.push(e)[i] == r[i]);
                }
            }
        }
    }
}

proof fn lemma_retain_spans(es: Seq<EntityView>, p: EffectivePolicy, b: Seq<u8>)
    requires
        all_spans_ok(es, b),
    ensures
        all_spans_ok(retain_policy_types(es, p), b),
        retain_policy_types(es, p).len() <= es.len(),
    decreases es.len(),
{
    if es.len() > 0 {
        let d = es.drop_last();
        assert forall|i: int| 0 <= i < d.len() implies span_ok(#[trigger] d[i].span, b) by {
            assert(d[i] == es[i]);
        }
        lemma_retain_spans(d, p, b);
        let r = retain_policy_types(d, p);
        assert(span_ok(es[es.len() - 1].span, b));
        assert forall|i: int| 0 <= i < r.push(es.last()).len() implies span_ok(#[trigger] r.push(es.last())[i].span, b) by {
            if i < r.len() {
                assert(r.push(es.last())[i] == r[i]);
            }
        }
    }
}

proof fn lemma_insert_spans(s: Seq<EntityView>, e: EntityView, b: Seq<u8>)
    requires
        all_spans_ok(s, b),
        span_ok(e.span, b),
    ensures
        all_spans_ok(insert_view_by_start(s, e), b),
        insert_view_by_start(s, e).len() == s.len() + 1,
    decreases s.len(),
{
    if s.len() > 0 && s.last().span.start > e.span.start {
        let d = s.drop_last();
        assert forall|i: int| 0 <= i < d.len() implies span_ok(#[trigger] d[i].span, b) by {
            assert(d[i] == s[i]);
        }
        lemma_insert_spans(d, e, b);
        let r = insert_view_by_start(d, e);
        assert(span_ok(s[s.len() - 1].span, b));
        assert forall|i: int| 0 <= i < r.push(s.last()).len() implies span_ok(#[trigger] r.push(s.last())[i].span, b) by {
            if i < r.len() {
                assert(r.push(s.last())[i] == r[i]);
            }
        }
    } else if s.len() > 0 {
        assert forall|i: int| 0 <= i < s.push(e).len() implies span_ok(#[trigger] s.push(e)[i].span, b) by {
            if i < s.len() {
                assert(s.push(e)[i] == s[i]);
            }
        }
    } else {
        assert(seq![e][0] == e);
    }
}

proof fn lemma_sort_spans(s: Seq<EntityView>, b: Seq<u8>)
    requires
        all_spans_ok(s, b),
    ensures
        all_spans_ok(sort_views_by_start(s), b),
        sort_views_by_start(s).len() == s.len(),
    decreases s.len(),
{
    if s.len() > 0 {
        let d = s.drop_last();
        assert forall|i: int| 0 <= i < d.len() implies span_ok(#[trigger] d[i].span, b) by {
            assert(d[i] == s[i]);
        }
        lemma_sort_spans(d, b);
        assert(span_ok(s[s.len() - 1].span, b));
        lemma_insert_spans(sort_views_by_start(d), s.last(), b);
    }
}

/// The entities the masking pass walks over lie within `b` when the entities given do.
pub proof fn lemma_to_mask_spans(es: Seq<EntityView>, p: EffectivePolicy, b: Seq<u8>)
    requires
        forall|i: int| 0 <= i < es.len() ==> entity_spans_ok(#[trigger] es[i], b),
    ensures
        all_spans_ok(entities_to_mask(es, p, b), b),
{
    lemma_expand_spans(es, p.address_mode, b);
    let v1 = expand_addresses(es, p.address_mode);
    lemma_retain_spans(v1, p, b);
    let v2 = retain_policy_types(v1, p);
    let v3 = Seq::new(v2.len(), |i: int| with_canonical(v2[i], b));
    assert forall|i: int| 0 <= i < v3.len() implies span_ok(#[trigger] v3[i].span, b) by {
        assert(v3[i].span == v2[i].span);
    }
    lemma_sort_spans(v3, b);
}

/// Masks the entities of a line in one pass (see `entities_to_mask` and `mask_pass`): the
/// masked text, what was masked, and the records of reversible masks.
pub fn mask_entities(
    maskers: &Maskers,
    policy: &EffectivePolicy,
    original: &str,
    entities: Vec<Entity>,
    state: &mut MaskState,
) -> (r: (String, Vec<MaskedEntityInfo>, Vec<MaskRecord>))
    requires
        forall|i: int| 0 <= i < entities@.len() ==> entity_spans_ok(#[trigger] entity_view(entities@[i]), encode_utf8(original@)),
        old(state).wf(),
        forall|t: Seq<char>| old(state).counter(t) + expand_addresses(entity_views(entities@), policy.address_mode).len() < u32::MAX,
    ensures
        ({
            let b = encode_utf8(original@);
            let es = entities_to_mask(entity_views(entities@), *policy, b);
            let a = mask_pass(*maskers, *policy, b, es, old(state).numbering(), es.len());
            &&& encode_utf8(r.0@) == a.out + b.subrange(a.cursor, b.len() as int)
            &&& r.1@.len() == a.infos.len()
            &&& forall|i: int| 0 <= i < a.infos.len() ==> (#[trigger] r.1@[i])@ == a.infos[i]
            &&& r.2@.len() == a.records.len()
            &&& forall|i: int| 0 <= i < a.records.len() ==> record_view(#[trigger] r.2@[i]) == a.records[i]
            &&& final(state).wf()
            &&& final(state).numbering() == a.numbering
        }),
{
    let ghost b = encode_utf8(original@);
    let ghost v_in = entity_views(entities@);
    proof {
        lemma_entity_views(entities@);
        assert forall|i: int| 0 <= i < v_in.len() implies entity_spans_ok(#[trigger] v_in[i], b) by {
            assert(v_in[i] == entity_view(entities@[i]));
        }
        lemma_expand_spans(v_in, policy.address_mode, b);
    }
    let ghost v1 = expand_addresses(v_in, policy.address_mode);
    let expanded = expand_entities(entities, policy.address_mode);
    let ghost v2 = retain_policy_types(v1, *policy);
    proof {
        lemma_retain_spans(v1, *policy, b);
    }
    let kept = retain_types(expanded, policy, Ghost(v1));
    let ghost v3 = Seq::new(v2.len(), |i: int| with_canonical(v2[i], b));
    let canon = fill_canonical(kept, original, Ghost(v2));
    assert(all_spans_ok(v3, b)) by {
        assert forall|i: int| 0 <= i < v3.len() implies span_ok(#[trigger] v3[i].span, b) by {
            assert(v3[i].span == v2[i].span);
        }
    }
    proof {
        lemma_sort_spans(v3, b);
    }
    let ghost v4 = sort_views_by_start(v3);
    let sorted = sort_entities(canon, Ghost(v3));
    assert(v4 == entities_to_mask(v_in, *policy, b));
    mask_pass_exec(maskers, policy, original, &sorted, state, Ghost(v4))
}


// ---------------------------------------------------------------- named-entity windows

/// A word other than the first begins with an upper-case letter.
pub open spec fn later_word_capitalized(s: Seq<char>) -> bool {
    exists|j: int|
        0 < j < s.len() && !whitespace(#[trigger] s[j]) && whitespace(s[j - 1]) && uppercase(s[j])
            && exists|i: int| 0 <= i < j && !whitespace(#[trigger] s[i])
}

/// Words that open a named-entity window.
pub open spec fn ner_trigger_words() -> Seq<Seq<char>> {
    seq![
        "клиент"@,
        "зовут"@,
        "проживает"@,
        "уроженец"@,
        "гражданин"@,
        "заявитель"@,
        "родился"@,
        "родилась"@,
    ]
}

/// The original span of a normalized byte range.
pub open spec fn orig_span(doc: Document, ns: usize, ne: usize) -> Span {
    if doc.offsets().len() == 0 {
        Span { start: ns, end: ne }
    } else {
        Span { start: doc.orig_of(ns), end: doc.orig_of(ne) }
    }
}

/// A sentence (its normalized characters and byte range) calls for named-entity
/// recognition: in the original, a word other than the first is capitalized, or the
/// sentence holds a trigger word.
pub open spec fn ner_signal(doc: Document, sentence: Seq<char>, ns: usize, ne: usize) -> bool {
    later_word_capitalized(span_text(encode_utf8(doc.original@), orig_span(doc, ns, ne)))
        || exists|i: int| 0 <= i < ner_trigger_words().len() && seq_contains_seq(sentence, #[trigger] ner_trigger_words()[i])
}

fn later_word_capitalized_exec(s: &str) -> (r: bool)
    ensures
        r == later_word_capitalized(s@),
{
    let cs = str_chars(s);
    let mut seen = false;
    let mut i: usize = 0;
    while i < cs.len()
        invariant
            cs@ == s@,
            i <= cs@.len(),
            seen == exists|x: int| 0 <= x < i && !whitespace(#[trigger] cs@[x]),
            forall|j: int|
                0 < j < i && !whitespace(#[trigger] cs@[j]) && whitespace(cs@[j - 1]) && uppercase(cs@[j])
                    ==> forall|x: int| 0 <= x < j ==> whitespace(#[trigger] cs@[x]),
        decreases cs.len() - i,
    {
        let c = cs[i];
        if !is_whitespace(c) {
            if i > 0 && seen && is_whitespace(cs[i - 1]) && is_uppercase(c) {
                return true;
            }
            seen = true;
        }
        i += 1;
    }
    false
}

fn has_ner_signal(doc: &Document, sentence: &[char], norm_start: usize, norm_end: usize) -> (r: bool)
    requires
        doc.wf(),
        norm_start <= norm_end,
        doc.offsets().len() == 0 ==> span_ok(Span { start: norm_start, end: norm_end }, encode_utf8(doc.original@)),
    ensures
        r == ner_signal(*doc, sentence@, norm_start, norm_end),
{
    let span = doc.to_original(norm_start, norm_end);
    let orig = doc.original_slice(span);
    proof {
        encode_utf8_decode_utf8(orig@);
    }
    if later_word_capitalized_exec(orig) {
        return true;
    }
    let words: Vec<&str> = vec!["клиент", "зовут", "проживает", "уроженец", "гражданин", "заявитель", "родился", "родилась"];
    let mut i: usize = 0;
    while i < words.len()
        invariant
            words@.len() == ner_trigger_words().len(),
            forall|j: int| 0 <= j < words@.len() ==> (#[trigger] words@[j])@ == ner_trigger_words()[j],
            i <= words@.len(),
            forall|j: int| 0 <= j < i ==> !seq_contains_seq(sentence@, #[trigger] ner_trigger_words()[j]),
        decreases words.len() - i,
    {
        let w = str_chars(words[i]);
        if chars_contains(sentence, w.as_slice()) {
            return true;
        }
        i += 1;
    }
    false
}

/// The character is one that ends a sentence.
pub open spec fn ends_sentence(c: char) -> bool {
    c == '.' || c == '!' || c == '?' || c == '\n'
}

/// Sentences of the first `k` characters, as character index ranges, and where the next one
/// begins.
pub open spec fn sentence_scan(s: Seq<char>, k: nat) -> (Seq<(int, int)>, int)
    decreases k,
{
    if k == 0 {
        (Seq::empty(), 0)
    } else {
        let prev = sentence_scan(s, (k - 1) as nat);
        if ends_sentence(s[k - 1]) {
            if k > prev.1 {
                (prev.0.push((prev.1, k as int)), k as int)
            } else {
                (prev.0, k as int)
            }
        } else {
            prev
        }
    }
}

/// The sentences of a text: runs ending in `.`, `!`, `?` or a line break, and the rest.
pub open spec fn sentences(s: Seq<char>) -> Seq<(int, int)> {
    let r = sentence_scan(s, s.len());
    if r.1 < s.len() {
        r.0.push((r.1, s.len() as int))
    } else {
        r.0
    }
}

/// The byte span of a range of characters of `s`.
pub open spec fn byte_span(s: Seq<char>, r: (int, int)) -> Span {
    Span { start: byte_len(s.take(r.0)) as usize, end: byte_len(s.take(r.1)) as usize }
}

/// The sentences (as normalized byte spans) that call for named-entity recognition.
pub open spec fn signal_sentences(doc: Document, ss: Seq<(int, int)>) -> Seq<Span>
    decreases ss.len(),
{
    if ss.len() == 0 {
        Seq::empty()
    } else {
        let prev = signal_sentences(doc, ss.drop_last());
        let r = ss.last();
        let sp = byte_span(doc.norm@, r);
        if ner_signal(doc, doc.norm@.subrange(r.0, r.1), sp.start, sp.end) {
            prev.push(sp)
        } else {
            prev
        }
    }
}

/// The limit of windows of a policy: its own, else 64 per named-entity type (at least one).
pub open spec fn max_windows(p: EffectivePolicy) -> int {
    if p.max_windows_per_request > 0 {
        p.max_windows_per_request as int
    } else if p.ner_types@.len() > 1 {
        (p.ner_types@.len() * 64) as int
    } else {
        64
    }
}

/// The windows sent to named-entity recognition: sentences with a signal, at most `max_windows`.
pub open spec fn ner_windows(doc: Document, p: EffectivePolicy) -> Seq<Span> {
    let w = signal_sentences(doc, sentences(doc.norm@));
    if w.len() > max_windows(p) {
        w.take(max_windows(p))
    } else {
        w
    }
}


/// Sentence boundaries of a text, as character index ranges.
fn sentence_bounds(cs: &Vec<char>) -> (bounds: Vec<(usize, usize)>)
    ensures
        bounds_view(bounds@) == sentences(cs@),
        forall|j: int| 0 <= j < bounds@.len() ==> #[trigger] bounds@[j].0 <= bounds@[j].1 <= cs@.len(),
{
    let ghost s = cs@;
    let mut bounds: Vec<(usize, usize)> = Vec::new();
    let mut start: usize = 0;
    let mut k: usize = 0;
    while k < cs.len()
        invariant
            cs@ == s,
            k <= cs@.len(),
            sentence_scan(s, k as nat).0 == bounds_view(bounds@),
            sentence_scan(s, k as nat).1 == start as int,
            start <= k,
            forall|j: int| 0 <= j < bounds@.len() ==> #[trigger] bounds@[j].0 <= bounds@[j].1 <= k,
        decreases cs.len() - k,
    {
        let c = cs[k];
        let ghost before = bounds@;
        let ghost prev = sentence_scan(s, k as nat);
        assert(s[k as int] == c);
        if c == '.' || c == '!' || c == '?' || c == '\n' {
            assert(sentence_scan(s, (k + 1) as nat) == (prev.0.push((prev.1, k + 1)), (k + 1) as int));
            bounds.push((start, k + 1));
            assert(bounds_view(bounds@) =~= bounds_view(before).push((start as int, k + 1)));
            assert forall|j: int| 0 <= j < bounds@.len() implies #[trigger] bounds@[j].0 <= bounds@[j].1 <= k + 1 by {
                if j < before.len() {
                    assert(bounds@[j] == before[j]);
                }
            }
            start = k + 1;
        } else {
            assert(sentence_scan(s, (k + 1) as nat) == prev);
            assert forall|j: int| 0 <= j < bounds@.len() implies #[trigger] bounds@[j].0 <= bounds@[j].1 <= k + 1 by {
                assert(bounds@[j] == before[j]);
            }
        }
        k += 1;
    }
    let ghost before_last = bounds@;
    if start < cs.len() {
        bounds.push((start, cs.len()));
        assert(bounds_view(bounds@) =~= bounds_view(before_last).push((start as int, cs@.len() as int)));
        assert forall|j: int| 0 <= j < bounds@.len() implies #[trigger] bounds@[j].0 <= bounds@[j].1 <= cs@.len() by {
            if j < before_last.len() {
                assert(bounds@[j] == before_last[j]);
            }
        }
    }
    bounds
}

/// Index pairs as integers.
pub open spec fn bounds_view(b: Seq<(usize, usize)>) -> Seq<(int, int)> {
    Seq::new(b.len(), |j: int| (b[j].0 as int, b[j].1 as int))
}

proof fn lemma_take_byte_mono(s: Seq<char>, a: int, b: int)
    requires
        0 <= a <= b <= s.len(),
    ensures
        byte_len(s.take(a)) <= byte_len(s.take(b)),
{
    lemma_prefix_boundary(s.take(b), a);
    assert(s.take(b).take(a) =~= s.take(a));
}

/// Sentences of the normalized text that call for named-entity recognition, as normalized
/// byte spans, at most `max_windows` of them.
pub fn select_ner_windows(doc: &Document, policy: &EffectivePolicy) -> (r: Vec<Span>)
    requires
        doc.wf(),
        policy.ner_types@.len() * 64 <= usize::MAX,
    ensures
        r@ == ner_windows(*doc, *policy),
{
    let cs = str_chars(doc.norm.as_str());
    let ghost s = doc.norm@;
    let total = str_byte_len(doc.norm.as_str());
    // sentence boundaries, as character indices
    let bounds = sentence_bounds(&cs);
    // byte offsets of each character index
    let mut pos: Vec<usize> = Vec::new();
    let mut acc: usize = 0;
    let mut i: usize = 0;
    proof {
        lemma_prefix_boundary(s, 0);
    }
    while i < cs.len()
        invariant
            cs@ == s,
            i <= cs@.len(),
            pos@.len() == i,
            total == byte_len(s),
            acc == byte_len(s.take(i as int)),
            forall|j: int| 0 <= j < i ==> #[trigger] pos@[j] == byte_len(s.take(j)),
        decreases cs.len() - i,
    {
        pos.push(acc);
        let n = crate::textops::char_len_utf8(cs[i]);
        proof {
            crate::textops::lemma_byte_len_push(s.take(i as int), s[i as int]);
            assert(s.take(i + 1) =~= s.take(i as int).push(s[i as int]));
            lemma_prefix_boundary(s, i + 1);
            crate::textops::lemma_encode_concat(s.take(i + 1), s.skip(i + 1));
        }
        acc = acc + n;
        i += 1;
    }
    assert(s.take(s.len() as int) =~= s);
    pos.push(acc);
    // windows
    let mut windows: Vec<Span> = Vec::new();
    let mut w: usize = 0;
    let ghost ss = sentences(s);
    while w < bounds.len()
        invariant
            cs@ == s,
            s == doc.norm@,
            doc.wf(),
            ss == bounds_view(bounds@),
            pos@.len() == s.len() + 1,
            forall|j: int| 0 <= j <= s.len() ==> #[trigger] pos@[j] == byte_len(s.take(j)),
            w <= bounds@.len(),
            windows@ == signal_sentences(*doc, ss.take(w as int)),
            forall|j: int| 0 <= j < bounds@.len() ==> #[trigger] bounds@[j].0 <= bounds@[j].1 <= s.len(),
        decreases bounds.len() - w,
    {
        let (a, b) = bounds[w];
        assert(ss[w as int] == (a as int, b as int));
        let sentence = vstd::slice::slice_subrange(cs.as_slice(), a, b);
        let ns = pos[a];
        let ne = pos[b];
        proof {
            lemma_take_byte_mono(s, a as int, b as int);
            lemma_prefix_boundary(s, a as int);
            lemma_prefix_boundary(s, b as int);
            assert(ss.take(w + 1).drop_last() =~= ss.take(w as int));
            assert(ss.take(w + 1).last() == ss[w as int]);
            assert(byte_span(s, ss[w as int]) == Span { start: ns, end: ne });
            assert(sentence@ == s.subrange(a as int, b as int));
            if doc.offsets().len() == 0 {
                assert(doc.original@ == s);
            }
        }
        if has_ner_signal(doc, sentence, ns, ne) {
            windows.push(Span::new(ns, ne));
        }
        w += 1;
    }
    assert(ss.take(bounds@.len() as int) =~= ss);
    let limit: usize = if policy.max_windows_per_request > 0 {
        policy.max_windows_per_request
    } else if policy.ner_types.len() > 1 {
        policy.ner_types.len() * 64
    } else {
        64
    };
    if windows.len() > limit {
        windows.truncate(limit);
    }
    windows
}


// ---------------------------------------------------------------- early exit

/// A character that hints at personal data: a digit, `@` or an upper-case letter.
pub open spec fn pd_signal_char(c: char) -> bool {
    is_digit(c) || c == '@' || uppercase(c)
}

/// Context words that hint at personal data, in lower case.
pub open spec fn pd_trigger_words() -> Seq<Seq<char>> {
    seq![
        "паспорт"@, "серия"@, "телефон"@, "клиент"@, "гражданин"@, "инн"@, "снилс"@, "карта"@,
        "пин"@, "cvv"@, "email"@, "адрес"@, "проживает"@, "родился"@, "родилась"@, "выдан"@,
        "водительск"@, "держатель"@, "фио"@, "дата рождения"@,
    ]
}

/// The lower-cased text holds one of the context words.
pub open spec fn has_trigger_word(text: Seq<char>) -> bool {
    exists|k: int| 0 <= k < pd_trigger_words().len() && seq_contains_seq(str_lowercase_of(text), #[trigger] pd_trigger_words()[k])
}

/// The text hints at personal data: it has a digit, `@` or an upper-case letter, or one of
/// the context words (compared in lower case).
pub open spec fn pd_signal(text: Seq<char>) -> bool {
    (exists|i: int| 0 <= i < text.len() && pd_signal_char(#[trigger] text[i])) || has_trigger_word(text)
}

/// Quick test for hints of personal data: a text holds none when it has no digit, no `@`,
/// no upper-case letter and none of the context words (compared in lower case).
pub fn has_pd_signal(text: &str) -> (r: bool)
    ensures
        r == pd_signal(text@),
{
    let cs = str_chars(text);
    let mut i: usize = 0;
    while i < cs.len()
        invariant
            cs@ == text@,
            i <= cs@.len(),
            forall|j: int| 0 <= j < i ==> !pd_signal_char(#[trigger] cs@[j]),
        decreases cs.len() - i,
    {
        let c = cs[i];
        if is_ascii_digit(c) || c == '@' || is_uppercase(c) {
            assert(pd_signal_char(cs@[i as int]));
            return true;
        }
        i += 1;
    }
    let lower = str_to_lowercase(text);
    let triggers: Vec<&str> = vec![
        "паспорт", "серия", "телефон", "клиент", "гражданин", "инн", "снилс", "карта",
        "пин", "cvv", "email", "адрес", "проживает", "родился", "родилась", "выдан",
        "водительск", "держатель", "фио", "дата рождения",
    ];
    let found = str_contains_any(lower.as_str(), triggers.as_slice());
    proof {
        assert(Seq::new(triggers@.len(), |k: int| triggers@[k]@) =~= pd_trigger_words());
        if found {
            let k = choose|k: int| 0 <= k < triggers@.len() && seq_contains_seq(lower@, #[trigger] triggers@[k]@);
            assert(pd_trigger_words()[k] == triggers@[k]@);
        }
        if has_trigger_word(text@) {
            let k = choose|k: int| 0 <= k < pd_trigger_words().len() && seq_contains_seq(str_lowercase_of(text@), #[trigger] pd_trigger_words()[k]);
            assert(pd_trigger_words()[k] == triggers@[k]@);
        }
    }
    found
}


/// Demasks one line (see `demask`): placeholders back to their originals, then partially
/// masked forms; with no entries the line comes back as it is.
pub fn demask_line(text: &str, mapping: &Mapping) -> (r: DemaskResult)
    ensures
        r.text@ == demask_text(text@, mapping.entries@),
        r.restored == if demask_restored(text@, mapping.entries@) < usize::MAX {
            demask_restored(text@, mapping.entries@)
        } else {
            usize::MAX as int
        },
        r.unresolved == demask_unresolved(text@, mapping.entries@),
        mapping.entries@.len() == 0 ==> r.text@ == text@ && r.restored == 0
            && r.unresolved == placeholder_matches_of(text@).len(),
{
    demask(text, mapping)
}

/// The answer for a line that is not masked: one without hints of personal data, or one
/// too long for 32-bit offsets, comes back as it is, with nothing found. `None` means the
/// line goes through detection.
pub fn line_without_masking(original: &str) -> (r: Option<MaskLineResult>)
    ensures
        r is None <==> pd_signal(original@) && byte_len(original@) <= u32::MAX,
        r matches Some(l) ==> l.text@ == original@ && l.entities@.len() == 0 && l.records@.len() == 0
            && !l.degraded && !l.ner_failed,
{
    if has_pd_signal(original) && str_byte_len(original) <= 0xFFFF_FFFF {
        return None;
    }
    Some(MaskLineResult {
        text: original.to_string(),
        entities: Vec::new(),
        records: Vec::new(),
        degraded: false,
        ner_failed: false,
    })
}

} // verus!
