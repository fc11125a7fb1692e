//! Candidates, entities, mask records and the per-session numbering of placeholders.
use vstd::prelude::*;

use crate::domain::document::Span;
use crate::domain::pd_type::PdType;
use crate::domain::sensitive::Sensitive;

verus! {

/// Where a candidate comes from.
#[derive(Debug)]
pub enum DetectorSource {
    Regex { id: String },
    Checksum { id: String },
    Ner { model: String },
    Dictionary { id: String },
    Custom { id: String },
}

impl Clone for DetectorSource {
    fn clone(&self) -> (r: Self)
        ensures
            r == *self,
    {
        match self {
            DetectorSource::Regex { id } => DetectorSource::Regex { id: id.clone() },
            DetectorSource::Checksum { id } => DetectorSource::Checksum { id: id.clone() },
            DetectorSource::Ner { model } => DetectorSource::Ner { model: model.clone() },
            DetectorSource::Dictionary { id } => DetectorSource::Dictionary { id: id.clone() },
            DetectorSource::Custom { id } => DetectorSource::Custom { id: id.clone() },
        }
    }
}

pub open spec fn source_kind(s: DetectorSource) -> Seq<char> {
    match s {
        DetectorSource::Regex { .. } => "regex"@,
        DetectorSource::Checksum { .. } => "checksum"@,
        DetectorSource::Ner { .. } => "ner"@,
        DetectorSource::Dictionary { .. } => "dictionary"@,
        DetectorSource::Custom { .. } => "custom"@,
    }
}

impl DetectorSource {
    /// The kind of source, as a lowercase word.
    pub fn kind(&self) -> (r: &'static str)
        ensures
            r@ == source_kind(*self),
    {
        match self {
            DetectorSource::Regex { .. } => "regex",
            DetectorSource::Checksum { .. } => "checksum",
            DetectorSource::Ner { .. } => "ner",
            DetectorSource::Dictionary { .. } => "dictionary",
            DetectorSource::Custom { .. } => "custom",
        }
    }
}

/// One signal gathered during detection.
#[derive(Clone, Copy, Debug, PartialEq, Eq, Structural)]
pub enum Signal {
    ChecksumOk,
    ContextPos,
    ContextNeg,
    DictHit,
    CapitalizedOriginal,
    Validated,
}

/// The set of signals gathered during detection.
#[derive(Clone, Copy, Debug, PartialEq, Eq, Structural)]
pub struct SignalFlags {
    pub checksum_ok: bool,
    pub context_pos: bool,
    pub context_neg: bool,
    pub dict_hit: bool,
    pub capitalized_original: bool,
    pub validated: bool,
}

impl SignalFlags {
    pub open spec fn has(self, s: Signal) -> bool {
        match s {
            Signal::ChecksumOk => self.checksum_ok,
            Signal::ContextPos => self.context_pos,
            Signal::ContextNeg => self.context_neg,
            Signal::DictHit => self.dict_hit,
            Signal::CapitalizedOriginal => self.capitalized_original,
            Signal::Validated => self.validated,
        }
    }

    pub fn empty() -> (r: SignalFlags)
        ensures
            r == SignalFlags::empty_spec(),
            forall|s: Signal| !r.has(s),
    {
        SignalFlags {
            checksum_ok: false,
            context_pos: false,
            context_neg: false,
            dict_hit: false,
            capitalized_original: false,
            validated: false,
        }
    }

    pub fn is_empty(&self) -> (r: bool)
        ensures
            r == forall|s: Signal| !self.has(s),
    {
        let r = !(self.checksum_ok || self.context_pos || self.context_neg || self.dict_hit
            || self.capitalized_original || self.validated);
        proof {
            if !r {
                if self.checksum_ok {
                    assert(self.has(Signal::ChecksumOk));
                } else if self.context_pos {
                    assert(self.has(Signal::ContextPos));
                } else if self.context_neg {
                    assert(self.has(Signal::ContextNeg));
                } else if self.dict_hit {
                    assert(self.has(Signal::DictHit));
                } else if self.capitalized_original {
                    assert(self.has(Signal::CapitalizedOriginal));
                } else {
                    assert(self.has(Signal::Validated));
                }
            }
        }
        r
    }

    pub fn contains(&self, s: Signal) -> (r: bool)
        ensures
            r == self.has(s),
    {
        match s {
            Signal::ChecksumOk => self.checksum_ok,
            Signal::ContextPos => self.context_pos,
            Signal::ContextNeg => self.context_neg,
            Signal::DictHit => self.dict_hit,
            Signal::CapitalizedOriginal => self.capitalized_original,
            Signal::Validated => self.validated,
        }
    }

    pub fn insert(&mut self, s: Signal)
        ensures
            forall|x: Signal| final(self).has(x) == (old(self).has(x) || x == s),
    {
        match s {
            Signal::ChecksumOk => self.checksum_ok = true,
            Signal::ContextPos => self.context_pos = true,
            Signal::ContextNeg => self.context_neg = true,
            Signal::DictHit => self.dict_hit = true,
            Signal::CapitalizedOriginal => self.capitalized_original = true,
            Signal::Validated => self.validated = true,
        }
    }
}

/// A candidate value before conflicts are resolved. `score` is in thousandths (0..=1000).
#[derive(Debug)]
pub struct Candidate {
    pub pd_type: PdType,
    pub span: Span,
    pub score: u32,
    pub source: DetectorSource,
    pub components: Vec<Candidate>,
    pub signals: SignalFlags,
}

/// The value of a candidate, its components taken by their values.
pub struct CandidateView {
    pub pd_type: Seq<char>,
    pub span: Span,
    pub score: u32,
    pub source: DetectorSource,
    pub components: Seq<CandidateView>,
    pub signals: SignalFlags,
}

pub open spec fn cand_view(c: Candidate) -> CandidateView
    decreases c,
{
    CandidateView {
        pd_type: c.pd_type@,
        span: c.span,
        score: c.score,
        source: c.source,
        components: cand_views(c.components@),
        signals: c.signals,
    }
}

pub open spec fn cand_views(s: Seq<Candidate>) -> Seq<CandidateView>
    decreases s,
{
    if s.len() == 0 {
        Seq::empty()
    } else {
        cand_views(s.drop_last()).push(cand_view(s.last()))
    }
}

pub proof fn lemma_cand_views(s: Seq<Candidate>)
    ensures
        cand_views(s).len() == s.len(),
        forall|i: int| 0 <= i < s.len() ==> #[trigger] cand_views(s)[i] == cand_view(s[i]),
    decreases s.len(),
{
    if s.len() > 0 {
        lemma_cand_views(s.drop_last());
    }
}

impl View for Candidate {
    type V = CandidateView;

    open spec fn view(&self) -> CandidateView {
        cand_view(*self)
    }
}

impl Clone for Candidate {
    fn clone(&self) -> (r: Self)
        ensures
            r@ == self@,
        decreases self,
    {
        let mut comps: Vec<Candidate> = Vec::new();
        let mut i: usize = 0;
        while i < self.components.len()
            invariant
                i <= self.components@.len(),
                comps@.len() == i,
                forall|j: int| 0 <= j < i ==> (#[trigger] comps@[j])@ == self.components@[j]@,
            decreases self.components.len() - i,
        {
            let c = self.components[i].clone();
            comps.push(c);
            i += 1;
        }
        let r = Candidate {
            pd_type: self.pd_type.clone(),
            span: self.span,
            score: self.score,
            source: self.source.clone(),
            components: comps,
            signals: self.signals,
        };
        proof {
            lemma_cand_views(r.components@);
            lemma_cand_views(self.components@);
        }
        assert(r@.components =~= self@.components);
        r
    }
}

impl Candidate {
    pub fn new(pd_type: PdType, span: Span, score: u32, source: DetectorSource) -> (r: Candidate)
        ensures
            r.pd_type == pd_type,
            r.span == span,
            r.score == score,
            r.source == source,
            r.components@.len() == 0,
            r.signals == SignalFlags::empty_spec(),
    {
        Candidate {
            pd_type,
            span,
            score,
            source,
            components: Vec::new(),
            signals: SignalFlags::empty(),
        }
    }
}

impl SignalFlags {
    pub open spec fn empty_spec() -> SignalFlags {
        SignalFlags {
            checksum_ok: false,
            context_pos: false,
            context_neg: false,
            dict_hit: false,
            capitalized_original: false,
            validated: false,
        }
    }
}

/// A value after conflicts are resolved, with its canonical form.
pub struct Entity {
    pub pd_type: PdType,
    pub span: Span,
    pub score: u32,
    pub source: DetectorSource,
    pub components: Vec<Entity>,
    pub canonical: Sensitive<String>,
}

/// The value of an entity, its components taken by their values.
pub struct EntityView {
    pub pd_type: Seq<char>,
    pub span: Span,
    pub score: u32,
    pub source: DetectorSource,
    pub components: Seq<EntityView>,
    pub canonical: Seq<char>,
}

pub open spec fn entity_view(e: Entity) -> EntityView
    decreases e,
{
    EntityView {
        pd_type: e.pd_type@,
        span: e.span,
        score: e.score,
        source: e.source,
        components: entity_views(e.components@),
        canonical: e.canonical.value()@,
    }
}

pub open spec fn entity_views(s: Seq<Entity>) -> Seq<EntityView>
    decreases s,
{
    if s.len() == 0 {
        Seq::empty()
    } else {
        entity_views(s.drop_last()).push(entity_view(s.last()))
    }
}

pub proof fn lemma_entity_views(s: Seq<Entity>)
    ensures
        entity_views(s).len() == s.len(),
        forall|i: int| 0 <= i < s.len() ==> #[trigger] entity_views(s)[i] == entity_view(s[i]),
    decreases s.len(),
{
    if s.len() > 0 {
        lemma_entity_views(s.drop_last());
    }
}

impl View for Entity {
    type V = EntityView;

    open spec fn view(&self) -> EntityView {
        entity_view(*self)
    }
}

impl Clone for Entity {
    fn clone(&self) -> (r: Self)
        ensures
            r@ == self@,
        decreases self,
    {
        let mut comps: Vec<Entity> = Vec::new();
        let mut i: usize = 0;
        while i < self.components.len()
            invariant
                i <= self.components@.len(),
                comps@.len() == i,
                forall|j: int| 0 <= j < i ==> (#[trigger] comps@[j])@ == self.components@[j]@,
            decreases self.components.len() - i,
        {
            let c = self.components[i].clone();
            comps.push(c);
            i += 1;
        }
        let r = Entity {
            pd_type: self.pd_type.clone(),
            span: self.span,
            score: self.score,
            source: self.source.clone(),
            components: comps,
            canonical: self.canonical.clone(),
        };
        proof {
            lemma_entity_views(r.components@);
            lemma_entity_views(self.components@);
        }
        assert(r@.components =~= self@.components);
        r
    }
}

/// Record of one masked value.
#[derive(Debug)]
pub struct MaskRecord {
    pub masked_span: Span,
    pub original_span: Span,
    pub pd_type: PdType,
    pub key: Option<String>,
}


/// Counter of the numbers given to a type (the last entry for the type wins; 0 when none).
pub open spec fn counter_in(cs: Seq<(PdType, u32)>, t: Seq<char>) -> int
    decreases cs.len(),
{
    if cs.len() == 0 {
        0
    } else if cs.last().0@ == t {
        cs.last().1 as int
    } else {
        counter_in(cs.drop_last(), t)
    }
}

/// Number already given to a value of a type, if any (the last entry wins).
pub open spec fn assigned_in(a: Seq<(PdType, String, u32)>, t: Seq<char>, c: Seq<char>) -> Option<
    u32,
>
    decreases a.len(),
{
    if a.len() == 0 {
        None
    } else if a.last().0@ == t && a.last().1@ == c {
        Some(a.last().2)
    } else {
        assigned_in(a.drop_last(), t, c)
    }
}

/// Numbering of placeholders within a session: per type, a counter of distinct values,
/// and the number given to each value already seen.
pub struct MaskState {
    /// For each type, how many distinct values got a number.
    pub counters: Vec<(PdType, u32)>,
    /// For each (type, canonical value), its number.
    pub assigned: Vec<(PdType, String, u32)>,
}

impl MaskState {
    pub open spec fn counter(&self, t: Seq<char>) -> int {
        counter_in(self.counters@, t)
    }

    pub open spec fn number_of(&self, t: Seq<char>, c: Seq<char>) -> Option<u32> {
        assigned_in(self.assigned@, t, c)
    }

    /// Numbers of a type lie in `1..=counter`, and two values of a type never share one.
    pub open spec fn wf(&self) -> bool {
        &&& forall|t: Seq<char>, c: Seq<char>|
            #[trigger] self.number_of(t, c) matches Some(n) ==> 1 <= n <= self.counter(t)
        &&& forall|t: Seq<char>, c1: Seq<char>, c2: Seq<char>|
            #![trigger self.number_of(t, c1), self.number_of(t, c2)]
            self.number_of(t, c1) is Some && self.number_of(t, c2) is Some && c1 != c2
                ==> self.number_of(t, c1) != self.number_of(t, c2)
    }

    /// The number `next_number` gives to a value: its number if already seen, else the
    /// next one of its type.
    pub open spec fn number_for(&self, t: Seq<char>, c: Seq<char>) -> u32 {
        match self.number_of(t, c) {
            Some(n) => n,
            None => (self.counter(t) + 1) as u32,
        }
    }

    pub fn new() -> (r: MaskState)
        ensures
            r.wf(),
            forall|t: Seq<char>| r.counter(t) == 0,
            forall|t: Seq<char>, c: Seq<char>| r.number_of(t, c) is None,
    {
        MaskState { counters: Vec::new(), assigned: Vec::new() }
    }

    /// Number of the placeholder of a value. The same value (by canonical form) of a type
    /// gets the same number within a session; different values get different numbers.
    pub fn next_number(&mut self, pd_type: &PdType, canonical: &str) -> (r: u32)
        requires
            old(self).wf(),
            old(self).counter(pd_type@) < u32::MAX,
        ensures
            r == old(self).number_for(pd_type@, canonical@),
            numbered(*old(self), *final(self), pd_type@, canonical@),
    {
        let known = assigned_lookup(&self.assigned, pd_type, canonical);
        if let Some(x) = known {
            return x;
        }
        let ghost old_state = *self;
        let cur = counter_lookup(&self.counters, pd_type);
        let next = cur + 1;
        self.counters.push((pd_type.clone(), next));
        self.assigned.push((pd_type.clone(), canonical.to_string(), next));
        proof {
            let cs = self.counters@;
            let a = self.assigned@;
            assert(cs.drop_last() =~= old_state.counters@);
            assert(a.drop_last() =~= old_state.assigned@);
            assert forall|t: Seq<char>| t != pd_type@ implies #[trigger] self.counter(t)
                == old_state.counter(t) by {}
            assert forall|t: Seq<char>, c: Seq<char>|
                !(t == pd_type@ && c == canonical@) implies #[trigger] self.number_of(t, c)
                == old_state.number_of(t, c) by {}
            assert forall|t: Seq<char>, c: Seq<char>| #[trigger]
                self.number_of(t, c) is Some implies 1 <= self.number_of(t, c)->0 <= self.counter(
                t,
            ) by {
                if !(t == pd_type@ && c == canonical@) {
                    assert(self.number_of(t, c) == old_state.number_of(t, c));
                    if t != pd_type@ {
                        assert(self.counter(t) == old_state.counter(t));
                    }
                }
            }
            assert forall|t: Seq<char>, c1: Seq<char>, c2: Seq<char>|
                self.number_of(t, c1) is Some && self.number_of(t, c2) is Some && c1 != c2
                    implies #[trigger] self.number_of(t, c1) != #[trigger] self.number_of(
                t,
                c2,
            ) by {
                if t == pd_type@ && c1 == canonical@ {
                    assert(old_state.number_of(t, c2) == self.number_of(t, c2));
                } else if t == pd_type@ && c2 == canonical@ {
                    assert(old_state.number_of(t, c1) == self.number_of(t, c1));
                } else {
                    assert(old_state.number_of(t, c1) == self.number_of(t, c1));
                    assert(old_state.number_of(t, c2) == self.number_of(t, c2));
                }
            }
        }
        next
    }
}

/// `post` is `pre` after value `c` of type `t` got its number: the value has the number
/// `pre.number_for(t, c)`, every other value keeps its number, and only the counter of `t`
/// may grow, by one, when the value is new.
pub open spec fn numbered(pre: MaskState, post: MaskState, t: Seq<char>, c: Seq<char>) -> bool {
    &&& post.wf()
    &&& post.number_of(t, c) == Some(pre.number_for(t, c))
    &&& forall|t2: Seq<char>, c2: Seq<char>|
        !(t2 == t && c2 == c) ==> #[trigger] post.number_of(t2, c2) == pre.number_of(t2, c2)
    &&& forall|t2: Seq<char>| t2 != t ==> #[trigger] post.counter(t2) == pre.counter(t2)
    &&& post.counter(t) == if pre.number_of(t, c) is Some {
        pre.counter(t)
    } else {
        pre.counter(t) + 1
    }
}

/// The numbering of a session as mathematical maps: the counter of each type, and the
/// number of each (type, canonical value) seen.
pub struct NumberingView {
    pub counters: Map<Seq<char>, int>,
    pub numbers: Map<(Seq<char>, Seq<char>), u32>,
}

impl MaskState {
    /// The numbering this state holds.
    pub open spec fn numbering(&self) -> NumberingView {
        NumberingView {
            counters: Map::new(|t: Seq<char>| true, |t: Seq<char>| self.counter(t)),
            numbers: Map::new(
                |k: (Seq<char>, Seq<char>)| self.number_of(k.0, k.1) is Some,
                |k: (Seq<char>, Seq<char>)| self.number_of(k.0, k.1)->0,
            ),
        }
    }
}

/// The number a value of type `t` with canonical form `c` gets under numbering `v`.
pub open spec fn number_in(v: NumberingView, t: Seq<char>, c: Seq<char>) -> u32 {
    if v.numbers.contains_key((t, c)) {
        v.numbers[(t, c)]
    } else {
        (v.counters[t] + 1) as u32
    }
}

/// Numbering `v` after value `c` of type `t` got its number.
pub open spec fn renumber(v: NumberingView, t: Seq<char>, c: Seq<char>) -> NumberingView {
    if v.numbers.contains_key((t, c)) {
        v
    } else {
        NumberingView {
            counters: v.counters.insert(t, v.counters[t] + 1),
            numbers: v.numbers.insert((t, c), (v.counters[t] + 1) as u32),
        }
    }
}

/// `number_in` on a state's numbering is the number the state gives.
pub proof fn lemma_number_in(st: MaskState, t: Seq<char>, c: Seq<char>)
    ensures
        number_in(st.numbering(), t, c) == st.number_for(t, c),
{
}

/// The state's own numbering agrees with `number_in`, and numbering a value moves the
/// numbering as `renumber` says.
pub proof fn lemma_numbering(pre: MaskState, post: MaskState, t: Seq<char>, c: Seq<char>)
    requires
        numbered(pre, post, t, c),
    ensures
        number_in(pre.numbering(), t, c) == pre.number_for(t, c),
        post.numbering() == renumber(pre.numbering(), t, c),
{
    let pv = pre.numbering();
    let qv = post.numbering();
    let r = renumber(pv, t, c);
    assert(qv.counters =~= r.counters);
    assert(qv.numbers =~= r.numbers) by {
        assert forall|k: (Seq<char>, Seq<char>)| #[trigger] qv.numbers.contains_key(k) == r.numbers.contains_key(k) by {
            if k != (t, c) {
                assert(post.number_of(k.0, k.1) == pre.number_of(k.0, k.1));
            }
        }
        assert forall|k: (Seq<char>, Seq<char>)| #[trigger] qv.numbers.contains_key(k) implies qv.numbers[k] == r.numbers[k] by {
            if k != (t, c) {
                assert(post.number_of(k.0, k.1) == pre.number_of(k.0, k.1));
            }
        }
    }
}

fn assigned_lookup(a: &Vec<(PdType, String, u32)>, t: &PdType, c: &str) -> (r: Option<u32>)
    ensures
        r == assigned_in(a@, t@, c@),
{
    let n = a.len();
    assert(a@.take(n as int) =~= a@);
    let mut i = n;
    while i > 0
        invariant
            n == a@.len(),
            i <= n,
            assigned_in(a@, t@, c@) == assigned_in(a@.take(i as int), t@, c@),
        decreases i,
    {
        let ghost pre = a@.take(i as int);
        assert(pre.drop_last() =~= a@.take(i - 1));
        let e = &a[i - 1];
        if e.0.same(t) && crate::textops::str_eq(e.1.as_str(), c) {
            return Some(e.2);
        }
        i -= 1;
    }
    None
}

fn counter_lookup(cs: &Vec<(PdType, u32)>, t: &PdType) -> (r: u32)
    ensures
        r == counter_in(cs@, t@),
{
    let n = cs.len();
    assert(cs@.take(n as int) =~= cs@);
    let mut i = n;
    while i > 0
        invariant
            n == cs@.len(),
            i <= n,
            counter_in(cs@, t@) == counter_in(cs@.take(i as int), t@),
        decreases i,
    {
        let ghost pre = cs@.take(i as int);
        assert(pre.drop_last() =~= cs@.take(i - 1));
        if cs[i - 1].0.same(t) {
            return cs[i - 1].1;
        }
        i -= 1;
    }
    0
}

/// Placeholder numbering keeps its invariant and is stable: numbering a value again
/// gives the number it got the first time.
pub proof fn law_same_value_same_number(s: MaskState, s2: MaskState, t: Seq<char>, c: Seq<char>)
    requires
        s.wf(),
        s2.number_of(t, c) == Some(s.number_for(t, c)),
    ensures
        s2.number_for(t, c) == s.number_for(t, c),
{
}

/// Two different values of one type never share a placeholder number within a session.
pub proof fn law_distinct_values_distinct_numbers(
    s: MaskState,
    t: Seq<char>,
    c1: Seq<char>,
    c2: Seq<char>,
)
    requires
        s.wf(),
        c1 != c2,
        s.number_of(t, c1) is Some,
        s.number_of(t, c2) is Some,
    ensures
        s.number_for(t, c1) != s.number_for(t, c2),
{
}

/// A value not yet seen gets a number no value of its type has.
pub proof fn law_new_value_fresh_number(s: MaskState, t: Seq<char>, c: Seq<char>, c2: Seq<char>)
    requires
        s.wf(),
        s.number_of(t, c) is None,
        s.number_of(t, c2) is Some,
        s.counter(t) < u32::MAX,
    ensures
        s.number_for(t, c) != s.number_for(t, c2),
{
}

} // verus!
