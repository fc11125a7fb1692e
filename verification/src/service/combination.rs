//! Co-occurrence rules: a type is masked only together with other types.
use vstd::prelude::*;

use crate::domain::entity::{entity_view, entity_views, lemma_entity_views, Entity, EntityView};
use crate::domain::pd_type::PdType;
use crate::domain::traits::{CombinationRuleConfig, CombinationScope, EffectivePolicy};

verus! {

/// Some entity of `all` has type `t`.
pub open spec fn has_type_in(all: Seq<Entity>, t: Seq<char>) -> bool {
    exists|i: int| 0 <= i < all.len() && (#[trigger] all[i]).pd_type@ == t
}

/// Number of distinct types among the entities.
pub open spec fn distinct_types(all: Seq<Entity>) -> nat
    decreases all.len(),
{
    if all.len() == 0 {
        0
    } else if has_type_in(all.drop_last(), all.last().pd_type@) {
        distinct_types(all.drop_last())
    } else {
        distinct_types(all.drop_last()) + 1
    }
}

/// Start offsets at most `w` apart.
pub open spec fn near(a: Entity, b: Entity, w: usize) -> bool {
    let d = if a.span.start >= b.span.start {
        a.span.start - b.span.start
    } else {
        b.span.start - a.span.start
    };
    d <= w
}

/// Some entity of type `t` of `all` is near `e`.
pub open spec fn has_type_near(all: Seq<Entity>, t: Seq<char>, e: Entity, w: usize) -> bool {
    exists|i: int| 0 <= i < all.len() && (#[trigger] all[i]).pd_type@ == t && near(e, all[i], w)
}

/// Is the rule satisfied for `e` among `all`?
pub open spec fn rule_holds(r: CombinationRuleConfig, e: Entity, all: Seq<Entity>) -> bool {
    match r.scope {
        CombinationScope::Document => {
            &&& (r.requires_any@.len() == 0 || exists|i: int|
                0 <= i < r.requires_any@.len() && has_type_in(all, #[trigger] r.requires_any@[i]@))
            &&& forall|i: int|
                0 <= i < r.requires_all@.len() ==> has_type_in(all, #[trigger] r.requires_all@[i]@)
        },
        CombinationScope::Window => {
            &&& (r.requires_any@.len() == 0 || exists|i: int|
                0 <= i < r.requires_any@.len() && has_type_near(
                    all,
                    #[trigger] r.requires_any@[i]@,
                    e,
                    r.window_chars,
                ))
            &&& forall|i: int|
                0 <= i < r.requires_all@.len() ==> has_type_near(
                    all,
                    #[trigger] r.requires_all@[i]@,
                    e,
                    r.window_chars,
                )
        },
    }
}

/// The entity stays: its type has no rule, or the rule holds.
pub open spec fn keeps(e: Entity, all: Seq<Entity>, p: EffectivePolicy) -> bool {
    match p.combination.rules.get_spec(e.pd_type@) {
        None => true,
        Some(r) => rule_holds(r, e, all),
    }
}

/// The type is one of the always-masked types.
pub open spec fn always_masked(p: EffectivePolicy, t: Seq<char>) -> bool {
    exists|i: int|
        0 <= i < p.combination.always_mask@.len() && (#[trigger] p.combination.always_mask@[i])@
            == t
}

/// The entities of `s` that satisfy `pred`, in order.
pub open spec fn filter_entities(s: Seq<Entity>, pred: spec_fn(Entity) -> bool) -> Seq<Entity>
    decreases s.len(),
{
    if s.len() == 0 {
        Seq::empty()
    } else if pred(s.last()) {
        filter_entities(s.drop_last(), pred).push(s.last())
    } else {
        filter_entities(s.drop_last(), pred)
    }
}

/// The entities that survive the co-occurrence rules.
pub open spec fn combination_result(all: Seq<Entity>, p: EffectivePolicy) -> Seq<Entity> {
    if p.combination.min_distinct_types > 0 && distinct_types(all)
        < p.combination.min_distinct_types {
        filter_entities(all, |e: Entity| always_masked(p, e.pd_type@))
    } else {
        filter_entities(all, |e: Entity| keeps(e, all, p))
    }
}

/// Two lists of entities with the same values, element by element.
pub open spec fn same_views(a: Seq<Entity>, b: Seq<Entity>) -> bool {
    &&& a.len() == b.len()
    &&& forall|i: int| 0 <= i < a.len() ==> entity_view(#[trigger] a[i]) == entity_view(b[i])
}

proof fn lemma_same_drop_last(a: Seq<Entity>, b: Seq<Entity>)
    requires
        same_views(a, b),
        a.len() > 0,
    ensures
        same_views(a.drop_last(), b.drop_last()),
        entity_view(a.last()) == entity_view(b.last()),
{
    assert(entity_view(a[a.len() - 1]) == entity_view(b[b.len() - 1]));
    assert forall|i: int| 0 <= i < a.drop_last().len() implies entity_view(#[trigger] a.drop_last()[i]) == entity_view(b.drop_last()[i]) by {
        assert(entity_view(a[i]) == entity_view(b[i]));
    }
}

proof fn lemma_same_has_type(a: Seq<Entity>, b: Seq<Entity>, t: Seq<char>)
    requires
        same_views(a, b),
    ensures
        has_type_in(a, t) == has_type_in(b, t),
{
    if has_type_in(a, t) {
        let i = choose|i: int| 0 <= i < a.len() && (#[trigger] a[i]).pd_type@ == t;
        assert(entity_view(a[i]) == entity_view(b[i]));
        assert(b[i].pd_type@ == t);
    }
    if has_type_in(b, t) {
        let i = choose|i: int| 0 <= i < b.len() && (#[trigger] b[i]).pd_type@ == t;
        assert(entity_view(a[i]) == entity_view(b[i]));
        assert(a[i].pd_type@ == t);
    }
}

proof fn lemma_same_distinct(a: Seq<Entity>, b: Seq<Entity>)
    requires
        same_views(a, b),
    ensures
        distinct_types(a) == distinct_types(b),
    decreases a.len(),
{
    if a.len() > 0 {
        lemma_same_drop_last(a, b);
        lemma_same_distinct(a.drop_last(), b.drop_last());
        lemma_same_has_type(a.drop_last(), b.drop_last(), a.last().pd_type@);
    }
}

proof fn lemma_same_near(a: Seq<Entity>, b: Seq<Entity>, t: Seq<char>, ea: Entity, eb: Entity, w: usize)
    requires
        same_views(a, b),
        entity_view(ea) == entity_view(eb),
    ensures
        has_type_near(a, t, ea, w) == has_type_near(b, t, eb, w),
{
    if has_type_near(a, t, ea, w) {
        let i = choose|i: int| 0 <= i < a.len() && (#[trigger] a[i]).pd_type@ == t && near(ea, a[i], w);
        assert(entity_view(a[i]) == entity_view(b[i]));
        assert(b[i].pd_type@ == t && near(eb, b[i], w));
    }
    if has_type_near(b, t, eb, w) {
        let i = choose|i: int| 0 <= i < b.len() && (#[trigger] b[i]).pd_type@ == t && near(eb, b[i], w);
        assert(entity_view(a[i]) == entity_view(b[i]));
        assert(a[i].pd_type@ == t && near(ea, a[i], w));
    }
}

proof fn lemma_same_keeps(a: Seq<Entity>, b: Seq<Entity>, ea: Entity, eb: Entity, p: EffectivePolicy)
    requires
        same_views(a, b),
        entity_view(ea) == entity_view(eb),
    ensures
        keeps(ea, a, p) == keeps(eb, b, p),
{
    assert(ea.pd_type@ == eb.pd_type@);
    match p.combination.rules.get_spec(ea.pd_type@) {
        None => {},
        Some(r) => {
            assert forall|t: Seq<char>| has_type_in(a, t) == has_type_in(b, t) by {
                lemma_same_has_type(a, b, t);
            }
            assert forall|t: Seq<char>| has_type_near(a, t, ea, r.window_chars) == has_type_near(b, t, eb, r.window_chars) by {
                lemma_same_near(a, b, t, ea, eb, r.window_chars);
            }
            assert(rule_holds(r, ea, a) == rule_holds(r, eb, b));
        },
    }
}

proof fn lemma_same_filter(a: Seq<Entity>, b: Seq<Entity>, pa: spec_fn(Entity) -> bool, pb: spec_fn(Entity) -> bool)
    requires
        same_views(a, b),
        forall|i: int| 0 <= i < a.len() ==> pa(#[trigger] a[i]) == pb(b[i]),
    ensures
        same_views(filter_entities(a, pa), filter_entities(b, pb)),
    decreases a.len(),
{
    if a.len() > 0 {
        lemma_same_drop_last(a, b);
        assert forall|i: int| 0 <= i < a.drop_last().len() implies pa(#[trigger] a.drop_last()[i]) == pb(b.drop_last()[i]) by {
            assert(pa(a[i]) == pb(b[i]));
        }
        lemma_same_filter(a.drop_last(), b.drop_last(), pa, pb);
        assert(pa(a[a.len() - 1]) == pb(b[b.len() - 1]));
        let fa = filter_entities(a.drop_last(), pa);
        let fb = filter_entities(b.drop_last(), pb);
        if pa(a.last()) {
            assert forall|i: int| 0 <= i < fa.push(a.last()).len() implies entity_view(#[trigger] fa.push(a.last())[i]) == entity_view(fb.push(b.last())[i]) by {
                if i < fa.len() {
                    assert(entity_view(fa[i]) == entity_view(fb[i]));
                }
            }
        }
    }
}

/// Entities with the same values keep the same values through the co-occurrence rules.
proof fn lemma_same_combination(a: Seq<Entity>, b: Seq<Entity>, p: EffectivePolicy)
    requires
        same_views(a, b),
    ensures
        same_views(combination_result(a, p), combination_result(b, p)),
{
    lemma_same_distinct(a, b);
    if p.combination.min_distinct_types > 0 && distinct_types(a) < p.combination.min_distinct_types {
        let pa = |e: Entity| always_masked(p, e.pd_type@);
        assert forall|i: int| 0 <= i < a.len() implies pa(#[trigger] a[i]) == pa(b[i]) by {
            assert(entity_view(a[i]) == entity_view(b[i]));
        }
        lemma_same_filter(a, b, pa, pa);
    } else {
        let pa = |e: Entity| keeps(e, a, p);
        let pb = |e: Entity| keeps(e, b, p);
        assert forall|i: int| 0 <= i < a.len() implies pa(#[trigger] a[i]) == pb(b[i]) by {
            lemma_same_keeps(a, b, a[i], b[i], p);
        }
        lemma_same_filter(a, b, pa, pb);
    }
}

/// The values of the entities that survive the co-occurrence rules, among entities whose
/// values are `vs`.
pub open spec fn combined_views(vs: Seq<EntityView>, p: EffectivePolicy) -> Seq<EntityView> {
    entity_views(combination_result(choose|e: Seq<Entity>| entity_views(e) == vs, p))
}

/// What the co-occurrence rules keep depends on the values of the entities alone.
pub proof fn lemma_combined_views(e: Seq<Entity>, p: EffectivePolicy)
    ensures
        entity_views(combination_result(e, p)) == combined_views(entity_views(e), p),
{
    let c = choose|c: Seq<Entity>| entity_views(c) == entity_views(e);
    assert(entity_views(c) == entity_views(e));
    lemma_entity_views(c);
    lemma_entity_views(e);
    assert forall|i: int| 0 <= i < e.len() implies entity_view(#[trigger] e[i]) == entity_view(c[i]) by {
        assert(entity_views(e)[i] == entity_views(c)[i]);
    }
    lemma_same_combination(e, c, p);
    let re = combination_result(e, p);
    let rc = combination_result(c, p);
    lemma_entity_views(re);
    lemma_entity_views(rc);
    assert(entity_views(re) =~= entity_views(rc));
}

fn has_type_exec(all: &Vec<Entity>, n: usize, t: &PdType) -> (r: bool)
    requires
        n <= all@.len(),
    ensures
        r == has_type_in(all@.take(n as int), t@),
{
    let mut i: usize = 0;
    while i < n
        invariant
            n <= all@.len(),
            i <= n,
            forall|j: int| 0 <= j < i ==> (#[trigger] all@[j]).pd_type@ != t@,
        decreases n - i,
    {
        if all[i].pd_type.same(t) {
            assert(all@.take(n as int)[i as int] == all@[i as int]);
            return true;
        }
        i += 1;
    }
    proof {
        assert forall|j: int| 0 <= j < n implies (#[trigger] all@.take(n as int)[j]).pd_type@ != t@ by {
            assert(all@.take(n as int)[j] == all@[j]);
        }
    }
    false
}

fn count_distinct(all: &Vec<Entity>) -> (r: usize)
    ensures
        r == distinct_types(all@),
{
    let mut c: usize = 0;
    let mut i: usize = 0;
    while i < all.len()
        invariant
            i <= all@.len(),
            c == distinct_types(all@.take(i as int)),
            c <= i,
        decreases all.len() - i,
    {
        assert(all@.take(i + 1).drop_last() =~= all@.take(i as int));
        assert(all@.take(i + 1).last() == all@[i as int]);
        if !has_type_exec(all, i, &all[i].pd_type) {
            c += 1;
        }
        i += 1;
    }
    assert(all@.take(all@.len() as int) =~= all@);
    c
}

fn has_type_near_exec(all: &Vec<Entity>, t: &PdType, e: &Entity, w: usize) -> (r: bool)
    ensures
        r == has_type_near(all@, t@, *e, w),
{
    let mut i: usize = 0;
    while i < all.len()
        invariant
            i <= all@.len(),
            forall|j: int| 0 <= j < i ==> !((#[trigger] all@[j]).pd_type@ == t@ && near(*e, all@[j], w)),
        decreases all.len() - i,
    {
        let o = &all[i];
        let d = if e.span.start >= o.span.start {
            e.span.start - o.span.start
        } else {
            o.span.start - e.span.start
        };
        if o.pd_type.same(t) && d <= w {
            return true;
        }
        i += 1;
    }
    false
}

fn rule_holds_exec(r: &CombinationRuleConfig, e: &Entity, all: &Vec<Entity>) -> (b: bool)
    ensures
        b == rule_holds(*r, *e, all@),
{
    let n = all.len();
    assert(all@.take(n as int) =~= all@);
    match r.scope {
        CombinationScope::Document => {
            let mut any_ok = r.requires_any.len() == 0;
            let mut i: usize = 0;
            while i < r.requires_any.len()
                invariant
                    r.scope is Document,
                    n == all@.len(),
                    all@.take(n as int) == all@,
                    i <= r.requires_any@.len(),
                    any_ok == (r.requires_any@.len() == 0 || exists|j: int| 0 <= j < i && has_type_in(all@, #[trigger] r.requires_any@[j]@)),
                decreases r.requires_any.len() - i,
            {
                if has_type_exec(all, n, &r.requires_any[i]) {
                    any_ok = true;
                }
                i += 1;
            }
            let mut k: usize = 0;
            while k < r.requires_all.len()
                invariant
                    r.scope is Document,
                    any_ok == (r.requires_any@.len() == 0 || exists|j: int| 0 <= j < r.requires_any@.len() && has_type_in(all@, #[trigger] r.requires_any@[j]@)),
                    n == all@.len(),
                    all@.take(n as int) == all@,
                    k <= r.requires_all@.len(),
                    forall|j: int| 0 <= j < k ==> has_type_in(all@, #[trigger] r.requires_all@[j]@),
                decreases r.requires_all.len() - k,
            {
                if !has_type_exec(all, n, &r.requires_all[k]) {
                    return false;
                }
                k += 1;
            }
            any_ok
        },
        CombinationScope::Window => {
            let mut any_ok = r.requires_any.len() == 0;
            let mut i: usize = 0;
            while i < r.requires_any.len()
                invariant
                    r.scope is Window,
                    i <= r.requires_any@.len(),
                    any_ok == (r.requires_any@.len() == 0 || exists|j: int| 0 <= j < i && has_type_near(all@, #[trigger] r.requires_any@[j]@, *e, r.window_chars)),
                decreases r.requires_any.len() - i,
            {
                if has_type_near_exec(all, &r.requires_any[i], e, r.window_chars) {
                    any_ok = true;
                }
                i += 1;
            }
            let mut k: usize = 0;
            while k < r.requires_all.len()
                invariant
                    r.scope is Window,
                    any_ok == (r.requires_any@.len() == 0 || exists|j: int| 0 <= j < r.requires_any@.len() && has_type_near(all@, #[trigger] r.requires_any@[j]@, *e, r.window_chars)),
                    k <= r.requires_all@.len(),
                    forall|j: int| 0 <= j < k ==> has_type_near(all@, #[trigger] r.requires_all@[j]@, *e, r.window_chars),
                decreases r.requires_all.len() - k,
            {
                if !has_type_near_exec(all, &r.requires_all[k], e, r.window_chars) {
                    return false;
                }
                k += 1;
            }
            any_ok
        },
    }
}

fn always_masked_exec(p: &EffectivePolicy, t: &PdType) -> (r: bool)
    ensures
        r == always_masked(*p, t@),
{
    let mut i: usize = 0;
    while i < p.combination.always_mask.len()
        invariant
            i <= p.combination.always_mask@.len(),
            forall|j: int| 0 <= j < i ==> (#[trigger] p.combination.always_mask@[j])@ != t@,
        decreases p.combination.always_mask.len() - i,
    {
        if p.combination.always_mask[i].same(t) {
            return true;
        }
        i += 1;
    }
    false
}

/// The standard co-occurrence rule.
pub struct DefaultCombinationRule;

impl DefaultCombinationRule {
    /// With fewer distinct types than `min_distinct_types`, keeps only the always-masked
    /// types; otherwise keeps the entities whose rule (if any) holds.
    pub fn apply(&self, entities: &mut Vec<Entity>, policy: &EffectivePolicy)
        requires
            policy.wf(),
        ensures
            final(entities)@ == combination_result(old(entities)@, *policy),
    {
        let ghost all = entities@;
        let distinct = count_distinct(entities);
        let few = policy.combination.min_distinct_types > 0
            && distinct < policy.combination.min_distinct_types;
        let mut flags: Vec<bool> = Vec::new();
        let mut i: usize = 0;
        while i < entities.len()
            invariant
                policy.wf(),
                entities@ == all,
                i <= all.len(),
                flags@.len() == i,
                forall|j: int| 0 <= j < i ==> #[trigger] flags@[j] == if few {
                    always_masked(*policy, all[j].pd_type@)
                } else {
                    keeps(all[j], all, *policy)
                },
            decreases entities.len() - i,
        {
            let e = &entities[i];
            let keep = if few {
                always_masked_exec(policy, &e.pd_type)
            } else {
                match policy.combination.rules.get(&e.pd_type) {
                    None => true,
                    Some(r) => rule_holds_exec(r, e, entities),
                }
            };
            flags.push(keep);
            i += 1;
        }
        let ghost pred = if few {
            |e: Entity| always_masked(*policy, e.pd_type@)
        } else {
            |e: Entity| keeps(e, all, *policy)
        };
        assert(combination_result(all, *policy) == filter_entities(all, pred));
        let mut kept: Vec<Entity> = Vec::new();
        let mut k: usize = 0;
        let n = entities.len();
        while entities.len() > 0
            invariant
                n == all.len(),
                flags@.len() == n,
                forall|j: int| 0 <= j < n ==> #[trigger] flags@[j] == pred(all[j]),
                k + entities@.len() == n,
                entities@ == all.skip(k as int),
                kept@ == filter_entities(all.take(k as int), pred),
            decreases entities.len(),
        {
            let e = entities.remove(0);
            assert(e == all[k as int]);
            assert(all.take(k + 1).drop_last() =~= all.take(k as int));
            assert(all.take(k + 1).last() == e);
            if flags[k] {
                kept.push(e);
            }
            assert(entities@ =~= all.skip(k + 1));
            k += 1;
        }
        assert(all.take(n as int) =~= all);
        *entities = kept;
    }
}

} // verus!
