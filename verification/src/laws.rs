//! What holds of bundles across validation and readiness.

use vstd::prelude::*;
use vstd::set_lib::{lemma_int_range, lemma_len_subset, set_int_range};

use crate::bundle::{
    first_predecessor_error, first_predecessor_error_of, id_seen_before, lacks_skill, stage_error,
    depends_on, depends_on_itself, is_dependency_path, is_first_incomplete, is_first_with_id,
    lemma_first_predecessor_error_none, lemma_first_predecessor_error_of_none,
    lemma_first_stage_error_none, lemma_unique_ids, readiness, stage_ids, stages_acyclic,
    structurally_valid, first_stage_error, first_structure_error, invalid_predecessor,
    ManifestModel, ReadinessErrorModel, StageModel,
};

verus! {

broadcast use {vstd::seq_lib::group_seq_properties, vstd::set::group_set_axioms};

/// `order` lists distinct stages, each after every stage it names as a
/// predecessor.
pub open spec fn is_run_prefix(stages: Seq<StageModel>, order: Seq<int>) -> bool {
    &&& order.no_duplicates()
    &&& forall|a: int| 0 <= a < order.len() ==> 0 <= #[trigger] order[a] < stages.len()
    &&& forall|a: int, w: int|
        0 <= a < order.len() && #[trigger] depends_on(stages, order[a], w) ==> order.subrange(
            0,
            a,
        ).contains(w)
}

/// `order` lists every stage once, each after every stage it names as a
/// predecessor.
pub open spec fn is_run_order(stages: Seq<StageModel>, order: Seq<int>) -> bool {
    order.len() == stages.len() && is_run_prefix(stages, order)
}

/// The ids of the stages at the given positions.
pub open spec fn ids_at(stages: Seq<StageModel>, positions: Seq<int>) -> Seq<Seq<char>> {
    positions.map_values(|j: int| stages[j].id)
}

/// A sequence of fewer than `n` distinct numbers below `n` misses one of them.
proof fn lemma_missing_index(n: int, placed: Seq<int>)
    requires
        placed.no_duplicates(),
        forall|a: int| 0 <= a < placed.len() ==> 0 <= #[trigger] placed[a] < n,
        placed.len() < n,
    ensures
        exists|v: int| 0 <= v < n && !placed.contains(v),
{
    if forall|v: int| 0 <= v < n ==> placed.contains(v) {
        lemma_int_range(0, n);
        placed.unique_seq_to_set();
        assert(set_int_range(0, n).subset_of(placed.to_set()));
        lemma_len_subset(set_int_range(0, n), placed.to_set());
    }
}

/// A stage outside `placed` that names, as the next link of a chain, another
/// stage outside `placed`.
spec fn next_outside(stages: Seq<StageModel>, placed: Seq<int>, v: int) -> int {
    choose|w: int| depends_on(stages, v, w) && !placed.contains(w)
}

/// The chain of `k` links that starts at `v` and follows `next_outside`.
spec fn chain(stages: Seq<StageModel>, placed: Seq<int>, v: int, k: nat) -> Seq<int>
    decreases k,
{
    if k == 0 {
        seq![v]
    } else {
        let c = chain(stages, placed, v, (k - 1) as nat);
        c.push(next_outside(stages, placed, c.last()))
    }
}

proof fn lemma_chain(stages: Seq<StageModel>, placed: Seq<int>, v: int, k: nat)
    requires
        0 <= v < stages.len(),
        !placed.contains(v),
        forall|u: int|
            0 <= u < stages.len() && !placed.contains(u) ==> exists|w: int|
                #[trigger] depends_on(stages, u, w) && !placed.contains(w),
    ensures
        chain(stages, placed, v, k).len() == k + 1,
        chain(stages, placed, v, k)[0] == v,
        forall|i: int|
            0 <= i < chain(stages, placed, v, k).len() ==> 0 <= #[trigger] chain(
                stages,
                placed,
                v,
                k,
            )[i] < stages.len() && !placed.contains(chain(stages, placed, v, k)[i]),
        forall|i: int|
            0 <= i < chain(stages, placed, v, k).len() - 1 ==> #[trigger] depends_on(
                stages,
                chain(stages, placed, v, k)[i],
                chain(stages, placed, v, k)[i + 1],
            ),
    decreases k,
{
    if k > 0 {
        lemma_chain(stages, placed, v, (k - 1) as nat);
        let c = chain(stages, placed, v, (k - 1) as nat);
        let u = c.last();
        assert(0 <= u < stages.len() && !placed.contains(u));
        let w = next_outside(stages, placed, u);
        assert(depends_on(stages, u, w) && !placed.contains(w));
        let c2 = chain(stages, placed, v, k);
        assert(c2 == c.push(w));
        assert forall|i: int| 0 <= i < c2.len() - 1 implies #[trigger] depends_on(
            stages,
            c2[i],
            c2[i + 1],
        ) by {
            if i < c.len() - 1 {
                assert(depends_on(stages, c[i], c[i + 1]));
            }
        }
    }
}

/// `n + 1` numbers below `n` hold a repetition.
proof fn lemma_pigeonhole(c: Seq<int>, n: int)
    requires
        0 <= n,
        c.len() == n + 1,
        forall|i: int| 0 <= i < c.len() ==> 0 <= #[trigger] c[i] < n,
    ensures
        exists|a: int, b: int| 0 <= a < b < c.len() && c[a] == c[b],
{
    if c.no_duplicates() {
        c.unique_seq_to_set();
        lemma_int_range(0, n);
        assert forall|x: int| c.to_set().contains(x) implies set_int_range(0, n).contains(x) by {
            let i = choose|i: int| 0 <= i < c.len() && c[i] == x;
        }
        lemma_len_subset(c.to_set(), set_int_range(0, n));
    }
    let (a, b) = choose|a: int, b: int|
        0 <= a < c.len() && 0 <= b < c.len() && a != b && c[a] == c[b];
    if a < b {
        assert(0 <= a < b < c.len() && c[a] == c[b]);
    } else {
        assert(0 <= b < a < c.len() && c[b] == c[a]);
    }
}

/// When every stage outside `placed` names another stage outside `placed`,
/// some stage depends on itself.
proof fn lemma_blocked_means_cycle(stages: Seq<StageModel>, placed: Seq<int>, v0: int)
    requires
        0 <= v0 < stages.len(),
        !placed.contains(v0),
        forall|u: int|
            0 <= u < stages.len() && !placed.contains(u) ==> exists|w: int|
                #[trigger] depends_on(stages, u, w) && !placed.contains(w),
    ensures
        exists|v: int| 0 <= v < stages.len() && depends_on_itself(stages, v),
{
    let n = stages.len() as int;
    lemma_chain(stages, placed, v0, n as nat);
    let c = chain(stages, placed, v0, n as nat);
    lemma_pigeonhole(c, n);
    let (lo, hi) = choose|a: int, b: int| 0 <= a < b < c.len() && c[a] == c[b];
    let p = c.subrange(lo, hi + 1);
    assert forall|k: int| 0 <= k < p.len() - 1 implies #[trigger] depends_on(
        stages,
        p[k],
        p[k + 1],
    ) by {
        assert(depends_on(stages, c[lo + k], c[lo + k + 1]));
    }
    assert(is_dependency_path(stages, p));
    assert(depends_on_itself(stages, c[lo]));
}

/// In an acyclic set of stages, among those not yet placed there is one whose
/// predecessors are all placed.
proof fn lemma_source_exists(stages: Seq<StageModel>, placed: Seq<int>)
    requires
        stages_acyclic(stages),
        placed.no_duplicates(),
        forall|a: int| 0 <= a < placed.len() ==> 0 <= #[trigger] placed[a] < stages.len(),
        placed.len() < stages.len(),
    ensures
        exists|v: int|
            0 <= v < stages.len() && !placed.contains(v) && forall|w: int|
                #[trigger] depends_on(stages, v, w) ==> placed.contains(w),
{
    let n = stages.len() as int;
    lemma_missing_index(n, placed);
    let v0 = choose|v: int| 0 <= v < n && !placed.contains(v);
    if forall|u: int|
        0 <= u < n && !placed.contains(u) ==> exists|w: int|
            #[trigger] depends_on(stages, u, w) && !placed.contains(w) {
        lemma_blocked_means_cycle(stages, placed, v0);
        let v = choose|v: int| 0 <= v < n && depends_on_itself(stages, v);
        assert(!depends_on_itself(stages, v));
    } else {
        let u = choose|u: int|
            !(0 <= u < n && !placed.contains(u) ==> exists|w: int|
                #[trigger] depends_on(stages, u, w) && !placed.contains(w));
        assert forall|w: int| #[trigger] depends_on(stages, u, w) implies placed.contains(w) by {
            if !placed.contains(w) {
                assert(depends_on(stages, u, w) && !placed.contains(w));
            }
        }
    }
}

proof fn lemma_run_prefix_exists(stages: Seq<StageModel>, k: int)
    requires
        stages_acyclic(stages),
        0 <= k <= stages.len(),
    ensures
        exists|order: Seq<int>| order.len() == k && #[trigger] is_run_prefix(stages, order),
    decreases k,
{
    if k == 0 {
        assert(is_run_prefix(stages, Seq::<int>::empty()));
    } else {
        lemma_run_prefix_exists(stages, k - 1);
        let order = choose|order: Seq<int>|
            order.len() == k - 1 && #[trigger] is_run_prefix(stages, order);
        lemma_source_exists(stages, order);
        let v = choose|v: int|
            0 <= v < stages.len() && !order.contains(v) && forall|w: int|
                #[trigger] depends_on(stages, v, w) ==> order.contains(w);
        let order2 = order.push(v);
        assert(order2.subrange(0, k - 1) =~= order);
        assert forall|a: int, w: int|
            0 <= a < order2.len() && #[trigger] depends_on(stages, order2[a], w) implies order2.subrange(
            0,
            a,
        ).contains(w) by {
            if a < k - 1 {
                assert(order2.subrange(0, a) =~= order.subrange(0, a));
            }
        }
        assert(is_run_prefix(stages, order2));
    }
}

/// A valid manifest can be run through: its stages can be listed so that each
/// stage comes after every stage it names as a predecessor.
pub proof fn lemma_valid_manifest_has_run_order(m: ManifestModel)
    requires
        structurally_valid(m),
    ensures
        exists|order: Seq<int>| #[trigger] is_run_order(m.stages, order),
{
    lemma_run_prefix_exists(m.stages, m.stages.len() as int);
    let order = choose|order: Seq<int>|
        order.len() == m.stages.len() && #[trigger] is_run_prefix(m.stages, order);
    assert(is_run_order(m.stages, order));
}

/// Running a valid manifest in a run order: once the stages before it in that
/// order are completed and its condition fact, if any, is reported true, each
/// stage is ready.
pub proof fn lemma_run_order_stage_ready(
    m: ManifestModel,
    order: Seq<int>,
    a: int,
    facts: Seq<(Seq<char>, bool)>,
)
    requires
        structurally_valid(m),
        is_run_order(m.stages, order),
        0 <= a < order.len(),
        m.stages[order[a]].when matches Some(f) ==> facts.contains((f, true)),
    ensures
        readiness(m.stages, m.stages[order[a]].id, ids_at(m.stages, order.subrange(0, a)), facts)
            == Ok::<int, ReadinessErrorModel>(order[a]),
{
    let stages = m.stages;
    let n = stages.len() as int;
    let i = order[a];
    let id = stages[i].id;
    let done = ids_at(stages, order.subrange(0, a));
    assert(first_structure_error(m) is None);
    assert(first_stage_error(stages, n) is None);
    lemma_unique_ids(stages);
    assert(stage_ids(stages)[i] == id);
    assert(is_first_with_id(stages, id, i));
    let c = choose|c: int| is_first_with_id(stages, id, c);
    assert(c == i) by {
        if c != i {
            assert(stages[c].id != stages[i].id);
        }
    }
    lemma_first_predecessor_error_none(stages, n);
    assert(crate::bundle::first_predecessor_error_of(stages, i, stages[i].after.len() as int) is None);
    lemma_first_predecessor_error_of_none(stages, i, stages[i].after.len() as int);
    assert forall|k: int| 0 <= k < stages[i].after.len() implies done.contains(
        #[trigger] stages[i].after[k],
    ) by {
        let d = stages[i].after[k];
        assert(!invalid_predecessor(stages, i, d));
        let j = choose|j: int| 0 <= j < stage_ids(stages).len() && stage_ids(stages)[j] == d;
        assert(stages[j].id == d);
        assert(depends_on(stages, i, j));
        assert(order.subrange(0, a).contains(j));
        let b = choose|b: int| 0 <= b < order.subrange(0, a).len() && order.subrange(0, a)[b] == j;
        assert(done[b] == d);
    }
}

/// Completing more stages, or reporting more facts true, never makes a ready
/// stage unready.
pub proof fn lemma_readiness_monotone(
    stages: Seq<StageModel>,
    id: Seq<char>,
    completed: Seq<Seq<char>>,
    facts: Seq<(Seq<char>, bool)>,
    more_completed: Seq<Seq<char>>,
    more_facts: Seq<(Seq<char>, bool)>,
)
    requires
        readiness(stages, id, completed, facts) is Ok,
        forall|s: Seq<char>| completed.contains(s) ==> more_completed.contains(s),
        forall|f: (Seq<char>, bool)| facts.contains(f) ==> more_facts.contains(f),
    ensures
        readiness(stages, id, more_completed, more_facts) == readiness(stages, id, completed, facts),
{
}

/// A ready stage is the first stage with that id, all its predecessors are
/// completed, and its condition fact, if any, is reported true.
pub proof fn lemma_ready_stage_is_unblocked(
    stages: Seq<StageModel>,
    id: Seq<char>,
    completed: Seq<Seq<char>>,
    facts: Seq<(Seq<char>, bool)>,
)
    requires
        readiness(stages, id, completed, facts) is Ok,
    ensures
        ({
            let i = readiness(stages, id, completed, facts)->Ok_0;
            &&& is_first_with_id(stages, id, i)
            &&& forall|k: int|
                0 <= k < stages[i].after.len() ==> completed.contains(#[trigger] stages[i].after[k])
            &&& stages[i].when matches Some(f) ==> facts.contains((f, true))
        }),
{
    let j = choose|j: int| 0 <= j < stage_ids(stages).len() && stage_ids(stages)[j] == id;
    assert(stages[j].id == id);
    assert(exists|i: int| is_first_with_id(stages, id, i)) by {
        lemma_first_with_id_exists(stages, id, j);
    }
}

/// Some stage with id `id` exists, so a first one does.
proof fn lemma_first_with_id_exists(stages: Seq<StageModel>, id: Seq<char>, j: int)
    requires
        0 <= j < stages.len(),
        stages[j].id == id,
    ensures
        exists|i: int| is_first_with_id(stages, id, i),
    decreases j,
{
    if exists|l: int| 0 <= l < j && stages[l].id == id {
        let l = choose|l: int| 0 <= l < j && stages[l].id == id;
        lemma_first_with_id_exists(stages, id, l);
    } else {
        assert(is_first_with_id(stages, id, j));
    }
}

// ---------------------------------------------------------------------------
// Acceptance does not depend on order
// ---------------------------------------------------------------------------

/// `p` lists each of `0 .. n` once.
pub open spec fn is_permutation(p: Seq<int>, n: int) -> bool {
    &&& p.len() == n
    &&& p.no_duplicates()
    &&& forall|i: int| 0 <= i < p.len() ==> 0 <= #[trigger] p[i] < n
}

/// `s2` is stage `s` with its skills and its predecessors possibly listed in
/// another order.
pub open spec fn reordered_stage(s2: StageModel, s: StageModel) -> bool {
    &&& s2.id == s.id
    &&& s2.when == s.when
    &&& s2.skills.to_multiset() == s.skills.to_multiset()
    &&& s2.after.to_multiset() == s.after.to_multiset()
}

/// `m2` is `m` with its stages listed in the order `perm` (stage `i` of `m2`
/// is stage `perm[i]` of `m`) and, inside each stage, skills and predecessors
/// possibly listed in another order.
pub open spec fn is_reordering(m2: ManifestModel, m: ManifestModel, perm: Seq<int>) -> bool {
    &&& m2.schema_version == m.schema_version
    &&& m2.slug == m.slug
    &&& m2.description == m.description
    &&& m2.stages.len() == m.stages.len()
    &&& is_permutation(perm, m.stages.len() as int)
    &&& forall|i: int|
        0 <= i < m2.stages.len() ==> reordered_stage(#[trigger] m2.stages[i], m.stages[perm[i]])
}

/// The rules a stage must meet by itself.
pub open spec fn stage_ok(s: StageModel) -> bool {
    &&& crate::text::spec_valid_slug(s.id)
    &&& !lacks_skill(s)
    &&& s.skills.no_duplicates()
    &&& s.after.no_duplicates()
    &&& (s.when is Some ==> crate::text::spec_valid_slug(s.when->0))
}

/// Structural validity stated without reference to order.
pub open spec fn valid_unordered(m: ManifestModel) -> bool {
    let st = m.stages;
    &&& m.schema_version == 1
    &&& crate::text::spec_valid_slug(m.slug)
    &&& !crate::text::spec_is_blank(m.description)
    &&& st.len() > 0
    &&& forall|i: int| 0 <= i < st.len() ==> stage_ok(#[trigger] st[i])
    &&& forall|i: int, j: int|
        0 <= i < st.len() && 0 <= j < st.len() && i != j ==> #[trigger] st[i].id != #[trigger] st[j].id
    &&& forall|i: int, d: Seq<char>|
        0 <= i < st.len() && #[trigger] st[i].after.contains(d) ==> d != st[i].id
            && stage_ids(st).contains(d)
    &&& stages_acyclic(st)
}

proof fn lemma_valid_unordered(m: ManifestModel)
    ensures
        structurally_valid(m) <==> valid_unordered(m),
{
    let st = m.stages;
    let n = st.len() as int;
    lemma_first_stage_error_none(st, n);
    lemma_first_predecessor_error_none(st, n);
    if valid_unordered(m) {
        assert forall|i: int| 0 <= i < n implies #[trigger] stage_error(st, i) is None by {
            assert(stage_ok(st[i]));
            if id_seen_before(st, i) {
                let j = choose|j: int| 0 <= j < i && #[trigger] st[j].id == st[i].id;
                assert(st[j].id != st[i].id);
            }
        }
        assert forall|i: int| 0 <= i < n implies #[trigger] first_predecessor_error_of(
            st,
            i,
            st[i].after.len() as int,
        ) is None by {
            lemma_first_predecessor_error_of_none(st, i, st[i].after.len() as int);
            assert forall|l: int| 0 <= l < st[i].after.len() implies !invalid_predecessor(
                st,
                i,
                #[trigger] st[i].after[l],
            ) by {
                assert(st[i].after.contains(st[i].after[l]));
            }
        }
        assert(first_structure_error(m) is None);
    }
    if structurally_valid(m) {
        assert(first_structure_error(m) is None);
        assert(first_stage_error(st, n) is None);
        assert(first_predecessor_error(st, n) is None);
        assert forall|i: int| 0 <= i < n implies stage_ok(#[trigger] st[i]) by {
            assert(stage_error(st, i) is None);
        }
        lemma_unique_ids(st);
        assert forall|i: int, d: Seq<char>|
            0 <= i < n && #[trigger] st[i].after.contains(d) implies d != st[i].id
            && stage_ids(st).contains(d) by {
            assert(first_predecessor_error_of(st, i, st[i].after.len() as int) is None);
            lemma_first_predecessor_error_of_none(st, i, st[i].after.len() as int);
            let l = choose|l: int| 0 <= l < st[i].after.len() && st[i].after[l] == d;
            assert(!invalid_predecessor(st, i, st[i].after[l]));
        }
    }
}

/// Lists with the same entries agree on which texts they hold, on their
/// length and on holding a text twice.
proof fn lemma_same_entries(a: Seq<Seq<char>>, b: Seq<Seq<char>>)
    requires
        a.to_multiset() == b.to_multiset(),
    ensures
        a.len() == b.len(),
        forall|x: Seq<char>| a.contains(x) <==> b.contains(x),
        a.no_duplicates() ==> b.no_duplicates(),
{
    broadcast use vstd::seq_lib::group_to_multiset_ensures;

    vstd::seq_lib::to_multiset_len(a);
    vstd::seq_lib::to_multiset_len(b);
    assert forall|x: Seq<char>| a.contains(x) <==> b.contains(x) by {
        assert(a.contains(x) <==> a.to_multiset().count(x) > 0);
        assert(b.contains(x) <==> b.to_multiset().count(x) > 0);
    }
    if a.no_duplicates() {
        a.lemma_multiset_has_no_duplicates();
        b.lemma_multiset_has_no_duplicates_conv();
    }
}

proof fn lemma_reordered_stage_ok(s2: StageModel, s: StageModel)
    requires
        reordered_stage(s2, s),
        stage_ok(s),
    ensures
        stage_ok(s2),
        forall|x: Seq<char>| s2.after.contains(x) <==> s.after.contains(x),
{
    lemma_same_entries(s.skills, s2.skills);
    lemma_same_entries(s.after, s2.after);
    if lacks_skill(s2) {
        if s2.skills.len() != 0 {
            let k = choose|k: int|
                0 <= k < s2.skills.len() && #[trigger] crate::text::spec_is_blank(s2.skills[k]);
            assert(s2.skills.contains(s2.skills[k]));
            let l = choose|l: int| 0 <= l < s.skills.len() && s.skills[l] == s2.skills[k];
            assert(crate::text::spec_is_blank(s.skills[l]));
        }
    }
}

/// Every number below `n` occurs in a permutation of `0 .. n`.
proof fn lemma_permutation_onto(p: Seq<int>, n: int, j: int)
    requires
        is_permutation(p, n),
        0 <= j < n,
    ensures
        p.contains(j),
{
    if !p.contains(j) {
        p.unique_seq_to_set();
        lemma_int_range(0, n);
        assert(p.to_set().subset_of(set_int_range(0, n).remove(j)));
        lemma_len_subset(p.to_set(), set_int_range(0, n).remove(j));
    }
}

/// Reordering keeps a valid manifest valid.
proof fn lemma_reordering_keeps_valid(m2: ManifestModel, m: ManifestModel, perm: Seq<int>)
    requires
        is_reordering(m2, m, perm),
        valid_unordered(m),
    ensures
        valid_unordered(m2),
{
    let st = m.stages;
    let st2 = m2.stages;
    let n = st.len() as int;
    assert forall|i: int| 0 <= i < n implies stage_ok(#[trigger] st2[i])
        && forall|x: Seq<char>| st2[i].after.contains(x) <==> st[perm[i]].after.contains(x) by {
        assert(reordered_stage(st2[i], st[perm[i]]));
        assert(stage_ok(st[perm[i]]));
        lemma_reordered_stage_ok(st2[i], st[perm[i]]);
    }
    assert forall|i: int, j: int|
        0 <= i < n && 0 <= j < n && i != j implies #[trigger] st2[i].id != #[trigger] st2[j].id by {
        assert(reordered_stage(st2[i], st[perm[i]]));
        assert(reordered_stage(st2[j], st[perm[j]]));
        assert(perm[i] != perm[j]);
    }
    assert forall|i: int, d: Seq<char>|
        0 <= i < n && #[trigger] st2[i].after.contains(d) implies d != st2[i].id && stage_ids(
        st2,
    ).contains(d) by {
        assert(reordered_stage(st2[i], st[perm[i]]));
        assert(stage_ok(st2[i]));
        assert(st[perm[i]].after.contains(d));
        let j = choose|j: int| 0 <= j < stage_ids(st).len() && stage_ids(st)[j] == d;
        lemma_permutation_onto(perm, n, j);
        let i2 = choose|i2: int| 0 <= i2 < perm.len() && perm[i2] == j;
        assert(reordered_stage(st2[i2], st[perm[i2]]));
        assert(stage_ids(st2)[i2] == d);
    }
    assert forall|i: int, j: int| #[trigger]
        depends_on(st2, i, j) implies depends_on(st, perm[i], perm[j]) by {
        assert(reordered_stage(st2[i], st[perm[i]]));
        assert(reordered_stage(st2[j], st[perm[j]]));
        assert(stage_ok(st2[i]));
    }
    assert forall|v: int| 0 <= v < n implies !depends_on_itself(st2, v) by {
        if depends_on_itself(st2, v) {
            let p = choose|p: Seq<int>|
                #[trigger] is_dependency_path(st2, p) && p[0] == v && p[p.len() - 1] == v;
            let q = p.map_values(|x: int| perm[x]);
            assert forall|k: int| 0 <= k < q.len() - 1 implies #[trigger] depends_on(
                st,
                q[k],
                q[k + 1],
            ) by {
                assert(depends_on(st2, p[k], p[k + 1]));
            }
            assert(is_dependency_path(st, q));
            assert(depends_on_itself(st, perm[v]));
        }
    }
}

/// The inverse of a permutation.
spec fn inverse(p: Seq<int>, n: int) -> Seq<int> {
    Seq::new(n as nat, |j: int| choose|i: int| 0 <= i < p.len() && p[i] == j)
}

proof fn lemma_inverse_reordering(m2: ManifestModel, m: ManifestModel, perm: Seq<int>)
    requires
        is_reordering(m2, m, perm),
    ensures
        is_reordering(m, m2, inverse(perm, m.stages.len() as int)),
{
    let n = m.stages.len() as int;
    let inv = inverse(perm, n);
    assert forall|j: int| 0 <= j < n implies 0 <= #[trigger] inv[j] < n && perm[inv[j]] == j by {
        lemma_permutation_onto(perm, n, j);
    }
    assert forall|a: int, b: int| 0 <= a < n && 0 <= b < n && a != b implies inv[a] != inv[b] by {
        assert(perm[inv[a]] == a);
        assert(perm[inv[b]] == b);
    }
    assert forall|j: int| 0 <= j < n implies reordered_stage(
        #[trigger] m.stages[j],
        m2.stages[inv[j]],
    ) by {
        assert(perm[inv[j]] == j);
        assert(reordered_stage(m2.stages[inv[j]], m.stages[perm[inv[j]]]));
    }
}

/// Whether a manifest is accepted does not depend on the order of its stages,
/// nor on the order of the skills and predecessors listed in each stage (only
/// which error is reported may change).
pub proof fn lemma_acceptance_ignores_order(m: ManifestModel, m2: ManifestModel, perm: Seq<int>)
    requires
        is_reordering(m2, m, perm),
    ensures
        structurally_valid(m) <==> structurally_valid(m2),
{
    lemma_valid_unordered(m);
    lemma_valid_unordered(m2);
    if valid_unordered(m) {
        lemma_reordering_keeps_valid(m2, m, perm);
    }
    if valid_unordered(m2) {
        lemma_inverse_reordering(m2, m, perm);
        lemma_reordering_keeps_valid(m, m2, inverse(perm, m.stages.len() as int));
    }
}

} // verus!
