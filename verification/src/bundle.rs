//! Bundle manifests: their structure, the rules a manifest must meet, and when a
//! stage of a bundle is ready to run.

use vstd::prelude::*;

use crate::graph;
use crate::text::{contains_text, decimal, decimal_text, has_duplicates, join_text, is_blank, spec_is_blank, spec_valid_slug, str_equal, texts, valid_slug};

verus! {

broadcast use vstd::seq_lib::group_seq_properties;

/// One stage of a bundle: the skills it reads, the stages that must be
/// completed first, and the fact that must hold before it runs.
#[derive(Clone, Debug)]
pub struct BundleStage {
    pub id: String,
    pub skills: Vec<String>,
    pub after: Vec<String>,
    pub when: Option<String>,
}

/// A bundle: a reusable task workflow made of ordered stages.
#[derive(Clone, Debug)]
pub struct BundleManifest {
    pub schema_version: u32,
    pub slug: String,
    pub description: String,
    pub instructions: String,
    pub stages: Vec<BundleStage>,
}

/// The content of a stage, strings taken as character sequences.
pub struct StageModel {
    pub id: Seq<char>,
    pub skills: Seq<Seq<char>>,
    pub after: Seq<Seq<char>>,
    pub when: Option<Seq<char>>,
}

/// The content of a manifest, strings taken as character sequences.
pub struct ManifestModel {
    pub schema_version: u32,
    pub slug: Seq<char>,
    pub description: Seq<char>,
    pub instructions: Seq<char>,
    pub stages: Seq<StageModel>,
}

pub open spec fn optional_text(o: Option<String>) -> Option<Seq<char>> {
    match o {
        Some(s) => Some(s@),
        None => None,
    }
}

impl View for BundleStage {
    type V = StageModel;

    open spec fn view(&self) -> StageModel {
        StageModel {
            id: self.id@,
            skills: texts(self.skills@),
            after: texts(self.after@),
            when: optional_text(self.when),
        }
    }
}

impl View for BundleManifest {
    type V = ManifestModel;

    open spec fn view(&self) -> ManifestModel {
        ManifestModel {
            schema_version: self.schema_version,
            slug: self.slug@,
            description: self.description@,
            instructions: self.instructions@,
            stages: self.stages@.map_values(|s: BundleStage| s@),
        }
    }
}

/// Why a manifest is structurally invalid.
#[derive(Debug)]
pub enum BundleError {
    UnsupportedSchemaVersion { version: u32 },
    InvalidSlug,
    MissingDescription,
    NoStages,
    InvalidStageId { id: String },
    MissingSkill { stage: String },
    DuplicateSkill { stage: String },
    RepeatedPredecessor { stage: String },
    InvalidFact { stage: String, fact: String },
    InvalidPredecessor { stage: String, predecessor: String },
    Cycle { stage: String },
}

/// A `BundleError` with its strings taken as character sequences.
pub enum BundleErrorModel {
    UnsupportedSchemaVersion { version: u32 },
    InvalidSlug,
    MissingDescription,
    NoStages,
    InvalidStageId { id: Seq<char> },
    MissingSkill { stage: Seq<char> },
    DuplicateSkill { stage: Seq<char> },
    RepeatedPredecessor { stage: Seq<char> },
    InvalidFact { stage: Seq<char>, fact: Seq<char> },
    InvalidPredecessor { stage: Seq<char>, predecessor: Seq<char> },
    Cycle { stage: Seq<char> },
}

impl View for BundleError {
    type V = BundleErrorModel;

    open spec fn view(&self) -> BundleErrorModel {
        match self {
            BundleError::UnsupportedSchemaVersion { version } =>
                BundleErrorModel::UnsupportedSchemaVersion { version: *version },
            BundleError::InvalidSlug => BundleErrorModel::InvalidSlug,
            BundleError::MissingDescription => BundleErrorModel::MissingDescription,
            BundleError::NoStages => BundleErrorModel::NoStages,
            BundleError::InvalidStageId { id } => BundleErrorModel::InvalidStageId { id: id@ },
            BundleError::MissingSkill { stage } => BundleErrorModel::MissingSkill { stage: stage@ },
            BundleError::DuplicateSkill { stage } => BundleErrorModel::DuplicateSkill {
                stage: stage@,
            },
            BundleError::RepeatedPredecessor { stage } => BundleErrorModel::RepeatedPredecessor {
                stage: stage@,
            },
            BundleError::InvalidFact { stage, fact } => BundleErrorModel::InvalidFact {
                stage: stage@,
                fact: fact@,
            },
            BundleError::InvalidPredecessor { stage, predecessor } =>
                BundleErrorModel::InvalidPredecessor { stage: stage@, predecessor: predecessor@ },
            BundleError::Cycle { stage } => BundleErrorModel::Cycle { stage: stage@ },
        }
    }
}

// ---------------------------------------------------------------------------
// The structural rules
// ---------------------------------------------------------------------------

/// The ids of the stages, in order.
pub open spec fn stage_ids(stages: Seq<StageModel>) -> Seq<Seq<char>> {
    stages.map_values(|s: StageModel| s.id)
}

/// Stage `i` reuses the id of an earlier stage.
pub open spec fn id_seen_before(stages: Seq<StageModel>, i: int) -> bool {
    exists|j: int| 0 <= j < i && #[trigger] stages[j].id == stages[i].id
}

/// Stage `i` lacks skills or names one by blank text.
pub open spec fn lacks_skill(st: StageModel) -> bool {
    st.skills.len() == 0 || exists|k: int| 0 <= k < st.skills.len() && #[trigger] spec_is_blank(
        st.skills[k],
    )
}

/// The first rule that stage `i`, taken by itself and after the stages
/// before it, breaks, if any.
pub open spec fn stage_error(stages: Seq<StageModel>, i: int) -> Option<BundleErrorModel> {
    let st = stages[i];
    if !spec_valid_slug(st.id) || id_seen_before(stages, i) {
        Some(BundleErrorModel::InvalidStageId { id: st.id })
    } else if lacks_skill(st) {
        Some(BundleErrorModel::MissingSkill { stage: st.id })
    } else if !st.skills.no_duplicates() {
        Some(BundleErrorModel::DuplicateSkill { stage: st.id })
    } else if !st.after.no_duplicates() {
        Some(BundleErrorModel::RepeatedPredecessor { stage: st.id })
    } else if st.when is Some && !spec_valid_slug(st.when->0) {
        Some(BundleErrorModel::InvalidFact { stage: st.id, fact: st.when->0 })
    } else {
        None
    }
}

/// The first error of `stage_error` among the first `k` stages.
pub open spec fn first_stage_error(stages: Seq<StageModel>, k: int) -> Option<BundleErrorModel>
    decreases k,
{
    if k <= 0 {
        None
    } else {
        match first_stage_error(stages, k - 1) {
            Some(e) => Some(e),
            None => stage_error(stages, k - 1),
        }
    }
}

/// Predecessor `d` of stage `i` is the stage itself or no stage at all.
pub open spec fn invalid_predecessor(stages: Seq<StageModel>, i: int, d: Seq<char>) -> bool {
    d == stages[i].id || !stage_ids(stages).contains(d)
}

/// The first invalid predecessor among the first `k` predecessors of stage `i`.
pub open spec fn first_predecessor_error_of(stages: Seq<StageModel>, i: int, k: int) -> Option<
    BundleErrorModel,
>
    decreases k,
{
    if k <= 0 {
        None
    } else {
        match first_predecessor_error_of(stages, i, k - 1) {
            Some(e) => Some(e),
            None => if invalid_predecessor(stages, i, stages[i].after[k - 1]) {
                Some(
                    BundleErrorModel::InvalidPredecessor {
                        stage: stages[i].id,
                        predecessor: stages[i].after[k - 1],
                    },
                )
            } else {
                None
            },
        }
    }
}

/// The first invalid predecessor among the first `k` stages.
pub open spec fn first_predecessor_error(stages: Seq<StageModel>, k: int) -> Option<
    BundleErrorModel,
>
    decreases k,
{
    if k <= 0 {
        None
    } else {
        match first_predecessor_error(stages, k - 1) {
            Some(e) => Some(e),
            None => first_predecessor_error_of(stages, k - 1, stages[k - 1].after.len() as int),
        }
    }
}

/// The first rule, other than acyclicity, that the manifest breaks, in the
/// order the rules are checked.
pub open spec fn first_structure_error(m: ManifestModel) -> Option<BundleErrorModel> {
    if m.schema_version != 1 {
        Some(BundleErrorModel::UnsupportedSchemaVersion { version: m.schema_version })
    } else if !spec_valid_slug(m.slug) {
        Some(BundleErrorModel::InvalidSlug)
    } else if spec_is_blank(m.description) {
        Some(BundleErrorModel::MissingDescription)
    } else if m.stages.len() == 0 {
        Some(BundleErrorModel::NoStages)
    } else {
        match first_stage_error(m.stages, m.stages.len() as int) {
            Some(e) => Some(e),
            None => first_predecessor_error(m.stages, m.stages.len() as int),
        }
    }
}

/// Stage `i` names stage `j` among its predecessors.
pub open spec fn depends_on(stages: Seq<StageModel>, i: int, j: int) -> bool {
    &&& 0 <= i < stages.len()
    &&& 0 <= j < stages.len()
    &&& stages[i].after.contains(stages[j].id)
}

/// A chain of at least one dependency: each stage of `p` names the next one
/// among its predecessors.
pub open spec fn is_dependency_path(stages: Seq<StageModel>, p: Seq<int>) -> bool {
    &&& p.len() >= 2
    &&& forall|k: int| 0 <= k < p.len() - 1 ==> #[trigger] depends_on(stages, p[k], p[k + 1])
}

/// Stage `i` depends, directly or through other stages, on itself.
pub open spec fn depends_on_itself(stages: Seq<StageModel>, i: int) -> bool {
    exists|p: Seq<int>| #[trigger] is_dependency_path(stages, p) && p[0] == i && p[p.len() - 1] == i
}

/// No stage depends on itself.
pub open spec fn stages_acyclic(stages: Seq<StageModel>) -> bool {
    forall|i: int| 0 <= i < stages.len() ==> !depends_on_itself(stages, i)
}

/// The manifest meets every structural rule.
pub open spec fn structurally_valid(m: ManifestModel) -> bool {
    first_structure_error(m) is None && stages_acyclic(m.stages)
}

/// The index of the first stage whose id is `id`.
pub open spec fn stage_index(stages: Seq<StageModel>, id: Seq<char>) -> int {
    choose|i: int| is_first_with_id(stages, id, i)
}

/// The predecessors of each stage, as indices of the stages they name.
pub open spec fn resolved_graph(stages: Seq<StageModel>) -> Seq<Seq<usize>> {
    Seq::new(
        stages.len(),
        |i: int|
            Seq::new(
                stages[i].after.len(),
                |k: int| stage_index(stages, stages[i].after[k]) as usize,
            ),
    )
}

/// `e` is the error that validation reports for `m`: the first broken rule in
/// the order they are checked; when only acyclicity fails, a cycle named by
/// the stage at which a depth-first search over the predecessors, started
/// from each stage in order and following predecessors in list order, first
/// meets a stage still under search. That stage depends on itself.
pub open spec fn reported_error(m: ManifestModel, e: BundleErrorModel) -> bool {
    match first_structure_error(m) {
        Some(f) => e == f,
        None => match graph::first_cycle_met(resolved_graph(m.stages)) {
            Some(c) => {
                &&& 0 <= c < m.stages.len()
                &&& e == BundleErrorModel::Cycle { stage: m.stages[c].id }
                &&& depends_on_itself(m.stages, c)
            },
            None => false,
        },
    }
}

/// With distinct ids, the resolution of the predecessors is the canonical one.
proof fn lemma_resolution_is_canonical(stages: Seq<StageModel>, g: Seq<Seq<usize>>)
    requires
        resolves(stages, g),
        forall|a: int, b: int|
            0 <= a < stages.len() && 0 <= b < stages.len() && a != b ==> stages[a].id
                != stages[b].id,
    ensures
        g == resolved_graph(stages),
{
    let r = resolved_graph(stages);
    assert forall|i: int| 0 <= i < g.len() implies #[trigger] g[i] =~= r[i] by {
        assert forall|k: int| 0 <= k < g[i].len() implies g[i][k] == r[i][k] by {
            let j = g[i][k] as int;
            let d = stages[i].after[k];
            assert(stages[j].id == d);
            assert(is_first_with_id(stages, d, j));
            let c = stage_index(stages, d);
            assert(is_first_with_id(stages, d, c));
            assert(c == j);
        }
    }
    assert(g =~= r);
}

// ---------------------------------------------------------------------------
// Lemmas on the rules
// ---------------------------------------------------------------------------

pub(crate) proof fn lemma_first_stage_error_none(stages: Seq<StageModel>, k: int)
    requires
        0 <= k <= stages.len(),
    ensures
        first_stage_error(stages, k) is None <==> forall|i: int|
            0 <= i < k ==> #[trigger] stage_error(stages, i) is None,
    decreases k,
{
    if k > 0 {
        lemma_first_stage_error_none(stages, k - 1);
    }
}

proof fn lemma_first_stage_error_persists(stages: Seq<StageModel>, k: int, k2: int)
    requires
        0 <= k <= k2,
        first_stage_error(stages, k) is Some,
    ensures
        first_stage_error(stages, k2) == first_stage_error(stages, k),
    decreases k2,
{
    if k2 > k {
        lemma_first_stage_error_persists(stages, k, k2 - 1);
    }
}

proof fn lemma_first_predecessor_error_of_persists(stages: Seq<StageModel>, i: int, k: int, k2: int)
    requires
        0 <= k <= k2,
        first_predecessor_error_of(stages, i, k) is Some,
    ensures
        first_predecessor_error_of(stages, i, k2) == first_predecessor_error_of(stages, i, k),
    decreases k2,
{
    if k2 > k {
        lemma_first_predecessor_error_of_persists(stages, i, k, k2 - 1);
    }
}

proof fn lemma_first_predecessor_error_persists(stages: Seq<StageModel>, k: int, k2: int)
    requires
        0 <= k <= k2,
        first_predecessor_error(stages, k) is Some,
    ensures
        first_predecessor_error(stages, k2) == first_predecessor_error(stages, k),
    decreases k2,
{
    if k2 > k {
        lemma_first_predecessor_error_persists(stages, k, k2 - 1);
    }
}

pub(crate) proof fn lemma_first_predecessor_error_of_none(stages: Seq<StageModel>, i: int, k: int)
    requires
        0 <= i < stages.len(),
        0 <= k <= stages[i].after.len(),
    ensures
        first_predecessor_error_of(stages, i, k) is None <==> forall|l: int|
            0 <= l < k ==> !invalid_predecessor(stages, i, #[trigger] stages[i].after[l]),
    decreases k,
{
    if k > 0 {
        lemma_first_predecessor_error_of_none(stages, i, k - 1);
    }
}

pub(crate) proof fn lemma_first_predecessor_error_none(stages: Seq<StageModel>, k: int)
    requires
        0 <= k <= stages.len(),
    ensures
        first_predecessor_error(stages, k) is None <==> forall|i: int|
            0 <= i < k ==> #[trigger] first_predecessor_error_of(
                stages,
                i,
                stages[i].after.len() as int,
            ) is None,
    decreases k,
{
    if k > 0 {
        lemma_first_predecessor_error_none(stages, k - 1);
    }
}

/// When no stage breaks a rule of its own, stage ids are pairwise distinct.
pub(crate) proof fn lemma_unique_ids(stages: Seq<StageModel>)
    requires
        first_stage_error(stages, stages.len() as int) is None,
    ensures
        forall|a: int, b: int|
            0 <= a < stages.len() && 0 <= b < stages.len() && a != b ==> stages[a].id
                != stages[b].id,
{
    lemma_first_stage_error_none(stages, stages.len() as int);
    assert forall|a: int, b: int|
        0 <= a < stages.len() && 0 <= b < stages.len() && a != b implies stages[a].id
        != stages[b].id by {
        if a < b {
            assert(stage_error(stages, b) is None);
            assert(!id_seen_before(stages, b));
        } else {
            assert(stage_error(stages, a) is None);
            assert(!id_seen_before(stages, a));
        }
    }
}

/// `g[i][k]` is the index of the stage that `stages[i].after[k]` names.
pub open spec fn resolves(stages: Seq<StageModel>, g: Seq<Seq<usize>>) -> bool {
    &&& g.len() == stages.len()
    &&& forall|i: int| 0 <= i < g.len() ==> #[trigger] g[i].len() == stages[i].after.len()
    &&& forall|i: int, k: int|
        0 <= i < g.len() && 0 <= k < g[i].len() ==> #[trigger] g[i][k] < stages.len()
            && stages[g[i][k] as int].id == stages[i].after[k]
}

/// With distinct ids, the resolved graph has exactly the dependencies of the
/// stages as edges, so it has the same cycles.
proof fn lemma_resolved_graph(stages: Seq<StageModel>, g: Seq<Seq<usize>>)
    requires
        resolves(stages, g),
        forall|a: int, b: int|
            0 <= a < stages.len() && 0 <= b < stages.len() && a != b ==> stages[a].id
                != stages[b].id,
    ensures
        graph::well_formed(g),
        forall|i: int, j: int| #[trigger] graph::edge(g, i, j) <==> depends_on(stages, i, j),
        forall|i: int| #[trigger] graph::on_cycle(g, i) <==> depends_on_itself(stages, i),
{
    assert forall|i: int, j: int| #[trigger] graph::edge(g, i, j) <==> depends_on(stages, i, j) by {
        if graph::edge(g, i, j) {
            let k = choose|k: int| 0 <= k < g[i].len() && g[i][k] == j;
            assert(stages[i].after[k] == stages[j].id);
        }
        if depends_on(stages, i, j) {
            let k = choose|k: int|
                0 <= k < stages[i].after.len() && stages[i].after[k] == stages[j].id;
            assert(stages[g[i][k] as int].id == stages[j].id);
            assert(g[i][k] == j);
        }
    }
    assert forall|p: Seq<int>| #[trigger]
        graph::is_path(g, p) <==> is_dependency_path(stages, p) by {
        if graph::is_path(g, p) {
            assert forall|k: int| 0 <= k < p.len() - 1 implies #[trigger] depends_on(
                stages,
                p[k],
                p[k + 1],
            ) by {
                assert(graph::edge(g, p[k], p[k + 1]));
            }
        }
        if is_dependency_path(stages, p) {
            assert forall|k: int| 0 <= k < p.len() - 1 implies #[trigger] graph::edge(
                g,
                p[k],
                p[k + 1],
            ) by {
                assert(depends_on(stages, p[k], p[k + 1]));
            }
        }
    }
    assert forall|i: int| #[trigger] graph::on_cycle(g, i) <==> depends_on_itself(stages, i) by {
        if graph::on_cycle(g, i) {
            let p = choose|p: Seq<int>|
                #[trigger] graph::is_path(g, p) && p[0] == i && p[p.len() - 1] == i;
            assert(is_dependency_path(stages, p));
        }
        if depends_on_itself(stages, i) {
            let p = choose|p: Seq<int>|
                #[trigger] is_dependency_path(stages, p) && p[0] == i && p[p.len() - 1] == i;
            assert(graph::is_path(g, p));
        }
    }
}

// ---------------------------------------------------------------------------
// Validation
// ---------------------------------------------------------------------------

/// Whether the id of stage `i` already belongs to a stage before it.
fn id_used_before(stages: &Vec<BundleStage>, i: usize) -> (r: bool)
    requires
        i < stages.len(),
    ensures
        r == id_seen_before(stages@.map_values(|s: BundleStage| s@), i as int),
{
    let ghost st = stages@.map_values(|s: BundleStage| s@);
    let mut j: usize = 0;
    while j < i
        invariant
            i < stages.len(),
            st == stages@.map_values(|s: BundleStage| s@),
            j <= i,
            forall|l: int| 0 <= l < j ==> st[l].id != st[i as int].id,
        decreases i - j,
    {
        if str_equal(stages[j].id.as_str(), stages[i].id.as_str()) {
            assert(st[j as int].id == st[i as int].id);
            return true;
        }
        j = j + 1;
    }
    false
}

/// Whether some skill of the list is blank, or the list is empty.
fn lacks_skill_exec(skills: &Vec<String>) -> (r: bool)
    ensures
        r == (texts(skills@).len() == 0 || exists|k: int|
            0 <= k < texts(skills@).len() && #[trigger] spec_is_blank(texts(skills@)[k])),
{
    if skills.len() == 0 {
        return true;
    }
    let mut k: usize = 0;
    while k < skills.len()
        invariant
            k <= skills.len(),
            forall|l: int| 0 <= l < k ==> !spec_is_blank(#[trigger] texts(skills@)[l]),
        decreases skills.len() - k,
    {
        if is_blank(skills[k].as_str()) {
            assert(spec_is_blank(texts(skills@)[k as int]));
            return true;
        }
        k = k + 1;
    }
    false
}

/// The rule that stage `i` breaks by itself, checked in order.
fn check_stage(stages: &Vec<BundleStage>, i: usize) -> (r: Option<BundleError>)
    requires
        i < stages.len(),
    ensures
        match r {
            Some(e) => stage_error(stages@.map_values(|s: BundleStage| s@), i as int) == Some(e@),
            None => stage_error(stages@.map_values(|s: BundleStage| s@), i as int) is None,
        },
{
    let ghost st = stages@.map_values(|s: BundleStage| s@);
    let stage = &stages[i];
    assert(st[i as int] == stage@);
    if !valid_slug(stage.id.as_str()) || id_used_before(stages, i) {
        return Some(BundleError::InvalidStageId { id: stage.id.clone() });
    }
    if lacks_skill_exec(&stage.skills) {
        return Some(BundleError::MissingSkill { stage: stage.id.clone() });
    }
    if has_duplicates(&stage.skills) {
        return Some(BundleError::DuplicateSkill { stage: stage.id.clone() });
    }
    if has_duplicates(&stage.after) {
        return Some(BundleError::RepeatedPredecessor { stage: stage.id.clone() });
    }
    match &stage.when {
        Some(fact) => {
            if !valid_slug(fact.as_str()) {
                return Some(BundleError::InvalidFact { stage: stage.id.clone(), fact: fact.clone() });
            }
        },
        None => {},
    }
    None
}

/// The index of the first stage whose id is `name`.
fn find_stage(stages: &Vec<BundleStage>, name: &str) -> (r: Option<usize>)
    ensures
        match r {
            Some(j) => j < stages.len() && stages@[j as int].id@ == name@ && forall|l: int|
                0 <= l < j ==> #[trigger] stages@[l].id@ != name@,
            None => forall|l: int| 0 <= l < stages.len() ==> #[trigger] stages@[l].id@ != name@,
        },
{
    let mut j: usize = 0;
    while j < stages.len()
        invariant
            j <= stages.len(),
            forall|l: int| 0 <= l < j ==> #[trigger] stages@[l].id@ != name@,
        decreases stages.len() - j,
    {
        if str_equal(stages[j].id.as_str(), name) {
            return Some(j);
        }
        j = j + 1;
    }
    None
}

/// Resolves every predecessor to the index of the stage it names, or reports
/// the first one that is the stage itself or no stage.
fn resolve_predecessors(stages: &Vec<BundleStage>) -> (r: Result<Vec<Vec<usize>>, BundleError>)
    ensures
        match r {
            Ok(g) => first_predecessor_error(
                stages@.map_values(|s: BundleStage| s@),
                stages.len() as int,
            ) is None && resolves(stages@.map_values(|s: BundleStage| s@), g.deep_view()),
            Err(e) => first_predecessor_error(
                stages@.map_values(|s: BundleStage| s@),
                stages.len() as int,
            ) == Some(e@),
        },
{
    let ghost st = stages@.map_values(|s: BundleStage| s@);
    let n = stages.len();
    let mut g: Vec<Vec<usize>> = Vec::new();
    let mut i: usize = 0;
    while i < n
        invariant
            n == stages.len(),
            st == stages@.map_values(|s: BundleStage| s@),
            i <= n,
            g@.len() == i,
            first_predecessor_error(st, i as int) is None,
            forall|a: int| 0 <= a < i ==> #[trigger] g@[a]@.len() == st[a].after.len(),
            forall|a: int, k: int|
                0 <= a < i && 0 <= k < g@[a]@.len() ==> #[trigger] g@[a]@[k] < n && st[g@[a]@[k] as int].id
                    == st[a].after[k],
        decreases n - i,
    {
        let stage = &stages[i];
        assert(st[i as int] == stage@);
        let mut row: Vec<usize> = Vec::new();
        let mut k: usize = 0;
        while k < stage.after.len()
            invariant
                n == stages.len(),
                st == stages@.map_values(|s: BundleStage| s@),
                i < n,
                st[i as int] == stage@,
                k <= stage.after.len(),
                row@.len() == k,
                first_predecessor_error(st, i as int) is None,
                first_predecessor_error_of(st, i as int, k as int) is None,
                forall|l: int|
                    0 <= l < k ==> #[trigger] row@[l] < n && st[row@[l] as int].id == st[i as int].after[l],
            decreases stage.after.len() - k,
        {
            let dependency = &stage.after[k];
            assert(st[i as int].after[k as int] == dependency@);
            if str_equal(dependency.as_str(), stage.id.as_str()) {
                proof {
                    lemma_first_predecessor_error_of_persists(
                        st,
                        i as int,
                        k + 1,
                        st[i as int].after.len() as int,
                    );
                    lemma_first_predecessor_error_persists(st, i + 1, n as int);
                }
                return Err(
                    BundleError::InvalidPredecessor {
                        stage: stage.id.clone(),
                        predecessor: dependency.clone(),
                    },
                );
            }
            match find_stage(stages, dependency.as_str()) {
                None => {
                    proof {
                        assert(!stage_ids(st).contains(dependency@)) by {
                            if stage_ids(st).contains(dependency@) {
                                let l = choose|l: int|
                                    0 <= l < stage_ids(st).len() && stage_ids(st)[l]
                                        == dependency@;
                                assert(stages@[l].id@ != dependency@);
                            }
                        }
                        lemma_first_predecessor_error_of_persists(
                            st,
                            i as int,
                            k + 1,
                            st[i as int].after.len() as int,
                        );
                        lemma_first_predecessor_error_persists(st, i + 1, n as int);
                    }
                    return Err(
                        BundleError::InvalidPredecessor {
                            stage: stage.id.clone(),
                            predecessor: dependency.clone(),
                        },
                    );
                },
                Some(j) => {
                    proof {
                        assert(stage_ids(st)[j as int] == dependency@);
                    }
                    row.push(j);
                },
            }
            k = k + 1;
        }
        assert(row@ == row.deep_view());
        g.push(row);
        i = i + 1;
    }
    proof {
        assert forall|a: int| 0 <= a < g.deep_view().len() implies #[trigger] g.deep_view()[a].len()
            == st[a].after.len() by {
            assert(g.deep_view()[a] == g@[a]@);
        }
        assert forall|a: int, k: int|
            0 <= a < g.deep_view().len() && 0 <= k < g.deep_view()[a].len() implies #[trigger] g.deep_view()[a][k]
            < st.len() && st[g.deep_view()[a][k] as int].id == st[a].after[k] by {
            assert(g.deep_view()[a] == g@[a]@);
            assert(g@[a]@[k] < n);
        }
    }
    Ok(g)
}

/// Checks the structure of a manifest: schema version 1, a valid slug, a
/// description, at least one stage, valid and distinct stage ids, at least one
/// named skill per stage and no skill twice, no predecessor twice, valid
/// condition facts, predecessors that name other existing stages, and no
/// stage that depends on itself.
pub fn validate_structure(manifest: &BundleManifest) -> (r: Result<(), BundleError>)
    ensures
        r is Ok <==> structurally_valid(manifest@),
        r matches Err(e) ==> reported_error(manifest@, e@),
{
    let ghost m = manifest@;
    let ghost st = m.stages;
    if manifest.schema_version != 1 {
        return Err(BundleError::UnsupportedSchemaVersion { version: manifest.schema_version });
    }
    if !valid_slug(manifest.slug.as_str()) {
        return Err(BundleError::InvalidSlug);
    }
    if is_blank(manifest.description.as_str()) {
        return Err(BundleError::MissingDescription);
    }
    let n = manifest.stages.len();
    if n == 0 {
        return Err(BundleError::NoStages);
    }
    let mut i: usize = 0;
    while i < n
        invariant
            n == manifest.stages.len(),
            m == manifest@,
            st == m.stages,
            m.schema_version == 1,
            spec_valid_slug(m.slug),
            !spec_is_blank(m.description),
            i <= n,
            first_stage_error(st, i as int) is None,
        decreases n - i,
    {
        match check_stage(&manifest.stages, i) {
            Some(e) => {
                proof {
                    assert(first_stage_error(st, i + 1) == Some(e@));
                    lemma_first_stage_error_persists(st, i + 1, n as int);
                }
                return Err(e);
            },
            None => {},
        }
        i = i + 1;
    }
    let g = match resolve_predecessors(&manifest.stages) {
        Ok(g) => g,
        Err(e) => {
            assert(first_stage_error(st, n as int) is None);
            assert(first_structure_error(m) == Some(e@));
            return Err(e);
        },
    };
    proof {
        lemma_unique_ids(st);
        lemma_resolved_graph(st, g.deep_view());
    }
    match graph::find_cycle(&g) {
        Ok(()) => {
            assert(stages_acyclic(st)) by {
                assert forall|v: int| 0 <= v < st.len() implies !depends_on_itself(st, v) by {
                    assert(!graph::on_cycle(g.deep_view(), v));
                }
            }
            Ok(())
        },
        Err(c) => {
            let stage = &manifest.stages[c];
            assert(st[c as int] == stage@);
            assert(graph::on_cycle(g.deep_view(), c as int));
            proof {
                lemma_resolution_is_canonical(st, g.deep_view());
            }
            Err(BundleError::Cycle { stage: stage.id.clone() })
        },
    }
}

// ---------------------------------------------------------------------------
// Readiness
// ---------------------------------------------------------------------------

/// Why a stage is not ready to run.
#[derive(Debug)]
pub enum ReadinessError {
    UnknownStage { stage: String },
    IncompleteStage { stage: String, predecessor: String },
    FactNotTrue { stage: String, fact: String },
}

/// A `ReadinessError` with its strings taken as character sequences.
pub enum ReadinessErrorModel {
    UnknownStage { stage: Seq<char> },
    IncompleteStage { stage: Seq<char>, predecessor: Seq<char> },
    FactNotTrue { stage: Seq<char>, fact: Seq<char> },
}

impl View for ReadinessError {
    type V = ReadinessErrorModel;

    open spec fn view(&self) -> ReadinessErrorModel {
        match self {
            ReadinessError::UnknownStage { stage } => ReadinessErrorModel::UnknownStage {
                stage: stage@,
            },
            ReadinessError::IncompleteStage { stage, predecessor } =>
                ReadinessErrorModel::IncompleteStage { stage: stage@, predecessor: predecessor@ },
            ReadinessError::FactNotTrue { stage, fact } => ReadinessErrorModel::FactNotTrue {
                stage: stage@,
                fact: fact@,
            },
        }
    }
}

/// The facts supplied by the agent, names taken as character sequences.
pub open spec fn fact_entries(facts: Seq<(String, bool)>) -> Seq<(Seq<char>, bool)> {
    facts.map_values(|p: (String, bool)| (p.0@, p.1))
}

/// No fact is reported twice: the facts form a map from names to values.
pub open spec fn distinct_fact_names(facts: Seq<(Seq<char>, bool)>) -> bool {
    forall|i: int, j: int|
        0 <= i < facts.len() && 0 <= j < facts.len() && i != j ==> #[trigger] facts[i].0
            != #[trigger] facts[j].0
}

/// Stage `i` is the first stage whose id is `id`.
pub open spec fn is_first_with_id(stages: Seq<StageModel>, id: Seq<char>, i: int) -> bool {
    &&& 0 <= i < stages.len()
    &&& stages[i].id == id
    &&& forall|j: int| 0 <= j < i ==> #[trigger] stages[j].id != id
}

/// Predecessor `k` of `st` is the first one not in `completed`.
pub open spec fn is_first_incomplete(st: StageModel, completed: Seq<Seq<char>>, k: int) -> bool {
    &&& 0 <= k < st.after.len()
    &&& !completed.contains(st.after[k])
    &&& forall|l: int| 0 <= l < k ==> completed.contains(#[trigger] st.after[l])
}

/// Whether stage `id` may run once the stages in `completed` are done and the
/// agent reports `facts`: the index of that stage when it may, else why not.
/// The stage is the first one with that id; every predecessor must be
/// completed, checked in order, and its condition fact, if any, must be
/// reported true.
pub open spec fn readiness(
    stages: Seq<StageModel>,
    id: Seq<char>,
    completed: Seq<Seq<char>>,
    facts: Seq<(Seq<char>, bool)>,
) -> Result<int, ReadinessErrorModel> {
    if !stage_ids(stages).contains(id) {
        Err(ReadinessErrorModel::UnknownStage { stage: id })
    } else {
        let i = choose|i: int| is_first_with_id(stages, id, i);
        let st = stages[i];
        if exists|k: int| 0 <= k < st.after.len() && !completed.contains(#[trigger] st.after[k]) {
            let k = choose|k: int| is_first_incomplete(st, completed, k);
            Err(ReadinessErrorModel::IncompleteStage { stage: st.id, predecessor: st.after[k] })
        } else if st.when is Some && !facts.contains((st.when->0, true)) {
            Err(ReadinessErrorModel::FactNotTrue { stage: st.id, fact: st.when->0 })
        } else {
            Ok(i)
        }
    }
}

/// Whether the agent reported fact `name` as true.
fn fact_is_true(facts: &Vec<(String, bool)>, name: &str) -> (r: bool)
    ensures
        r == fact_entries(facts@).contains((name@, true)),
{
    let mut j: usize = 0;
    while j < facts.len()
        invariant
            j <= facts.len(),
            forall|l: int| 0 <= l < j ==> #[trigger] fact_entries(facts@)[l] != (name@, true),
        decreases facts.len() - j,
    {
        if facts[j].1 && str_equal(facts[j].0.as_str(), name) {
            assert(fact_entries(facts@)[j as int] == (name@, true));
            return true;
        }
        assert(fact_entries(facts@)[j as int] == (facts@[j as int].0@, facts@[j as int].1));
        j = j + 1;
    }
    false
}

/// The stage `stage_id` of the manifest, when it is ready to run: its
/// predecessors are all among `completed` and its condition fact, if it has
/// one, is reported true in `facts`, which names each fact at most once.
pub fn ready_stage<'a>(
    manifest: &'a BundleManifest,
    stage_id: &str,
    completed: &Vec<String>,
    facts: &Vec<(String, bool)>,
) -> (r: Result<&'a BundleStage, ReadinessError>)
    requires
        distinct_fact_names(fact_entries(facts@)),
    ensures
        match readiness(manifest@.stages, stage_id@, texts(completed@), fact_entries(facts@)) {
            Ok(i) => r matches Ok(s) && *s == manifest.stages@[i],
            Err(e) => r matches Err(x) && x@ == e,
        },
{
    let ghost st = manifest@.stages;
    let ghost done = texts(completed@);
    let i = match find_stage(&manifest.stages, stage_id) {
        None => {
            assert(!stage_ids(st).contains(stage_id@)) by {
                if stage_ids(st).contains(stage_id@) {
                    let l = choose|l: int|
                        0 <= l < stage_ids(st).len() && stage_ids(st)[l] == stage_id@;
                    assert(manifest.stages@[l].id@ != stage_id@);
                }
            }
            return Err(ReadinessError::UnknownStage { stage: stage_id.to_owned() });
        },
        Some(i) => i,
    };
    let stage = &manifest.stages[i];
    proof {
        assert(st[i as int] == stage@);
        assert(stage_ids(st)[i as int] == stage_id@);
        assert forall|j: int| 0 <= j < i implies #[trigger] st[j].id != stage_id@ by {
            assert(manifest.stages@[j].id@ != stage_id@);
        }
        assert(is_first_with_id(st, stage_id@, i as int));
        let c = choose|c: int| is_first_with_id(st, stage_id@, c);
        assert(c == i) by {
            if c < i {
                assert(st[c].id != stage_id@);
            } else if c > i {
                assert(st[i as int].id != stage_id@);
            }
        }
    }
    let mut k: usize = 0;
    while k < stage.after.len()
        invariant
            k <= stage.after.len(),
            done == texts(completed@),
            st == manifest@.stages,
            i < st.len(),
            st[i as int] == stage@,
            stage_ids(st).contains(stage_id@),
            (choose|c: int| is_first_with_id(st, stage_id@, c)) == i,
            forall|l: int| 0 <= l < k ==> done.contains(#[trigger] stage@.after[l]),
        decreases stage.after.len() - k,
    {
        let predecessor = &stage.after[k];
        assert(stage@.after[k as int] == predecessor@);
        if !contains_text(completed, predecessor.as_str()) {
            proof {
                assert(!done.contains(stage@.after[k as int]));
                assert(is_first_incomplete(stage@, done, k as int));
                let c = choose|c: int| is_first_incomplete(stage@, done, c);
                assert(c == k) by {
                    if c < k {
                        assert(done.contains(stage@.after[c]));
                    } else if c > k {
                        assert(done.contains(stage@.after[k as int]));
                    }
                }
            }
            return Err(
                ReadinessError::IncompleteStage {
                    stage: stage.id.clone(),
                    predecessor: predecessor.clone(),
                },
            );
        }
        k = k + 1;
    }
    match &stage.when {
        Some(fact) => {
            if !fact_is_true(facts, fact.as_str()) {
                return Err(
                    ReadinessError::FactNotTrue { stage: stage.id.clone(), fact: fact.clone() },
                );
            }
        },
        None => {},
    }
    Ok(stage)
}

// ---------------------------------------------------------------------------
// Messages
// ---------------------------------------------------------------------------

/// The text that reports a structural error.
pub open spec fn bundle_error_message(e: BundleErrorModel) -> Seq<char> {
    match e {
        BundleErrorModel::UnsupportedSchemaVersion { version } =>
            "unsupported bundle schema_version: "@ + decimal(version as nat),
        BundleErrorModel::InvalidSlug =>
            "bundle slug must use lowercase letters, digits, and single hyphens"@,
        BundleErrorModel::MissingDescription => "bundle description is required"@,
        BundleErrorModel::NoStages => "bundle must contain at least one stage"@,
        BundleErrorModel::InvalidStageId { id } => "invalid or duplicate bundle stage id: "@ + id,
        BundleErrorModel::MissingSkill { stage } => "stage "@ + stage
            + " must reference at least one named skill"@,
        BundleErrorModel::DuplicateSkill { stage } => "stage "@ + stage
            + " references the same skill more than once"@,
        BundleErrorModel::RepeatedPredecessor { stage } => "stage "@ + stage
            + " repeats a predecessor"@,
        BundleErrorModel::InvalidFact { stage, fact } => "invalid condition fact in stage "@
            + stage + ": "@ + fact,
        BundleErrorModel::InvalidPredecessor { stage, predecessor } => "stage "@ + stage
            + " has invalid predecessor "@ + predecessor,
        BundleErrorModel::Cycle { stage } => "bundle stages contain a cycle at "@ + stage,
    }
}

/// The text that reports why a stage is not ready.
pub open spec fn readiness_error_message(e: ReadinessErrorModel) -> Seq<char> {
    match e {
        ReadinessErrorModel::UnknownStage { stage } => "unknown bundle stage: "@ + stage,
        ReadinessErrorModel::IncompleteStage { stage, predecessor } => "stage "@ + stage
            + " requires completed stage "@ + predecessor,
        ReadinessErrorModel::FactNotTrue { stage, fact } => "stage "@ + stage
            + " requires fact "@ + fact + "=true"@,
    }
}

/// `a`, then `b`, then `c`.
fn join3(a: &str, b: &str, c: &str) -> (r: String)
    ensures
        r@ == a@ + b@ + c@,
{
    let mut r = join_text(a, b);
    r.append(c);
    r
}

/// `a`, then `b`, then `c`, then `d`.
fn join4(a: &str, b: &str, c: &str, d: &str) -> (r: String)
    ensures
        r@ == a@ + b@ + c@ + d@,
{
    let mut r = join3(a, b, c);
    r.append(d);
    r
}

impl BundleError {
    /// The text that reports this error.
    pub fn message(&self) -> (r: String)
        ensures
            r@ == bundle_error_message(self@),
    {
        match self {
            BundleError::UnsupportedSchemaVersion { version } => {
                let v = decimal_text(*version);
                join_text("unsupported bundle schema_version: ", v.as_str())
            },
            BundleError::InvalidSlug => {
                "bundle slug must use lowercase letters, digits, and single hyphens".to_owned()
            },
            BundleError::MissingDescription => "bundle description is required".to_owned(),
            BundleError::NoStages => "bundle must contain at least one stage".to_owned(),
            BundleError::InvalidStageId { id } => join_text(
                "invalid or duplicate bundle stage id: ",
                id.as_str(),
            ),
            BundleError::MissingSkill { stage } => join3(
                "stage ",
                stage.as_str(),
                " must reference at least one named skill",
            ),
            BundleError::DuplicateSkill { stage } => join3(
                "stage ",
                stage.as_str(),
                " references the same skill more than once",
            ),
            BundleError::RepeatedPredecessor { stage } => join3(
                "stage ",
                stage.as_str(),
                " repeats a predecessor",
            ),
            BundleError::InvalidFact { stage, fact } => join4(
                "invalid condition fact in stage ",
                stage.as_str(),
                ": ",
                fact.as_str(),
            ),
            BundleError::InvalidPredecessor { stage, predecessor } => join4(
                "stage ",
                stage.as_str(),
                " has invalid predecessor ",
                predecessor.as_str(),
            ),
            BundleError::Cycle { stage } => join_text(
                "bundle stages contain a cycle at ",
                stage.as_str(),
            ),
        }
    }
}

impl ReadinessError {
    /// The text that reports this error.
    pub fn message(&self) -> (r: String)
        ensures
            r@ == readiness_error_message(self@),
    {
        match self {
            ReadinessError::UnknownStage { stage } => join_text(
                "unknown bundle stage: ",
                stage.as_str(),
            ),
            ReadinessError::IncompleteStage { stage, predecessor } => join4(
                "stage ",
                stage.as_str(),
                " requires completed stage ",
                predecessor.as_str(),
            ),
            ReadinessError::FactNotTrue { stage, fact } => {
                let mut r = join4("stage ", stage.as_str(), " requires fact ", fact.as_str());
                r.append("=true");
                r
            },
        }
    }
}

} // verus!
