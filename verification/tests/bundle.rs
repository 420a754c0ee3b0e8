use skills_manager::bundle::{
    ready_stage, validate_structure, BundleError, BundleManifest, BundleStage, ReadinessError,
};
use skills_manager::text::valid_slug;

fn strings(items: &[&str]) -> Vec<String> {
    items.iter().map(|s| s.to_string()).collect()
}

fn stage(id: &str, skills: &[&str], after: &[&str], when: Option<&str>) -> BundleStage {
    BundleStage {
        id: id.to_string(),
        skills: strings(skills),
        after: strings(after),
        when: when.map(|w| w.to_string()),
    }
}

/// A two-stage release bundle:
/// schema_version 1, slug web-release, stages build and review.
fn sample() -> BundleManifest {
    BundleManifest {
        schema_version: 1,
        slug: "web-release".to_string(),
        description: "Web release".to_string(),
        instructions: String::new(),
        stages: vec![
            stage("build", &["frontend-design"], &[], None),
            stage("review", &["web-design-critic"], &["build"], Some("page-available")),
        ],
    }
}

fn no_facts() -> Vec<(String, bool)> {
    Vec::new()
}

#[test]
fn only_ready_stage_resolves() {
    let manifest = sample();
    validate_structure(&manifest).unwrap();
    assert!(ready_stage(&manifest, "review", &Vec::new(), &no_facts()).is_err());
    let completed = vec!["build".to_string()];
    assert!(ready_stage(&manifest, "review", &completed, &no_facts()).is_err());
    let facts = vec![("page-available".to_string(), true)];
    assert_eq!(
        ready_stage(&manifest, "review", &completed, &facts)
            .unwrap()
            .skills
            .len(),
        1
    );
}

#[test]
fn rejects_cycle() {
    let mut manifest = sample();
    manifest.stages[0].after.push("review".to_string());
    assert!(validate_structure(&manifest).is_err());
}

#[test]
fn cycle_names_a_stage_on_the_cycle() {
    let mut manifest = sample();
    manifest.stages[0].after.push("review".to_string());
    match validate_structure(&manifest) {
        Err(BundleError::Cycle { stage }) => assert_eq!(stage, "build"),
        other => panic!("unexpected {:?}", other),
    }
}

#[test]
fn ring_of_three_names_the_first_stage() {
    let manifest = BundleManifest {
        schema_version: 1,
        slug: "loop".to_string(),
        description: "L".to_string(),
        instructions: String::new(),
        stages: vec![
            stage("a", &["s1"], &["c"], None),
            stage("b", &["s2"], &["a"], None),
            stage("c", &["s3"], &["b"], None),
        ],
    };
    let e = validate_structure(&manifest).unwrap_err();
    assert_eq!(e.message(), "bundle stages contain a cycle at a");
}

#[test]
fn longer_cycle_is_rejected_and_acyclic_chain_accepted() {
    let mut manifest = sample();
    manifest.stages = vec![
        stage("a", &["s1"], &["c"], None),
        stage("b", &["s2"], &["a"], None),
        stage("c", &["s3"], &["b"], None),
        stage("d", &["s4"], &[], None),
    ];
    match validate_structure(&manifest) {
        Err(BundleError::Cycle { stage }) => assert_eq!(stage, "a"),
        other => panic!("unexpected {:?}", other),
    }
    manifest.stages[0].after.clear();
    assert!(validate_structure(&manifest).is_ok());
}

#[test]
fn acceptance_ignores_order() {
    let mut manifest = sample();
    manifest.stages.reverse();
    manifest.stages[1].skills = strings(&["b-skill", "a-skill"]);
    assert!(validate_structure(&manifest).is_ok());
    let mut ring = sample();
    ring.stages[0].after.push("review".to_string());
    ring.stages.reverse();
    assert!(validate_structure(&ring).is_err());
}

#[test]
fn first_stage_is_ready_initially() {
    let manifest = sample();
    let stage = ready_stage(&manifest, "build", &Vec::new(), &no_facts()).unwrap();
    assert_eq!(stage.id, "build");
    assert_eq!(stage.skills, vec!["frontend-design".to_string()]);
}

#[test]
fn readiness_errors_name_the_missing_condition() {
    let manifest = sample();
    match ready_stage(&manifest, "deploy", &Vec::new(), &no_facts()) {
        Err(e) => {
            assert!(matches!(e, ReadinessError::UnknownStage { .. }));
            assert_eq!(e.message(), "unknown bundle stage: deploy");
        }
        Ok(_) => panic!("unknown stage resolved"),
    }
    match ready_stage(&manifest, "review", &Vec::new(), &no_facts()) {
        Err(e) => assert_eq!(e.message(), "stage review requires completed stage build"),
        Ok(_) => panic!("review ready too early"),
    }
    let completed = vec!["build".to_string()];
    let false_fact = vec![("page-available".to_string(), false)];
    match ready_stage(&manifest, "review", &completed, &false_fact) {
        Err(e) => assert_eq!(e.message(), "stage review requires fact page-available=true"),
        Ok(_) => panic!("false fact accepted"),
    }
}

#[test]
fn more_completed_stages_keep_a_stage_ready() {
    let manifest = sample();
    let completed = vec!["build".to_string(), "other".to_string()];
    let facts = vec![("page-available".to_string(), true), ("x".to_string(), false)];
    assert!(ready_stage(&manifest, "review", &completed, &facts).is_ok());
    assert!(ready_stage(&manifest, "build", &completed, &facts).is_ok());
}

#[test]
fn run_order_makes_every_stage_ready() {
    let manifest = sample();
    assert!(validate_structure(&manifest).is_ok());
    let facts = vec![("page-available".to_string(), true)];
    let mut completed: Vec<String> = Vec::new();
    for id in ["build", "review"] {
        assert!(ready_stage(&manifest, id, &completed, &facts).is_ok());
        completed.push(id.to_string());
    }
}

#[test]
fn each_structural_error_is_reported() {
    let mut m = sample();
    m.schema_version = 2;
    let e = validate_structure(&m).unwrap_err();
    assert!(matches!(e, BundleError::UnsupportedSchemaVersion { version: 2 }));
    assert_eq!(e.message(), "unsupported bundle schema_version: 2");

    let mut m = sample();
    m.slug = "Web".to_string();
    let e = validate_structure(&m).unwrap_err();
    assert!(matches!(e, BundleError::InvalidSlug));
    assert_eq!(
        e.message(),
        "bundle slug must use lowercase letters, digits, and single hyphens"
    );

    let mut m = sample();
    m.description = " \t\n".to_string();
    let e = validate_structure(&m).unwrap_err();
    assert!(matches!(e, BundleError::MissingDescription));
    assert_eq!(e.message(), "bundle description is required");

    let mut m = sample();
    m.stages.clear();
    let e = validate_structure(&m).unwrap_err();
    assert!(matches!(e, BundleError::NoStages));
    assert_eq!(e.message(), "bundle must contain at least one stage");

    let mut m = sample();
    m.stages[1].id = "build".to_string();
    let e = validate_structure(&m).unwrap_err();
    assert_eq!(e.message(), "invalid or duplicate bundle stage id: build");

    let mut m = sample();
    m.stages[0].id = "Build".to_string();
    let e = validate_structure(&m).unwrap_err();
    assert_eq!(e.message(), "invalid or duplicate bundle stage id: Build");

    let mut m = sample();
    m.stages[0].skills.clear();
    let e = validate_structure(&m).unwrap_err();
    assert_eq!(e.message(), "stage build must reference at least one named skill");

    let mut m = sample();
    m.stages[0].skills.push("  ".to_string());
    let e = validate_structure(&m).unwrap_err();
    assert!(matches!(e, BundleError::MissingSkill { .. }));

    let mut m = sample();
    m.stages[0].skills.push("frontend-design".to_string());
    let e = validate_structure(&m).unwrap_err();
    assert_eq!(e.message(), "stage build references the same skill more than once");

    let mut m = sample();
    m.stages[1].after.push("build".to_string());
    let e = validate_structure(&m).unwrap_err();
    assert_eq!(e.message(), "stage review repeats a predecessor");

    let mut m = sample();
    m.stages[1].when = Some("page_available".to_string());
    let e = validate_structure(&m).unwrap_err();
    assert_eq!(
        e.message(),
        "invalid condition fact in stage review: page_available"
    );

    let mut m = sample();
    m.stages[1].after = vec!["deploy".to_string()];
    let e = validate_structure(&m).unwrap_err();
    assert_eq!(e.message(), "stage review has invalid predecessor deploy");

    let mut m = sample();
    m.stages[1].after = vec!["review".to_string()];
    let e = validate_structure(&m).unwrap_err();
    assert!(matches!(e, BundleError::InvalidPredecessor { .. }));

    let mut m = sample();
    m.stages[0].after = vec!["build".to_string()];
    let e = validate_structure(&m).unwrap_err();
    assert_eq!(e.message(), "stage build has invalid predecessor build");

    let mut m = sample();
    m.stages[0].after = vec!["review".to_string()];
    let e = validate_structure(&m).unwrap_err();
    assert_eq!(e.message(), "bundle stages contain a cycle at build");
}

#[test]
fn errors_come_in_check_order() {
    let mut m = sample();
    m.slug = "-bad".to_string();
    m.stages.clear();
    assert!(matches!(validate_structure(&m).unwrap_err(), BundleError::InvalidSlug));

    let mut m = sample();
    m.stages[0].skills.clear();
    m.stages[1].id = "Bad".to_string();
    assert!(matches!(validate_structure(&m).unwrap_err(), BundleError::MissingSkill { .. }));
}

#[test]
fn slug_rules() {
    assert!(valid_slug("web-release"));
    assert!(valid_slug("a1"));
    assert!(!valid_slug(""));
    assert!(!valid_slug("-a"));
    assert!(!valid_slug("a-"));
    assert!(!valid_slug("a--b"));
    assert!(!valid_slug("A"));
    assert!(!valid_slug("a_b"));
    assert!(!valid_slug("é"));
}

#[test]
fn unicode_blank_skill_counts_as_missing() {
    let mut m = sample();
    m.stages[0].skills = vec!["\u{3000}\u{a0}".to_string()];
    assert!(matches!(validate_structure(&m).unwrap_err(), BundleError::MissingSkill { .. }));
}
