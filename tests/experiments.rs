use experiments::{
    branch_index, bucket, compare_versions, matches_rule, parse_version, AppContext, Branch,
    Bucket, EnrolledExperiment, Error, Experiment, Experiments, Identifier, Matcher,
    PersistedData, Startup, BUCKET_SPACE_SIZE,
};
use rand::{rngs::StdRng, Rng, SeedableRng};

fn id_with_lead(lead: [u8; 4]) -> Identifier {
    let mut bytes = [7u8; 16];
    bytes[..4].copy_from_slice(&lead);
    Identifier { bytes }
}

fn branch(name: &str) -> Branch {
    Branch { name: name.to_string(), ratio: 1 }
}

fn experiment(id: &str, start: u32, count: u32, branches: &[&str]) -> Experiment {
    Experiment {
        id: id.to_string(),
        description: format!("experiment {}", id),
        last_modified: 1,
        schema_modified: None,
        buckets: Bucket { count, start },
        branches: branches.iter().map(|b| branch(b)).collect(),
        matcher: Matcher::default(),
    }
}

fn expected_branch(bucket_no: u32, names: &[&str]) -> String {
    let draw = StdRng::seed_from_u64(bucket_no as u64).gen::<u64>();
    names[(draw % names.len() as u64) as usize].to_string()
}

fn enrolled_pairs(e: &Experiments) -> Vec<(String, String)> {
    e.get_enrolled_experiments()
        .iter()
        .map(|r| (r.get_id().clone(), r.get_branch().clone()))
        .collect()
}

#[test]
fn it_works() {
    assert_eq!(2 + 2, 4);
}

#[test]
fn bucket_reads_leading_bytes_big_endian() {
    assert_eq!(bucket(&id_with_lead([0, 0, 0, 42]), BUCKET_SPACE_SIZE), 42);
    assert_eq!(bucket(&id_with_lead([0, 1, 0, 0]), BUCKET_SPACE_SIZE), 5536);
    assert_eq!(bucket(&id_with_lead([255, 255, 255, 255]), BUCKET_SPACE_SIZE), 7295);
    assert_eq!(bucket(&id_with_lead([1, 2, 3, 4]), 1000), 16909060 % 1000);
}

#[test]
fn bucket_is_deterministic() {
    let id = id_with_lead([9, 8, 7, 6]);
    assert_eq!(bucket(&id, BUCKET_SPACE_SIZE), bucket(&id, BUCKET_SPACE_SIZE));
    assert!(bucket(&id, BUCKET_SPACE_SIZE) < BUCKET_SPACE_SIZE);
}

#[test]
fn branch_index_follows_seeded_generator() {
    for bucket_no in [0u32, 1, 42, 9999] {
        for n in [1usize, 2, 3, 7] {
            let draw = StdRng::seed_from_u64(bucket_no as u64).gen::<u64>();
            assert_eq!(branch_index(bucket_no, n), (draw % n as u64) as usize);
            assert_eq!(branch_index(bucket_no, n), branch_index(bucket_no, n));
        }
    }
}

#[test]
fn range_boundaries_inside_the_space() {
    let r = Bucket { start: 100, count: 50 };
    assert!(r.contains(100, BUCKET_SPACE_SIZE));
    assert!(r.contains(149, BUCKET_SPACE_SIZE));
    assert!(!r.contains(150, BUCKET_SPACE_SIZE));
    assert!(!r.contains(99, BUCKET_SPACE_SIZE));
}

#[test]
fn range_boundaries_at_zero_and_last_slot() {
    let low = Bucket { start: 0, count: 100 };
    assert!(low.contains(0, BUCKET_SPACE_SIZE));
    assert!(low.contains(99, BUCKET_SPACE_SIZE));
    assert!(!low.contains(100, BUCKET_SPACE_SIZE));
    assert!(!low.contains(9999, BUCKET_SPACE_SIZE));
    let high = Bucket { start: 9900, count: 100 };
    assert!(high.contains(9900, BUCKET_SPACE_SIZE));
    assert!(high.contains(9999, BUCKET_SPACE_SIZE));
    assert!(!high.contains(0, BUCKET_SPACE_SIZE));
    assert!(!high.contains(9899, BUCKET_SPACE_SIZE));
}

#[test]
fn range_wraps_around_the_space() {
    let r = Bucket { start: 9995, count: 10 };
    assert!(r.contains(9995, BUCKET_SPACE_SIZE));
    assert!(r.contains(9999, BUCKET_SPACE_SIZE));
    assert!(r.contains(0, BUCKET_SPACE_SIZE));
    assert!(r.contains(4, BUCKET_SPACE_SIZE));
    assert!(!r.contains(5, BUCKET_SPACE_SIZE));
    assert!(!r.contains(9994, BUCKET_SPACE_SIZE));
}

#[test]
fn range_edge_sizes() {
    let empty = Bucket { start: 10, count: 0 };
    assert!(!empty.contains(10, BUCKET_SPACE_SIZE));
    let full = Bucket { start: 10, count: BUCKET_SPACE_SIZE };
    assert!(full.contains(9, BUCKET_SPACE_SIZE));
    assert!(full.contains(10, BUCKET_SPACE_SIZE));
    let at_end = Bucket { start: BUCKET_SPACE_SIZE, count: 1 };
    assert!(at_end.contains(0, BUCKET_SPACE_SIZE));
    assert!(!at_end.contains(1, BUCKET_SPACE_SIZE));
}

#[test]
fn version_parts() {
    assert_eq!(parse_version("1.2.3"), vec![1, 2, 3]);
    assert_eq!(parse_version("10.x.7"), vec![10, 0, 7]);
    assert_eq!(parse_version("68.0a1"), vec![68, 0]);
    assert_eq!(parse_version(""), vec![0]);
    assert_eq!(parse_version("99999999999999999999"), vec![u64::MAX]);
}

#[test]
fn version_ordering_is_numeric() {
    assert_eq!(compare_versions("1.10", "1.9"), 1);
    assert_eq!(compare_versions("1.9", "1.10"), -1);
    assert_eq!(compare_versions("2.0", "2"), 0);
    assert_eq!(compare_versions("1.2.3", "1.2.10"), -1);
    assert_eq!(compare_versions("68.0a1", "68.0"), 0);
}

fn context() -> AppContext {
    AppContext {
        app_id: Some("org.mozilla.fenix".to_string()),
        app_version: Some("79.1.0".to_string()),
        locale_language: Some("en".to_string()),
        locale_country: Some("US".to_string()),
        device_manufacturer: None,
        device_model: None,
        region: Some("US".to_string()),
        debug_tag: None,
    }
}

#[test]
fn empty_rule_matches_any_context() {
    assert!(matches_rule(&context(), &Matcher::default()));
    assert!(matches_rule(&AppContext::default(), &Matcher::default()));
}

#[test]
fn rule_fields_must_match() {
    let mut rule = Matcher::default();
    rule.app_id = Some("org.mozilla.fenix".to_string());
    assert!(matches_rule(&context(), &rule));
    rule.app_id = Some("org.mozilla.focus".to_string());
    assert!(!matches_rule(&context(), &rule));
    let mut rule = Matcher::default();
    rule.device_model = Some("Pixel".to_string());
    assert!(!matches_rule(&context(), &rule));
}

#[test]
fn rule_sets_need_membership() {
    let mut rule = Matcher::default();
    rule.regions = vec!["CA".to_string(), "US".to_string()];
    assert!(matches_rule(&context(), &rule));
    rule.regions = vec!["CA".to_string()];
    assert!(!matches_rule(&context(), &rule));
    let mut rule = Matcher::default();
    rule.debug_tags = vec!["qa".to_string()];
    assert!(!matches_rule(&context(), &rule));
}

#[test]
fn rule_version_bounds_are_semantic() {
    let mut rule = Matcher::default();
    rule.app_min_version = Some("79.0".to_string());
    rule.app_max_version = Some("80".to_string());
    assert!(matches_rule(&context(), &rule));
    rule.app_min_version = Some("79.1.0".to_string());
    assert!(matches_rule(&context(), &rule));
    rule.app_min_version = Some("79.10".to_string());
    assert!(!matches_rule(&context(), &rule));
    let mut rule = Matcher::default();
    rule.app_max_version = Some("79.0.9".to_string());
    assert!(!matches_rule(&context(), &rule));
    assert!(!matches_rule(&AppContext::default(), &rule));
}

#[test]
fn scenario_bucket_42() {
    let id = id_with_lead([0, 0, 0, 42]);
    let catalog = vec![
        experiment("E1", 0, 100, &["control", "treatment"]),
        experiment("E2", 5000, 10, &["control", "treatment"]),
    ];
    let e = Experiments::enroll(context(), id, catalog);
    assert_eq!(e.get_bucket(), 42);
    assert_eq!(
        enrolled_pairs(&e),
        vec![("E1".to_string(), expected_branch(42, &["control", "treatment"]))]
    );
    assert!(e.get_experiment_branch("E2").is_err());
    assert_eq!(e.get_experiments().len(), 2);
}

#[test]
fn enrollment_respects_targeting() {
    let id = id_with_lead([0, 0, 0, 42]);
    let mut targeted = experiment("E1", 0, 100, &["a", "b"]);
    targeted.matcher.app_id = Some("org.mozilla.focus".to_string());
    let e = Experiments::enroll(context(), id, vec![targeted]);
    assert!(e.get_enrolled_experiments().is_empty());
}

#[test]
fn enrollment_skips_experiment_without_branches() {
    let id = id_with_lead([0, 0, 0, 42]);
    let e = Experiments::enroll(context(), id, vec![experiment("E1", 0, 100, &[])]);
    assert!(e.get_enrolled_experiments().is_empty());
    assert_eq!(e.get_experiments().len(), 1);
}

#[test]
fn enrollment_has_no_duplicate_ids() {
    let id = id_with_lead([0, 0, 0, 42]);
    let catalog = vec![
        experiment("E1", 0, 100, &["a", "b", "c"]),
        experiment("E1", 0, 100, &["x"]),
    ];
    let e = Experiments::enroll(context(), id, catalog);
    assert_eq!(
        enrolled_pairs(&e),
        vec![("E1".to_string(), expected_branch(42, &["a", "b", "c"]))]
    );
}

#[test]
fn first_run_with_empty_catalog() {
    let e = Experiments::first_run(context(), Ok(vec![])).unwrap();
    assert!(e.get_enrolled_experiments().is_empty());
    assert!(e.get_experiments().is_empty());
    assert!(e.get_bucket() < BUCKET_SPACE_SIZE);
    assert_eq!(e.get_bucket(), bucket(&e.get_identifier(), BUCKET_SPACE_SIZE));
}

#[test]
fn first_run_fails_when_fetch_fails() {
    let r = Experiments::first_run(context(), Err(Error::CatalogFetch));
    assert!(matches!(r, Err(Error::CatalogFetch)));
}

#[test]
fn first_run_draws_fresh_identifiers() {
    let a = Experiments::first_run(context(), Ok(vec![])).unwrap();
    let b = Experiments::first_run(context(), Ok(vec![])).unwrap();
    assert_ne!(a.get_identifier(), b.get_identifier());
}

#[test]
fn first_run_enrolls_whole_space_experiment() {
    let catalog = vec![experiment("all", 0, BUCKET_SPACE_SIZE, &["one", "two"])];
    let e = Experiments::first_run(context(), Ok(catalog)).unwrap();
    let b = e.get_bucket();
    assert_eq!(e.get_experiment_branch("all").unwrap(), expected_branch(b, &["one", "two"]));
}

fn stored() -> PersistedData {
    PersistedData {
        app_ctx: AppContext::default(),
        experiments: vec![experiment("E1", 0, 100, &["control", "treatment"])],
        enrolled_experiments: vec![EnrolledExperiment::new(
            "E1".to_string(),
            "kept-branch".to_string(),
        )],
        bucket_no: 4321,
        uuid: id_with_lead([1, 1, 1, 1]),
    }
}

#[test]
fn stored_state_is_adopted_verbatim() {
    match Experiments::begin(context(), Some(stored())) {
        Startup::Loaded(e) => {
            assert_eq!(e.get_bucket(), 4321);
            assert_eq!(e.get_identifier(), id_with_lead([1, 1, 1, 1]));
            assert_eq!(e.get_experiment_branch("E1").unwrap(), "kept-branch");
            assert_eq!(e.get_experiments().len(), 1);
        }
        Startup::FetchCatalog(_) => panic!("stored state was not adopted"),
    }
}

#[test]
fn nothing_stored_asks_for_catalog() {
    match Experiments::begin(context(), None) {
        Startup::FetchCatalog(ctx) => assert_eq!(ctx.app_id, context().app_id),
        Startup::Loaded(_) => panic!("loaded from an empty store"),
    }
}

#[test]
fn lookup_is_idempotent() {
    let e = Experiments::from_persisted(context(), stored());
    let first = e.get_experiment_branch("E1").unwrap();
    let second = e.get_experiment_branch("E1").unwrap();
    assert_eq!(first, second);
}

#[test]
fn unknown_experiment_is_not_enrolled() {
    let e = Experiments::from_persisted(context(), stored());
    assert!(matches!(e.get_experiment_branch("does-not-exist"), Err(Error::NotEnrolled)));
    assert_eq!(e.find_experiment_branch("does-not-exist"), None);
    assert_eq!(e.find_experiment_branch("E1"), Some("kept-branch".to_string()));
}

#[test]
fn refresh_keeps_drops_and_adds() {
    let mut data = stored();
    data.bucket_no = 42;
    data.enrolled_experiments.push(EnrolledExperiment::new("gone".to_string(), "x".to_string()));
    let mut e = Experiments::from_persisted(context(), data);
    let catalog = vec![
        experiment("E1", 0, 100, &["control", "treatment"]),
        experiment("E3", 40, 5, &["p", "q", "r"]),
        experiment("E4", 43, 5, &["p"]),
    ];
    e.refresh(catalog);
    assert_eq!(e.get_bucket(), 42);
    assert_eq!(
        enrolled_pairs(&e),
        vec![
            ("E1".to_string(), "kept-branch".to_string()),
            ("E3".to_string(), expected_branch(42, &["p", "q", "r"])),
        ]
    );
    assert_eq!(e.get_experiments().len(), 3);
}

#[test]
fn refresh_drops_no_longer_eligible() {
    let mut data = stored();
    data.bucket_no = 4321;
    let mut e = Experiments::from_persisted(context(), data);
    e.refresh(vec![experiment("E1", 0, 100, &["control", "treatment"])]);
    assert!(e.get_enrolled_experiments().is_empty());
    assert!(e.get_experiment_branch("E1").is_err());
}
