use axiom_core::capabilities::math_verify::{
    failed_check, symbolic_outcome, MathVerifyError, MathVerifyProvider, VerifyResult, CAPABILITY_ID,
    CAPABILITY_VERSION,
};
use axiom_core::knowledge::discover::{check_entity_entry, check_entity_id, split_file_name};
use axiom_core::knowledge::error::KnowledgeError;
use axiom_core::commands::practice::practice_error;
use axiom_core::db::schema::{pending_migrations, Migration, LATEST_SCHEMA_VERSION};
use axiom_core::graph::find_cycle;
use axiom_core::modules::identifier::CapabilityId;
use axiom_core::modules::registry::{InvocationError, RegistryError};
use axiom_core::version::Version;

#[test]
fn math_verify_accepts_only_its_own_capability_and_version() {
    let provider = MathVerifyProvider;
    let own = CapabilityId::new(CAPABILITY_ID).unwrap();
    assert_eq!(provider.check_call(&own, CAPABILITY_VERSION), Ok(()));
    assert_eq!(
        provider.check_call(&own, 2),
        Err(InvocationError::UnknownCapability {
            capability_id: own.clone(),
            version: 2,
        })
    );
    let other = CapabilityId::new("math.solve").unwrap();
    assert_eq!(
        provider.check_call(&other, 1),
        Err(InvocationError::UnknownCapability {
            capability_id: other,
            version: 1,
        })
    );
}

#[test]
fn missing_provider_maps_to_a_nonempty_command_error() {
    let message = practice_error(RegistryError::NoCompatibleProvider {
        capability_id: CapabilityId::new("practice.generate").unwrap(),
        min_version: 1,
    });
    assert_eq!(
        message,
        "no enabled module provides practice.generate at version 1 or newer"
    );
}

fn migration(version: i64) -> Migration {
    Migration {
        version,
        name: "m",
        sql: "",
    }
}

#[test]
fn pending_migrations_are_those_above_the_current_version_in_order() {
    let migrations = vec![migration(1), migration(2), migration(3)];
    assert_eq!(pending_migrations(&migrations, 0), vec![0, 1, 2]);
    assert_eq!(pending_migrations(&migrations, 1), vec![1, 2]);
    assert_eq!(pending_migrations(&migrations, 3), Vec::<usize>::new());
    assert_eq!(LATEST_SCHEMA_VERSION, 2);
}

#[test]
fn versions_compare_by_semantic_precedence() {
    let v1_9 = Version::parse("1.9.0").unwrap();
    let v1_10 = Version::parse("1.10.0").unwrap();
    assert!(v1_10.greater_than(&v1_9));
    assert!(!v1_9.greater_than(&v1_10));
    let alpha = Version::parse("1.0.0-alpha").unwrap();
    let release = Version::parse("1.0.0").unwrap();
    assert!(release.greater_than(&alpha));
    assert!(!release.greater_than(&release));
    assert!(Version::parse("v1.0.0").is_none());
    assert!(Version::parse("01.0.0").is_none());
    assert_eq!(release.as_str(), "1.0.0");
}

#[test]
fn cycle_search_finds_a_closed_walk_or_reports_none() {
    assert_eq!(find_cycle(&vec![vec![1], vec![2], vec![]]), None);
    let cycle = find_cycle(&vec![vec![1], vec![2], vec![0]]).unwrap();
    assert!(cycle.len() >= 2);
    assert_eq!(cycle.first(), cycle.last());
    let adj = vec![vec![1], vec![2], vec![0]];
    for pair in cycle.windows(2) {
        assert!(adj[pair[0]].contains(&pair[1]));
    }
    let self_loop = find_cycle(&vec![vec![], vec![1]]).unwrap();
    assert!(self_loop.len() >= 2 && self_loop.iter().all(|n| *n == 1));
}

#[test]
fn symbolic_outcomes_follow_what_the_evaluator_returned() {
    assert_eq!(
        symbolic_outcome("2*pi", Ok(()), Ok(true)).unwrap(),
        VerifyResult { is_correct: true, error: None }
    );
    assert_eq!(
        symbolic_outcome("2*pi", Ok(()), Err("parse error".to_owned())).unwrap(),
        VerifyResult { is_correct: false, error: Some("parse error".to_owned()) }
    );
    match symbolic_outcome("2*+pi", Err("parse error".to_owned()), Ok(true)) {
        Err(error @ MathVerifyError::UnparseableCanonicalSolution { .. }) => {
            assert_eq!(
                failed_check(error),
                InvocationError::Failed {
                    message: "canonical solution expression \"2*+pi\" could not be evaluated: parse error".to_owned()
                }
            );
        }
        other => panic!("unexpected result: {other:?}"),
    }
}

#[test]
fn entity_directory_entries_must_be_markdown_files_named_by_id() {
    assert!(check_entity_entry("concepts/shell.a.md", "shell.a.md", false).is_ok());
    assert!(matches!(
        check_entity_entry("concepts/nested", "nested", true),
        Err(KnowledgeError::NestedEntityDirectory { .. })
    ));
    assert!(matches!(
        check_entity_entry("concepts/shell.a.txt", "shell.a.txt", false),
        Err(KnowledgeError::UnexpectedEntityFile { .. })
    ));
    assert!(matches!(
        check_entity_entry("concepts/.md", ".md", false),
        Err(KnowledgeError::UnexpectedEntityFile { .. })
    ));
    assert!(check_entity_id("concepts/shell.a.md", "shell.a.md", "shell.a").is_ok());
    match check_entity_id("concepts/shell.a.md", "shell.a.md", "shell.b") {
        Err(KnowledgeError::FilenameIdMismatch { path, filename_id, frontmatter_id }) => {
            assert_eq!(path, "concepts/shell.a.md");
            assert_eq!(filename_id, "shell.a");
            assert_eq!(frontmatter_id, "shell.b");
        }
        other => panic!("unexpected result: {other:?}"),
    }
    assert_eq!(split_file_name("a.b.md"), ("a.b".to_owned(), Some("md".to_owned())));
    assert_eq!(split_file_name(".hidden"), (".hidden".to_owned(), None));
    assert_eq!(split_file_name("README"), ("README".to_owned(), None));
    assert_eq!(split_file_name(".."), ("..".to_owned(), None));
    assert_eq!(split_file_name("a."), ("a".to_owned(), Some("".to_owned())));
}
