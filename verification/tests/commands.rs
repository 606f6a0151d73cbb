use axiom_core::commands::goal::{reverted_goal_text, updated_goal_text, GoalText};
use axiom_core::commands::models::{Concept, Material, MaterialResult, Module};
use axiom_core::commands::module::{in_workspace, visibility_enables};
use axiom_core::commands::rows::{optional_list, partial_availability};
use axiom_core::commands::search::{search_concepts, search_material_results, text_contains, words_vec};
use axiom_core::commands::seed::{check_sample_workspace, material_for_result, sample_module_index};
use axiom_core::commands::session::{
    check_mutable, counter_can_advance, needs_new_attempt, new_session_index, next_problem_binding,
    reopened_binding, resume_summary, AttemptBinding,
};

fn goal(text: &str, previous: Option<&str>) -> GoalText {
    GoalText {
        text: text.to_owned(),
        previous_text: previous.map(str::to_owned),
    }
}

#[test]
fn goal_handlers_preserve_previous_text_and_revert() {
    let updated = updated_goal_text("goal-1", Some(goal("Pass calculus", None)), "  Ace the final  ").unwrap();
    assert_eq!(updated, goal("Ace the final", Some("Pass calculus")));
    let reverted = reverted_goal_text("goal-1", Some(updated)).unwrap();
    assert_eq!(reverted, goal("Pass calculus", Some("Ace the final")));
    let again = reverted_goal_text("goal-1", Some(reverted)).unwrap();
    assert_eq!(again, goal("Ace the final", Some("Pass calculus")));
}

#[test]
fn goal_errors_name_the_goal() {
    assert_eq!(
        updated_goal_text("goal-9", None, "x"),
        Err("Goal not found: goal-9".to_owned())
    );
    assert_eq!(reverted_goal_text("goal-9", None), Err("Goal not found: goal-9".to_owned()));
    assert_eq!(
        reverted_goal_text("goal-1", Some(goal("Only text", None))),
        Err("Goal has no previous text: goal-1".to_owned())
    );
}

#[test]
fn completed_or_missing_sessions_cannot_change() {
    assert_eq!(check_mutable("s-1", None), Err("Session not found: s-1".to_owned()));
    assert_eq!(
        check_mutable("s-1", Some("completed")),
        Err("Session is completed: s-1".to_owned())
    );
    assert_eq!(check_mutable("s-1", Some("paused")), Ok(()));
    assert_eq!(check_mutable("s-1", Some("active")), Ok(()));
}

fn binding(attempt: Option<&str>, index: Option<i64>) -> AttemptBinding {
    AttemptBinding {
        attempt_id: attempt.map(str::to_owned),
        problem_index: index,
    }
}

#[test]
fn start_session_reuses_an_open_session_and_its_attempt() {
    let current = Some("attempt-1".to_owned());
    assert!(!needs_new_attempt(&current, false));
    assert_eq!(
        reopened_binding(current, Some(1), false, None),
        binding(Some("attempt-1"), Some(1))
    );
}

#[test]
fn start_session_rebinds_a_solved_attempt_on_the_same_session() {
    let current = Some("attempt-1".to_owned());
    assert!(needs_new_attempt(&current, true));
    assert_eq!(
        reopened_binding(current.clone(), Some(1), true, Some("attempt-2".to_owned())),
        binding(Some("attempt-2"), Some(2))
    );
    assert_eq!(reopened_binding(current, Some(1), true, None), binding(None, Some(1)));
    assert!(needs_new_attempt(&None, false));
    assert_eq!(
        reopened_binding(None, None, true, Some("attempt-3".to_owned())),
        binding(Some("attempt-3"), Some(1))
    );
}

#[test]
fn next_problem_rebinds_the_session_and_advances_the_counter() {
    assert_eq!(
        next_problem_binding(Some("a-1".to_owned()), Some(3), Some("a-2".to_owned())),
        binding(Some("a-2"), Some(4))
    );
    assert_eq!(
        next_problem_binding(None, None, Some("a-2".to_owned())),
        binding(Some("a-2"), Some(2))
    );
}

#[test]
fn next_problem_leaves_the_counter_alone_when_practice_is_unavailable() {
    assert_eq!(
        next_problem_binding(Some("a-1".to_owned()), Some(3), None),
        binding(Some("a-1"), Some(3))
    );
}

#[test]
fn new_sessions_count_a_bound_attempt_as_problem_one() {
    assert_eq!(new_session_index(&Some("a".to_owned())), Some(1));
    assert_eq!(new_session_index(&None), None);
    assert_eq!(resume_summary("Shells"), "Ready to continue with Shells.");
    assert!(counter_can_advance(None));
    assert!(counter_can_advance(Some(5)));
    assert!(!counter_can_advance(Some(i64::MAX)));
}

fn concept(id: &str, name: &str, chapter: &str) -> Concept {
    Concept {
        id: id.to_owned(),
        workspace_id: "ws".to_owned(),
        name: name.to_owned(),
        chapter: chapter.to_owned(),
        mastery_state: "new".to_owned(),
        was_mastery_state: None,
        decayed_at: None,
        meaning: "m".to_owned(),
        due_for_review_in_days: None,
        on_exam: false,
        blocks_concept_ids: vec![],
        prerequisite_concept_ids: vec![],
        related_concept_ids: vec![],
        leads_to_concept_ids: vec![],
        display_formula: None,
        explanation: None,
        learner_heuristic: None,
        heuristic_evidence: None,
        where_it_shows_up: None,
        recent_diagnostics: None,
        last_activity_at: None,
        notes_count: 0,
    }
}

#[test]
fn concept_search_matches_case_insensitively_in_order() {
    let mut shells = concept("c-1", "Cylindrical Shells", "Volumes");
    shells.where_it_shows_up = Some(vec!["Rotating REGIONS".to_owned()]);
    let mut series = concept("c-2", "Series", "Sequences");
    series.explanation = Some("Sums of shells of terms".to_owned());
    let limits = concept("c-3", "Limits", "Foundations");
    let all = vec![shells, series, limits];

    let found = search_concepts(all.clone(), "  SHELLS ");
    assert_eq!(found.iter().map(|c| c.id.as_str()).collect::<Vec<_>>(), vec!["c-1", "c-2"]);
    let found = search_concepts(all.clone(), "regions");
    assert_eq!(found.iter().map(|c| c.id.as_str()).collect::<Vec<_>>(), vec!["c-1"]);
    assert_eq!(search_concepts(all.clone(), "   ").len(), 3);
    assert!(search_concepts(all, "integrals").is_empty());
}

fn result(id: &str, title: &str, reason: &str) -> MaterialResult {
    MaterialResult {
        id: id.to_owned(),
        kind: "section".to_owned(),
        page: 1,
        title: title.to_owned(),
        reason: reason.to_owned(),
        concept_id: "c-1".to_owned(),
        in_syllabus: true,
        highlighted_at: None,
        exercise_total: None,
        exercise_attempted: None,
    }
}

#[test]
fn material_search_requires_every_term() {
    let results = vec![
        result("r-1", "Shell Method", "volumes of revolution"),
        result("r-2", "Disk Method", "volumes"),
        result("r-3", "Series", "convergence"),
    ];
    let found = search_material_results(results.clone(), "VOLUMES  shell");
    assert_eq!(found.iter().map(|r| r.id.as_str()).collect::<Vec<_>>(), vec!["r-1"]);
    let found = search_material_results(results.clone(), "method volumes");
    assert_eq!(found.iter().map(|r| r.id.as_str()).collect::<Vec<_>>(), vec!["r-1", "r-2"]);
    assert_eq!(search_material_results(results.clone(), "").len(), 3);
    // the title and reason are joined by one space
    let found = search_material_results(results, "method volumes of");
    assert_eq!(found.iter().map(|r| r.id.as_str()).collect::<Vec<_>>(), vec!["r-1"]);
}

#[test]
fn words_split_on_runs_of_whitespace() {
    let text: Vec<char> = "  a bc\t\n d  ".chars().collect();
    let words: Vec<String> = words_vec(&text).into_iter().map(|w| w.into_iter().collect()).collect();
    assert_eq!(words, vec!["a", "bc", "d"]);
    assert!(words_vec(&Vec::new()).is_empty());
    let hay: Vec<char> = "abcabd".chars().collect();
    assert!(text_contains(&hay, &"abd".chars().collect()));
    assert!(!text_contains(&hay, &"abe".chars().collect()));
    assert!(text_contains(&hay, &Vec::new()));
}

fn module(id: &str, visibility: &str) -> Module {
    Module {
        id: id.to_owned(),
        name: id.to_owned(),
        icon: "i".to_owned(),
        trust: None,
        trust_detail: None,
        last_updated_label: None,
        learner_count_label: None,
        developer: "d".to_owned(),
        price: None,
        description: "d".to_owned(),
        learning_value_detail: None,
        context_seen: "c".to_owned(),
        offline_status: "o".to_owned(),
        supported_concept_names: None,
        works_with_module_ids: None,
        suits: None,
        privacy_notes: None,
        enabled: true,
        visibility: visibility.to_owned(),
    }
}

#[test]
fn module_state_in_a_workspace() {
    let seen = in_workspace(module("m-1", "full"), Some((true, "minimal".to_owned())));
    assert!(seen.enabled);
    assert_eq!(seen.visibility, "minimal");
    let unseen = in_workspace(module("m-1", "full"), None);
    assert!(!unseen.enabled);
    assert_eq!(unseen.visibility, "full");
    assert!(!visibility_enables("off"));
    assert!(visibility_enables("full"));
}

#[test]
fn list_columns_and_partial_availability() {
    assert_eq!(optional_list(Vec::<String>::new()), None);
    assert_eq!(optional_list(vec![1, 2]), Some(vec![1, 2]));
    let partial = partial_availability(Some(2), Some(5), Some("size".to_owned())).unwrap();
    assert_eq!(partial.available_count, 2);
    assert_eq!(partial.total_count, 5);
    assert_eq!(partial.limit_reason, "size");
    assert!(partial_availability(Some(2), None, Some("size".to_owned())).is_none());
}

fn material(id: &str, workspace_id: &str) -> Material {
    Material {
        id: id.to_owned(),
        workspace_id: workspace_id.to_owned(),
        title: "t".to_owned(),
        edition: "e".to_owned(),
        total_pages: 1,
        total_chapters: 1,
        segments: vec![],
        highlights_count: 0,
        notes_count: 0,
        most_marked_sections: vec![],
    }
}

#[test]
fn seed_lookups_find_modules_and_materials() {
    assert_eq!(
        check_sample_workspace(&vec!["ws-a".to_owned(), "ws-b".to_owned()], "ws-b"),
        Ok(())
    );
    assert_eq!(
        check_sample_workspace(&vec!["ws-a".to_owned()], "ws-z"),
        Err("Sample workspace not found in seed: ws-z".to_owned())
    );
    let modules = vec![module("m-1", "full"), module("m-2", "off"), module("m-2", "full")];
    assert_eq!(sample_module_index(&modules, "m-2"), Ok(1));
    assert_eq!(
        sample_module_index(&modules, "m-3"),
        Err("Sample module not found: m-3".to_owned())
    );
    let mut c1 = concept("c-1", "A", "1");
    c1.workspace_id = "ws-a".to_owned();
    let mut c2 = concept("c-2", "B", "2");
    c2.workspace_id = "ws-b".to_owned();
    let concepts = vec![c1, c2];
    let materials = vec![material("mat-1", "ws-a"), material("mat-2", "ws-a"), material("mat-3", "ws-c")];
    assert_eq!(material_for_result(&concepts, &materials, "c-1"), Ok(1));
    assert_eq!(
        material_for_result(&concepts, &materials, "c-2"),
        Err("Sample material not found for concept: c-2".to_owned())
    );
    assert_eq!(
        material_for_result(&concepts, &materials, "c-9"),
        Err("Sample concept not found: c-9".to_owned())
    );
}
