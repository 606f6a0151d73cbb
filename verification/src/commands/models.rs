//! The records the desktop commands exchange with the interface.
use vstd::prelude::*;

verus! {

#[derive(Debug, Clone, PartialEq)]
pub struct OfflinePartialAvailability {
    pub available_count: i64,
    pub total_count: i64,
    pub limit_reason: String,
}

#[derive(Debug, Clone, PartialEq)]
pub struct OfflineKindAvailability {
    pub kind: String,
    pub enabled: bool,
    pub size_bytes: i64,
    pub partial: Option<OfflinePartialAvailability>,
}

#[derive(Debug, Clone, PartialEq)]
pub struct WorkspaceActivityEvent {
    pub id: String,
    pub workspace_id: String,
    pub occurred_at: String,
    pub summary: String,
}

#[derive(Debug, Clone, PartialEq)]
pub struct CreateWorkspaceInput {
    pub subject: String,
    pub goal_text: String,
}

#[derive(Debug, Clone, PartialEq)]
pub struct GoalInferredStructure {
    pub deadline: Option<String>,
    pub mastery_type: Option<String>,
    pub concept_scope: Option<i64>,
    pub pacing: Option<String>,
    pub tools: Option<Vec<String>>,
}

#[derive(Debug, Clone, PartialEq)]
pub struct Goal {
    pub id: String,
    pub workspace_id: String,
    pub text: String,
    pub state: String,
    pub inferred: GoalInferredStructure,
    pub previous_text: Option<String>,
    pub achieved_summary: Option<String>,
    pub created_at: String,
    pub updated_at: String,
}

#[derive(Debug, Clone, PartialEq)]
pub struct ConceptDiagnostic {
    pub id: String,
    pub expression: String,
    pub diagnostic_type: String,
    pub note: String,
    pub occurred_at: String,
}

#[derive(Debug, Clone, PartialEq)]
pub struct Concept {
    pub id: String,
    pub workspace_id: String,
    pub name: String,
    pub chapter: String,
    pub mastery_state: String,
    pub was_mastery_state: Option<String>,
    pub decayed_at: Option<String>,
    pub meaning: String,
    pub due_for_review_in_days: Option<i64>,
    pub on_exam: bool,
    pub blocks_concept_ids: Vec<String>,
    pub prerequisite_concept_ids: Vec<String>,
    pub related_concept_ids: Vec<String>,
    pub leads_to_concept_ids: Vec<String>,
    pub display_formula: Option<String>,
    pub explanation: Option<String>,
    pub learner_heuristic: Option<String>,
    pub heuristic_evidence: Option<String>,
    pub where_it_shows_up: Option<Vec<String>>,
    pub recent_diagnostics: Option<Vec<ConceptDiagnostic>>,
    pub last_activity_at: Option<String>,
    pub notes_count: i64,
}

#[derive(Debug, Clone, PartialEq)]
pub struct Module {
    pub id: String,
    pub name: String,
    pub icon: String,
    pub trust: Option<String>,
    pub trust_detail: Option<String>,
    pub last_updated_label: Option<String>,
    pub learner_count_label: Option<String>,
    pub developer: String,
    pub price: Option<String>,
    pub description: String,
    pub learning_value_detail: Option<String>,
    pub context_seen: String,
    pub offline_status: String,
    pub supported_concept_names: Option<Vec<String>>,
    pub works_with_module_ids: Option<Vec<String>>,
    pub suits: Option<Vec<String>>,
    pub privacy_notes: Option<Vec<String>>,
    pub enabled: bool,
    pub visibility: String,
}

#[derive(Debug, Clone, PartialEq)]
pub struct WorkspaceTemplate {
    pub id: String,
    pub name: String,
    pub description: String,
    pub tool_count: i64,
}

#[derive(Debug, Clone, PartialEq)]
pub struct SessionIntent {
    pub activity: String,
    pub detail: Option<String>,
    pub target_minutes: Option<i64>,
}

#[derive(Debug, Clone, PartialEq)]
pub struct TutorExchange {
    pub id: String,
    pub question: String,
    pub answer: String,
    pub occurred_at: String,
    pub pinned_to_visualization: bool,
}

#[derive(Debug, Clone, PartialEq)]
pub struct Session {
    pub id: String,
    pub workspace_id: String,
    pub concept_id: String,
    pub status: String,
    pub intent: SessionIntent,
    pub resume_summary: String,
    pub thumbnail_url: Option<String>,
    pub elapsed_minutes: i64,
    pub problem_index: Option<i64>,
    pub problem_count: Option<i64>,
    pub exchanges: Vec<TutorExchange>,
    pub settled_conclusions: Vec<String>,
    pub open_question: Option<String>,
    pub started_at: String,
    pub paused_at: Option<String>,
}

#[derive(Debug, Clone, PartialEq)]
pub struct StartSessionInput {
    pub workspace_id: String,
    pub concept_id: String,
    pub intent: SessionIntent,
}

#[derive(Debug, Clone, PartialEq)]
pub struct ChapterSegment {
    pub label: String,
    pub status: String,
    pub detail: Option<String>,
}

#[derive(Debug, Clone, PartialEq)]
pub struct Material {
    pub id: String,
    pub workspace_id: String,
    pub title: String,
    pub edition: String,
    pub total_pages: i64,
    pub total_chapters: i64,
    pub segments: Vec<ChapterSegment>,
    pub highlights_count: i64,
    pub notes_count: i64,
    pub most_marked_sections: Vec<String>,
}

#[derive(Debug, Clone, PartialEq)]
pub struct MaterialResult {
    pub id: String,
    pub kind: String,
    pub page: i64,
    pub title: String,
    pub reason: String,
    pub concept_id: String,
    pub in_syllabus: bool,
    pub highlighted_at: Option<String>,
    pub exercise_total: Option<i64>,
    pub exercise_attempted: Option<i64>,
}

#[derive(Debug, Clone, PartialEq)]
pub struct Note {
    pub id: String,
    pub workspace_id: String,
    pub concept_id: String,
    pub text: String,
    pub updated_at: String,
}

} // verus!
