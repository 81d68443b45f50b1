//! Placing a flat topic text in the hierarchy by its wording.

use crate::pieces::{replace, replace_all};
use crate::text::{contains, from_chars, has_str, lower, lowercase, to_chars, trim, trimmed};
use vstd::prelude::*;

verus! {

/// A place in the hierarchy suggested for a flat topic text.
#[derive(Debug)]
pub struct HierarchySuggestion {
    pub workspace: String,
    pub project: String,
    pub area: String,
    pub topic: String,
    pub rationale: Option<String>,
}

/// The value of a [`HierarchySuggestion`].
pub struct HierarchySuggestionView {
    pub workspace: Seq<char>,
    pub project: Seq<char>,
    pub area: Seq<char>,
    pub topic: Seq<char>,
    pub rationale: Option<Seq<char>>,
}

impl View for HierarchySuggestion {
    type V = HierarchySuggestionView;

    open spec fn view(&self) -> HierarchySuggestionView {
        HierarchySuggestionView {
            workspace: self.workspace@,
            project: self.project@,
            area: self.area@,
            topic: self.topic@,
            rationale: crate::dup::opt_view(self.rationale),
        }
    }
}

/// Counters of a migration run.
#[derive(Debug, Clone, Copy, Default)]
pub struct MigrationStats {
    pub total_topics: usize,
    pub total_memories: usize,
    pub workspaces_created: usize,
    pub projects_created: usize,
    pub areas_created: usize,
    pub topics_created: usize,
    pub memories_updated: usize,
}

/// The workspace of a suggestion that names none.
pub fn default_workspace() -> (r: String)
    ensures
        r@ == "General"@,
{
    "General".to_owned()
}

/// The project of a suggestion that names none.
pub fn default_project() -> (r: String)
    ensures
        r@ == "Miscellaneous"@,
{
    "Miscellaneous".to_owned()
}

/// The area of a suggestion that names none.
pub fn default_area() -> (r: String)
    ensures
        r@ == "General"@,
{
    "General".to_owned()
}

/// The topic of a suggestion that names none.
pub fn default_topic() -> (r: String)
    ensures
        r@ == "Uncategorized"@,
{
    "Uncategorized".to_owned()
}

/// The workspace that the wording of a lowercase topic points to.
pub open spec fn suggested_workspace(low: Seq<char>) -> Seq<char> {
    if contains(low, "work"@) || contains(low, "project"@) || contains(low, "code"@) || contains(
        low,
        "development"@,
    ) {
        "Work"@
    } else if contains(low, "learn"@) || contains(low, "study"@) || contains(low, "research"@) {
        "Learning"@
    } else if contains(low, "personal"@) || contains(low, "health"@) || contains(low, "home"@) {
        "Personal"@
    } else {
        "General"@
    }
}

/// The project that the wording of a lowercase topic points to.
pub open spec fn suggested_project(low: Seq<char>) -> Seq<char> {
    if contains(low, "memory"@) || contains(low, "amem"@) {
        "Memory Layer"@
    } else if contains(low, "water"@) || contains(low, "hydration"@) {
        "WaterBuddy"@
    } else if contains(low, "linkedin"@) || contains(low, "radar"@) {
        "Social Radar"@
    } else {
        "Miscellaneous"@
    }
}

/// The area that the wording of a lowercase topic points to.
pub open spec fn suggested_area(low: Seq<char>) -> Seq<char> {
    if contains(low, "database"@) || contains(low, "schema"@) || contains(low, "sql"@) {
        "Database"@
    } else if contains(low, "api"@) || contains(low, "endpoint"@) {
        "API"@
    } else if contains(low, "ui"@) || contains(low, "interface"@) {
        "User Interface"@
    } else if contains(low, "swift"@) || contains(low, "ios"@) {
        "iOS Development"@
    } else {
        "General"@
    }
}

/// The topic text without the prefixes that name a workspace, trimmed; the
/// text itself where nothing is left.
pub open spec fn suggested_topic(flat: Seq<char>) -> Seq<char> {
    let cleaned = trim(
        replace(
            replace(replace(flat, "Work:"@, Seq::empty()), "Personal:"@, Seq::empty()),
            "Learning:"@,
            Seq::empty(),
        ),
    );
    if cleaned.len() == 0 {
        flat
    } else {
        cleaned
    }
}

/// The place that the wording of a flat topic text suggests.
pub open spec fn suggestion(flat: Seq<char>) -> HierarchySuggestionView {
    HierarchySuggestionView {
        workspace: suggested_workspace(lowercase(flat)),
        project: suggested_project(lowercase(flat)),
        area: suggested_area(lowercase(flat)),
        topic: suggested_topic(flat),
        rationale: Some("Heuristic-based classification"@),
    }
}

/// Suggests a place in the hierarchy for a flat topic text from the words it
/// holds.
pub fn suggest_hierarchy_heuristic(flat_topic: &str) -> (r: HierarchySuggestion)
    ensures
        r@ == suggestion(flat_topic@),
{
    proof {
        reveal_strlit("Work:");
        reveal_strlit("Personal:");
        reveal_strlit("Learning:");
        reveal_strlit("");
    }
    let flat = to_chars(flat_topic);
    let low = lower(&flat);
    let workspace = if has_str(&low, "work") || has_str(&low, "project") || has_str(&low, "code")
        || has_str(&low, "development") {
        "Work"
    } else if has_str(&low, "learn") || has_str(&low, "study") || has_str(&low, "research") {
        "Learning"
    } else if has_str(&low, "personal") || has_str(&low, "health") || has_str(&low, "home") {
        "Personal"
    } else {
        "General"
    };
    let project = if has_str(&low, "memory") || has_str(&low, "amem") {
        "Memory Layer"
    } else if has_str(&low, "water") || has_str(&low, "hydration") {
        "WaterBuddy"
    } else if has_str(&low, "linkedin") || has_str(&low, "radar") {
        "Social Radar"
    } else {
        "Miscellaneous"
    };
    let area = if has_str(&low, "database") || has_str(&low, "schema") || has_str(&low, "sql") {
        "Database"
    } else if has_str(&low, "api") || has_str(&low, "endpoint") {
        "API"
    } else if has_str(&low, "ui") || has_str(&low, "interface") {
        "User Interface"
    } else if has_str(&low, "swift") || has_str(&low, "ios") {
        "iOS Development"
    } else {
        "General"
    };
    let a = replace_all(&flat, "Work:", "");
    let b = replace_all(&a, "Personal:", "");
    let c = replace_all(&b, "Learning:", "");
    let cleaned = trimmed(&c);
    assert(""@ =~= Seq::<char>::empty());
    let topic = if cleaned.len() == 0 {
        flat_topic.to_owned()
    } else {
        from_chars(&cleaned)
    };
    HierarchySuggestion {
        workspace: workspace.to_owned(),
        project: project.to_owned(),
        area: area.to_owned(),
        topic,
        rationale: Some("Heuristic-based classification".to_owned()),
    }
}

} // verus!
