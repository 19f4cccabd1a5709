//! Idea records, their creation defaults, and the graduation rule.

use vstd::prelude::*;

use crate::project::{CreateProject, Project};

verus! {

/// An idea tracked inside a project.
pub struct Idea {
    pub id: String,
    pub project_id: String,
    pub title: String,
    pub description: String,
    pub status: String,
    pub created_at: String,
    pub updated_at: String,
}

/// The shape of an idea-creation request; a missing description is empty.
pub struct CreateIdea {
    pub project_id: String,
    pub title: String,
    pub description: Option<String>,
}

/// Build the record an idea-creation request persists: fresh id, both
/// stamps equal, status `draft`, and an empty description where the
/// request has none.
pub fn new_idea(input: CreateIdea) -> (r: Idea)
    ensures
        r.project_id@ == input.project_id@,
        r.title@ == input.title@,
        r.description@ == (match input.description {
            Some(d) => d@,
            None => Seq::<char>::empty(),
        }),
        r.status@ == "draft"@,
        r.id@.len() == 36,
        r.created_at@ == r.updated_at@,
        r.created_at@.len() > 0,
{
    let now = crate::host::now_rfc3339();
    Idea {
        id: crate::host::fresh_uuid(),
        project_id: input.project_id,
        title: input.title,
        description: match input.description {
            Some(d) => d,
            None => String::new(),
        },
        status: String::from_str("draft"),
        created_at: now.clone(),
        updated_at: now,
    }
}

/// The body of a graduation request: what the successor project is called.
pub struct GraduateInput {
    pub name: String,
    pub repo_url: String,
}

/// The graduation rule: an idea may graduate only out of an `incubator`
/// project, and the successor is a `standard` project inheriting the
/// incubator's default branch, with default notification preferences.
pub fn plan_graduation(source: &Project, input: GraduateInput) -> (r: Option<CreateProject>)
    ensures
        match r {
            Some(cp) => {
                &&& source.project_type@ == "incubator"@
                &&& cp.name@ == input.name@
                &&& cp.repo_url@ == input.repo_url@
                &&& cp.default_branch matches Some(b) && b@ == source.default_branch@
                &&& cp.notification_prefs matches None
                &&& cp.project_type matches Some(t) && t@ == "standard"@
            },
            None => source.project_type@ != "incubator"@,
        },
{
    let incubator = String::from_str("incubator");
    if source.project_type == incubator {
        Some(
            CreateProject {
                name: input.name,
                repo_url: input.repo_url,
                default_branch: Some(source.default_branch.clone()),
                notification_prefs: None,
                project_type: Some(String::from_str("standard")),
            },
        )
    } else {
        None
    }
}

} // verus!
