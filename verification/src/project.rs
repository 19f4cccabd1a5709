//! Project records and the defaults a creation request receives.

use vstd::prelude::*;

verus! {

/// Which events of a project's agents raise a notification.
#[derive(Clone, Copy, Debug, PartialEq, Eq, Structural)]
pub struct NotificationPrefs {
    pub blocked: bool,
    pub error: bool,
    pub finished: bool,
    pub progress: bool,
}

impl core::default::Default for NotificationPrefs {
    /// Everything but progress chatter is on by default.
    fn default() -> (r: Self)
        ensures
            r.blocked,
            r.error,
            r.finished,
            !r.progress,
    {
        NotificationPrefs { blocked: true, error: true, finished: true, progress: false }
    }
}

/// A project owning environments and ideas.
pub struct Project {
    pub id: String,
    pub name: String,
    pub repo_url: String,
    pub default_branch: String,
    pub notification_prefs: NotificationPrefs,
    pub project_type: String,
    pub created_at: String,
}

/// The shape of a project-creation request; missing fields take the
/// documented defaults.
pub struct CreateProject {
    pub name: String,
    pub repo_url: String,
    pub default_branch: Option<String>,
    pub notification_prefs: Option<NotificationPrefs>,
    pub project_type: Option<String>,
}

/// Build the record a creation request persists: fresh id, creation stamp,
/// branch `main`, default notification preferences and a `standard` type
/// where the request says nothing.
pub fn new_project(input: CreateProject) -> (r: Project)
    ensures
        r.name@ == input.name@,
        r.repo_url@ == input.repo_url@,
        r.default_branch@ == (match input.default_branch {
            Some(b) => b@,
            None => "main"@,
        }),
        match input.notification_prefs {
            Some(p) => r.notification_prefs == p,
            None => r.notification_prefs.blocked && r.notification_prefs.error
                && r.notification_prefs.finished && !r.notification_prefs.progress,
        },
        r.project_type@ == (match input.project_type {
            Some(t) => t@,
            None => "standard"@,
        }),
        r.id@.len() == 36,
        r.created_at@.len() > 0,
{
    Project {
        id: crate::host::fresh_uuid(),
        name: input.name,
        repo_url: input.repo_url,
        default_branch: match input.default_branch {
            Some(b) => b,
            None => String::from_str("main"),
        },
        notification_prefs: match input.notification_prefs {
            Some(p) => p,
            None => NotificationPrefs { blocked: true, error: true, finished: true, progress: false },
        },
        project_type: match input.project_type {
            Some(t) => t,
            None => String::from_str("standard"),
        },
        created_at: crate::host::now_rfc3339(),
    }
}

} // verus!
