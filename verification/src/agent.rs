//! Agent records and their creation defaults.

use vstd::prelude::*;

verus! {

/// A worker attached to an environment, optionally serving an idea.
pub struct Agent {
    pub id: String,
    pub env_id: String,
    pub agent_type: String,
    pub status: String,
    pub current_task: String,
    pub blocker: Option<String>,
    pub idea_id: Option<String>,
    pub started_at: String,
    pub last_activity: String,
}

/// The shape of an agent-creation request.
pub struct CreateAgent {
    pub env_id: String,
    pub agent_type: String,
    pub current_task: String,
    pub idea_id: Option<String>,
}

/// Build the record an agent-creation request persists: fresh id, both
/// stamps equal, status `running`, and no blocker.
pub fn new_agent(input: CreateAgent) -> (r: Agent)
    ensures
        r.env_id@ == input.env_id@,
        r.agent_type@ == input.agent_type@,
        r.current_task@ == input.current_task@,
        match input.idea_id {
            Some(i) => r.idea_id matches Some(ri) && ri@ == i@,
            None => r.idea_id matches None,
        },
        r.status@ == "running"@,
        r.blocker matches None,
        r.id@.len() == 36,
        r.started_at@ == r.last_activity@,
        r.started_at@.len() > 0,
{
    let now = crate::host::now_rfc3339();
    Agent {
        id: crate::host::fresh_uuid(),
        env_id: input.env_id,
        agent_type: input.agent_type,
        status: String::from_str("running"),
        current_task: input.current_task,
        blocker: None,
        idea_id: input.idea_id,
        started_at: now.clone(),
        last_activity: now,
    }
}

} // verus!
