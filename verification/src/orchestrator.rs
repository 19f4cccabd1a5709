//! The environment state machine: each lifecycle operation is split at its
//! container-runtime call. A `*_begin` function validates the transition
//! against the store and says which container the runtime must touch; the
//! matching `*_finish` function takes the runtime's outcome and commits or
//! rolls back the durable record. The caller owns the runtime call between
//! the two halves.

use vstd::prelude::*;

use crate::environment::{
    contains_id, find_idx, lemma_find_idx, lemma_find_idx_at, lemma_find_idx_none,
    lemma_find_idx_same_ids, pm_views, record_of, spec_used_ports, with_container, with_status,
    CreateEnvironment, EnvStatus, EnvStore, Environment, PortMapping, PortMappingView,
};
use crate::podman::{spec_allocate, ExecResult, PodmanConfig, PodmanError, PortError};

verus! {

/// Why a lifecycle operation was refused or failed.
#[derive(Debug)]
pub enum OrchError {
    /// No record carries the requested id.
    NotFound,
    /// The environment is in the named status, with which the requested
    /// transition is incompatible.
    Conflict(EnvStatus),
    /// The operation needs a backing container and the record names none.
    NoContainer,
    /// Port allocation failed; nothing was allocated.
    Port(PortError),
    /// The container runtime failed; the record reflects what really ran.
    Driver(PodmanError),
    /// The store contradicted itself mid-operation.
    Internal(String),
}

/// The request body of an in-container command execution.
pub struct ExecRequest {
    pub command: String,
}

/// What an in-container command execution answers.
pub struct ExecResponse {
    pub output: String,
    pub exit_code: i32,
}

/// First half of `create`: persist a fresh record in `Creating` (with no
/// ports yet — reservations only exist in resolved form), then resolve the
/// requested bindings against the ports the store currently claims. On an
/// allocation failure the fresh record is rolled back to `Destroyed` and
/// claims nothing.
pub fn begin_create(
    store: &mut EnvStore,
    config: &PodmanConfig,
    input: CreateEnvironment,
) -> (r: Result<(Environment, Vec<PortMapping>), OrchError>)
    requires
        old(store).wf(),
    ensures
        final(store).wf(),
        ({
            let reqv = match input.ports {
                Some(p) => pm_views(p@),
                None => Seq::<PortMappingView>::empty(),
            };
            let alloc = spec_allocate(
                config.port_range_start as int,
                config.port_range_end as int,
                spec_used_ports(old(store)@),
                reqv,
            );
            match r {
                Ok((env, resolved)) => {
                    &&& !contains_id(old(store)@, env@.id)
                    &&& env@.id.len() == 36
                    &&& env@.project_id == input.project_id@
                    &&& env@.branch == input.branch@
                    &&& env@.status == EnvStatus::Creating
                    &&& env@.container_id == (match input.container_id {
                        Some(c) => c@,
                        None => Seq::<char>::empty(),
                    })
                    &&& env@.ports.len() == 0
                    &&& final(store)@ == old(store)@.push(env@)
                    &&& alloc == Ok::<Seq<PortMappingView>, PortError>(pm_views(resolved@))
                    &&& spec_used_ports(final(store)@) == spec_used_ports(old(store)@)
                },
                Err(e) => match e {
                    OrchError::Internal(m) => {
                        &&& final(store)@ == old(store)@
                        &&& m@ == "failed to create environment"@
                        // An id collision is the only internal failure, and
                        // only a record with a 36-character id can collide:
                        // creation is owed wherever none exists.
                        &&& (exists|i: int|
                            0 <= i < old(store)@.len() && (#[trigger] old(store)@[i]).id.len()
                                == 36)
                    },
                    OrchError::Port(pe) => {
                        &&& alloc == Err::<Seq<PortMappingView>, PortError>(pe)
                        &&& final(store)@.len() == old(store)@.len() + 1
                        &&& (forall|k: int|
                            0 <= k < old(store)@.len() ==> (#[trigger] final(store)@[k]) == old(
                                store,
                            )@[k])
                        &&& final(store)@.last().status == EnvStatus::Destroyed
                        &&& final(store)@.last().ports.len() == 0
                        &&& spec_used_ports(final(store)@) == spec_used_ports(old(store)@)
                    },
                    _ => false,
                },
            }
        }),
{
    let CreateEnvironment { project_id, branch, container_id, ports } = input;
    let requested: Vec<PortMapping> = match ports {
        Some(p) => p,
        None => Vec::new(),
    };
    let created = store.create_environment(
        CreateEnvironment { project_id, branch, container_id, ports: None },
    );
    let env = match created {
        Some(env) => env,
        None => {
            return Err(OrchError::Internal(String::from_str("failed to create environment")));
        },
    };
    let ghost s0 = old(store)@;
    let ghost s1 = store@;
    proof {
        assert(s1.drop_last() =~= s0);
        assert(crate::environment::spec_ports_set(env@.ports) == Set::<u16>::empty());
        assert(spec_used_ports(s1) =~= spec_used_ports(s0).union(Set::<u16>::empty()));
        assert(spec_used_ports(s1) =~= spec_used_ports(s0));
    }
    let used = store.get_used_ports();
    match crate::podman::allocate_ports(config, &used, &requested) {
        Ok(resolved) => Ok((env, resolved)),
        Err(pe) => {
            proof {
                lemma_find_idx(s0, env@.id);
                lemma_find_idx_at(s1, env@.id, s0.len() as int);
            }
            let now = crate::host::now_rfc3339();
            store.update_environment_status(&env.id, EnvStatus::Destroyed, &now);
            proof {
                assert(store@.drop_last() =~= s0);
                assert(store@.last().ports =~= env@.ports);
                assert(crate::environment::spec_ports_set(store@.last().ports)
                    == Set::<u16>::empty());
                assert(spec_used_ports(store@) =~= spec_used_ports(s0));
            }
            Err(OrchError::Port(pe))
        },
    }
}

/// Second half of `create`: with the runtime's answer in hand, either
/// commit the container id, the resolved ports and `Running`, or roll the
/// record back to `Destroyed` and report the runtime's failure unchanged.
pub fn finish_create(
    store: &mut EnvStore,
    id: &String,
    ports: &Vec<PortMapping>,
    created: Result<String, PodmanError>,
) -> (r: Result<Environment, OrchError>)
    requires
        old(store).wf(),
    ensures
        final(store).wf(),
        match created {
            Ok(cid) => match r {
                Ok(env) => {
                    &&& contains_id(old(store)@, id@)
                    &&& final(store)@ == with_container(
                        old(store)@,
                        find_idx(old(store)@, id@),
                        cid@,
                        pm_views(ports@),
                        EnvStatus::Running,
                        env@.last_active,
                    )
                    &&& env@ == record_of(final(store)@, id@)
                    &&& env@.container_id == cid@
                    &&& env@.ports == pm_views(ports@)
                    &&& env@.status == EnvStatus::Running
                },
                Err(e) => {
                    &&& e matches OrchError::Internal(_)
                    &&& !contains_id(old(store)@, id@)
                    &&& final(store)@ == old(store)@
                },
            },
            Err(de) => match r {
                Ok(_) => false,
                Err(e) => {
                    &&& e == OrchError::Driver(de)
                    &&& (contains_id(old(store)@, id@) ==> final(store)@ == with_status(
                        old(store)@,
                        find_idx(old(store)@, id@),
                        EnvStatus::Destroyed,
                        final(store)@[find_idx(old(store)@, id@)].last_active,
                    ))
                    &&& (!contains_id(old(store)@, id@) ==> final(store)@ == old(store)@)
                },
            },
        },
{
    match created {
        Ok(cid) => {
            let now = crate::host::now_rfc3339();
            let ghost s0 = store@;
            let updated = store.update_environment_container(
                id,
                &cid,
                ports,
                EnvStatus::Running,
                &now,
            );
            if !updated {
                return Err(
                    OrchError::Internal(
                        String::from_str("environment not found after creation"),
                    ),
                );
            }
            proof {
                lemma_find_idx(s0, id@);
                assert forall|k: int| 0 <= k < s0.len() implies (#[trigger] store@[k]).id
                    == s0[k].id by {}
                lemma_find_idx_same_ids(store@, s0, id@);
            }
            match store.get_environment(id) {
                Some(env) => Ok(env),
                None => Err(
                    OrchError::Internal(
                        String::from_str("environment not found after creation"),
                    ),
                ),
            }
        },
        Err(de) => {
            let now = crate::host::now_rfc3339();
            let ghost s0 = store@;
            store.update_environment_status(id, EnvStatus::Destroyed, &now);
            proof {
                lemma_find_idx(s0, id@);
                if contains_id(s0, id@) {
                    let i = find_idx(s0, id@);
                    assert(store@[i].last_active == now@);
                    assert(store@ =~= with_status(s0, i, EnvStatus::Destroyed, store@[i].last_active));
                }
            }
            Err(OrchError::Driver(de))
        },
    }
}

/// First half of `pause`: only a `Running` environment may pause; nothing is
/// changed here. The answer names the container to stop, if the record has
/// one.
pub fn begin_pause(store: &EnvStore, id: &String) -> (r: Result<Option<String>, OrchError>)
    ensures
        match r {
            Ok(cid) => {
                &&& contains_id(store@, id@)
                &&& record_of(store@, id@).status == EnvStatus::Running
                &&& match cid {
                    Some(c) => c@ == record_of(store@, id@).container_id && c@.len() > 0,
                    None => record_of(store@, id@).container_id.len() == 0,
                }
            },
            Err(e) => match e {
                OrchError::NotFound => !contains_id(store@, id@),
                OrchError::Conflict(st) => contains_id(store@, id@) && record_of(store@, id@).status
                    == st && st != EnvStatus::Running,
                _ => false,
            },
        },
{
    let env = match store.get_environment(id) {
        Some(env) => env,
        None => {
            return Err(OrchError::NotFound);
        },
    };
    if !matches!(env.status, EnvStatus::Running) {
        return Err(OrchError::Conflict(env.status));
    }
    if env.container_id.as_str().is_empty() {
        Ok(None)
    } else {
        Ok(Some(env.container_id))
    }
}

/// Second half of `pause`: persist `Paused` only when the runtime really
/// stopped the container; a runtime failure leaves the record untouched.
pub fn finish_pause(store: &mut EnvStore, id: &String, stopped: Result<(), PodmanError>) -> (r:
    Result<(), OrchError>)
    requires
        old(store).wf(),
    ensures
        final(store).wf(),
        match stopped {
            Ok(u) => {
                &&& r == Ok::<(), OrchError>(())
                &&& (contains_id(old(store)@, id@) ==> final(store)@ == with_status(
                    old(store)@,
                    find_idx(old(store)@, id@),
                    EnvStatus::Paused,
                    final(store)@[find_idx(old(store)@, id@)].last_active,
                ))
                &&& (!contains_id(old(store)@, id@) ==> final(store)@ == old(store)@)
            },
            Err(de) => {
                &&& r == Err::<(), OrchError>(OrchError::Driver(de))
                &&& final(store)@ == old(store)@
            },
        },
{
    match stopped {
        Ok(_) => {
            let now = crate::host::now_rfc3339();
            let ghost s0 = store@;
            store.update_environment_status(id, EnvStatus::Paused, &now);
            proof {
                lemma_find_idx(s0, id@);
                if contains_id(s0, id@) {
                    let i = find_idx(s0, id@);
                    assert(store@[i].last_active == now@);
                    assert(store@ =~= with_status(s0, i, EnvStatus::Paused, store@[i].last_active));
                }
            }
            Ok(())
        },
        Err(de) => Err(OrchError::Driver(de)),
    }
}

/// First half of `resume`: only a `Paused` environment may resume; nothing
/// is changed here. The answer names the container to start, if any.
pub fn begin_resume(store: &EnvStore, id: &String) -> (r: Result<Option<String>, OrchError>)
    ensures
        match r {
            Ok(cid) => {
                &&& contains_id(store@, id@)
                &&& record_of(store@, id@).status == EnvStatus::Paused
                &&& match cid {
                    Some(c) => c@ == record_of(store@, id@).container_id && c@.len() > 0,
                    None => record_of(store@, id@).container_id.len() == 0,
                }
            },
            Err(e) => match e {
                OrchError::NotFound => !contains_id(store@, id@),
                OrchError::Conflict(st) => contains_id(store@, id@) && record_of(store@, id@).status
                    == st && st != EnvStatus::Paused,
                _ => false,
            },
        },
{
    let env = match store.get_environment(id) {
        Some(env) => env,
        None => {
            return Err(OrchError::NotFound);
        },
    };
    if !matches!(env.status, EnvStatus::Paused) {
        return Err(OrchError::Conflict(env.status));
    }
    if env.container_id.as_str().is_empty() {
        Ok(None)
    } else {
        Ok(Some(env.container_id))
    }
}

/// Second half of `resume`: persist `Running` only when the runtime really
/// started the container; a runtime failure leaves the record untouched.
pub fn finish_resume(store: &mut EnvStore, id: &String, started: Result<(), PodmanError>) -> (r:
    Result<(), OrchError>)
    requires
        old(store).wf(),
    ensures
        final(store).wf(),
        match started {
            Ok(u) => {
                &&& r == Ok::<(), OrchError>(())
                &&& (contains_id(old(store)@, id@) ==> final(store)@ == with_status(
                    old(store)@,
                    find_idx(old(store)@, id@),
                    EnvStatus::Running,
                    final(store)@[find_idx(old(store)@, id@)].last_active,
                ))
                &&& (!contains_id(old(store)@, id@) ==> final(store)@ == old(store)@)
            },
            Err(de) => {
                &&& r == Err::<(), OrchError>(OrchError::Driver(de))
                &&& final(store)@ == old(store)@
            },
        },
{
    match started {
        Ok(_) => {
            let now = crate::host::now_rfc3339();
            let ghost s0 = store@;
            store.update_environment_status(id, EnvStatus::Running, &now);
            proof {
                lemma_find_idx(s0, id@);
                if contains_id(s0, id@) {
                    let i = find_idx(s0, id@);
                    assert(store@[i].last_active == now@);
                    assert(store@ =~= with_status(s0, i, EnvStatus::Running, store@[i].last_active));
                }
            }
            Ok(())
        },
        Err(de) => Err(OrchError::Driver(de)),
    }
}

/// First half of `delete`: any existing record may be deleted; nothing is
/// changed here. The answer names the container to remove, if any.
pub fn begin_delete(store: &EnvStore, id: &String) -> (r: Result<Option<String>, OrchError>)
    ensures
        match r {
            Ok(cid) => {
                &&& contains_id(store@, id@)
                &&& match cid {
                    Some(c) => c@ == record_of(store@, id@).container_id && c@.len() > 0,
                    None => record_of(store@, id@).container_id.len() == 0,
                }
            },
            Err(e) => e matches OrchError::NotFound && !contains_id(store@, id@),
        },
{
    let env = match store.get_environment(id) {
        Some(env) => env,
        None => {
            return Err(OrchError::NotFound);
        },
    };
    if env.container_id.as_str().is_empty() {
        Ok(None)
    } else {
        Ok(Some(env.container_id))
    }
}

/// Second half of `delete`: the record is removed from the store whatever
/// the runtime answered — a failed container removal must not leak the
/// durable record.
pub fn finish_delete(store: &mut EnvStore, id: &String, removed: Result<(), PodmanError>) -> (r:
    bool)
    requires
        old(store).wf(),
    ensures
        final(store).wf(),
        !contains_id(final(store)@, id@),
        contains_id(old(store)@, id@) ==> final(store)@ == old(store)@.remove(
            find_idx(old(store)@, id@),
        ),
        !contains_id(old(store)@, id@) ==> final(store)@ == old(store)@,
        r == contains_id(old(store)@, id@),
{
    let _ = removed;
    let ghost s0 = store@;
    let r = store.delete_environment(id);
    proof {
        lemma_find_idx(s0, id@);
        if contains_id(s0, id@) {
            let i = find_idx(s0, id@);
            assert forall|k: int| 0 <= k < store@.len() implies (#[trigger] store@[k]).id
                != id@ by {
                if k < i {
                    assert(store@[k] == s0[k]);
                } else {
                    assert(store@[k] == s0[k + 1]);
                }
            }
            lemma_find_idx_none(store@, id@);
        }
    }
    r
}

/// Guard of `exec`: commands run only in a `Running` environment that has a
/// container. The answer names that container; the store is untouched.
pub fn begin_exec(store: &EnvStore, id: &String) -> (r: Result<String, OrchError>)
    ensures
        match r {
            Ok(cid) => {
                &&& contains_id(store@, id@)
                &&& record_of(store@, id@).status == EnvStatus::Running
                &&& cid@ == record_of(store@, id@).container_id
                &&& cid@.len() > 0
            },
            Err(e) => match e {
                OrchError::NotFound => !contains_id(store@, id@),
                OrchError::Conflict(st) => contains_id(store@, id@) && record_of(store@, id@).status
                    == st && st != EnvStatus::Running,
                OrchError::NoContainer => contains_id(store@, id@) && record_of(store@, id@).status
                    == EnvStatus::Running && record_of(store@, id@).container_id.len() == 0,
                _ => false,
            },
        },
{
    let env = match store.get_environment(id) {
        Some(env) => env,
        None => {
            return Err(OrchError::NotFound);
        },
    };
    if !matches!(env.status, EnvStatus::Running) {
        return Err(OrchError::Conflict(env.status));
    }
    if env.container_id.as_str().is_empty() {
        return Err(OrchError::NoContainer);
    }
    Ok(env.container_id)
}

/// Shape the runtime's execution outcome into the response the caller sees:
/// a non-zero exit code is data, not an error.
pub fn finish_exec(result: ExecResult) -> (r: ExecResponse)
    ensures
        r.output@ == result.output@,
        r.exit_code == result.exit_code,
{
    ExecResponse { output: result.output, exit_code: result.exit_code }
}

/// Law: a creation that runs to completion — fresh record persisted, ports
/// resolved, container committed — shows, on a later fetch, the container
/// id the runtime reported and only fully resolved port mappings, one per
/// requested binding.
pub proof fn lemma_create_round_trip(
    s: Seq<crate::environment::EnvironmentView>,
    env: crate::environment::EnvironmentView,
    requested: Seq<PortMappingView>,
    resolved: Seq<PortMappingView>,
    start: int,
    end: int,
    cid: Seq<char>,
    now: Seq<char>,
)
    requires
        !contains_id(s, env.id),
        spec_allocate(start, end, spec_used_ports(s), requested) == Ok::<
            Seq<PortMappingView>,
            PortError,
        >(resolved),
        cid.len() > 0,
    ensures
        ({
            let s1 = s.push(env);
            let s2 = with_container(
                s1,
                find_idx(s1, env.id),
                cid,
                resolved,
                EnvStatus::Running,
                now,
            );
            &&& contains_id(s2, env.id)
            &&& record_of(s2, env.id).container_id == cid
            &&& record_of(s2, env.id).container_id.len() > 0
            &&& record_of(s2, env.id).status == EnvStatus::Running
            &&& record_of(s2, env.id).ports == resolved
            &&& resolved.len() == requested.len()
            &&& forall|j: int|
                0 <= j < resolved.len() ==> (#[trigger] resolved[j]).host_port matches Some(_)
        }),
{
    let s1 = s.push(env);
    lemma_find_idx(s, env.id);
    lemma_find_idx_at(s1, env.id, s.len() as int);
    let i = find_idx(s1, env.id);
    let s2 = with_container(s1, i, cid, resolved, EnvStatus::Running, now);
    assert forall|k: int| 0 <= k < s2.len() implies (#[trigger] s2[k]).id == s1[k].id by {}
    lemma_find_idx_same_ids(s2, s1, env.id);
    assert(record_of(s2, env.id) == s2[i]);
    crate::podman::lemma_allocate_success_shape(start, end, spec_used_ports(s), requested);
}

} // verus!