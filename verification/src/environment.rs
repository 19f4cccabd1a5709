//! Environment records, port mappings, and the durable environment store.

use vstd::prelude::*;

verus! {

/// One association between a container-internal port and a published host
/// port. `host_port` is `None` only in a request, meaning "assign
/// automatically"; persisted records always carry a concrete host port.
pub struct PortMapping {
    pub name: String,
    pub container_port: u16,
    pub host_port: Option<u16>,
    pub protocol: Option<String>,
}

/// Mathematical image of a `PortMapping`: strings become character sequences.
#[verifier::ext_equal]
pub struct PortMappingView {
    pub name: Seq<char>,
    pub container_port: u16,
    pub host_port: Option<u16>,
    pub protocol: Option<Seq<char>>,
}

impl View for PortMapping {
    type V = PortMappingView;

    open spec fn view(&self) -> PortMappingView {
        PortMappingView {
            name: self.name@,
            container_port: self.container_port,
            host_port: self.host_port,
            protocol: match self.protocol {
                Some(p) => Some(p@),
                None => None,
            },
        }
    }
}

impl Clone for PortMapping {
    fn clone(&self) -> (r: Self)
        ensures
            r@ == self@,
    {
        PortMapping {
            name: self.name.clone(),
            container_port: self.container_port,
            host_port: self.host_port,
            protocol: match &self.protocol {
                Some(p) => Some(p.clone()),
                None => None,
            },
        }
    }
}

/// The views of a sequence of port mappings, in order.
pub open spec fn pm_views(s: Seq<PortMapping>) -> Seq<PortMappingView> {
    s.map_values(|m: PortMapping| m@)
}

/// Lifecycle state of an environment. `Destroyed` is terminal; a destroyed
/// record may linger for audit but claims no host ports and accepts no
/// further transitions.
#[derive(Clone, Copy, Debug, PartialEq, Eq, Structural)]
pub enum EnvStatus {
    Creating,
    Running,
    Paused,
    Destroyed,
}

impl EnvStatus {
    /// The lower-case word the wire format uses for this status.
    pub open spec fn spec_name(self) -> Seq<char> {
        match self {
            EnvStatus::Creating => "creating"@,
            EnvStatus::Running => "running"@,
            EnvStatus::Paused => "paused"@,
            EnvStatus::Destroyed => "destroyed"@,
        }
    }

    pub fn name(&self) -> (r: String)
        ensures
            r@ == self.spec_name(),
    {
        match self {
            EnvStatus::Creating => String::from_str("creating"),
            EnvStatus::Running => String::from_str("running"),
            EnvStatus::Paused => String::from_str("paused"),
            EnvStatus::Destroyed => String::from_str("destroyed"),
        }
    }
}

/// One provisioned sandbox bound to a project branch. `container_id` stays
/// empty until the runtime reports a container; persisted `ports` carry
/// concrete host ports once the environment first reaches `Running`.
pub struct Environment {
    pub id: String,
    pub project_id: String,
    pub branch: String,
    pub status: EnvStatus,
    pub container_id: String,
    pub ports: Vec<PortMapping>,
    pub created_at: String,
    pub last_active: String,
}

/// Mathematical image of an `Environment`.
#[verifier::ext_equal]
pub struct EnvironmentView {
    pub id: Seq<char>,
    pub project_id: Seq<char>,
    pub branch: Seq<char>,
    pub status: EnvStatus,
    pub container_id: Seq<char>,
    pub ports: Seq<PortMappingView>,
    pub created_at: Seq<char>,
    pub last_active: Seq<char>,
}

impl View for Environment {
    type V = EnvironmentView;

    open spec fn view(&self) -> EnvironmentView {
        EnvironmentView {
            id: self.id@,
            project_id: self.project_id@,
            branch: self.branch@,
            status: self.status,
            container_id: self.container_id@,
            ports: pm_views(self.ports@),
            created_at: self.created_at@,
            last_active: self.last_active@,
        }
    }
}

/// An owned copy of each mapping, with the same views in the same order.
pub fn clone_ports(v: &Vec<PortMapping>) -> (r: Vec<PortMapping>)
    ensures
        pm_views(r@) == pm_views(v@),
{
    let mut r: Vec<PortMapping> = Vec::new();
    let n = v.len();
    let mut i: usize = 0;
    while i < n
        invariant
            i <= n,
            n == v.len(),
            r@.len() == i,
            forall|k: int| 0 <= k < i ==> (#[trigger] r@[k])@ == v@[k]@,
        decreases n - i,
    {
        r.push(v[i].clone());
        i = i + 1;
    }
    proof {
        assert forall|k: int| 0 <= k < n implies pm_views(r@)[k] == pm_views(v@)[k] by {
            assert(r@[k]@ == v@[k]@);
        }
        assert(pm_views(r@) =~= pm_views(v@));
    }
    r
}

impl Clone for Environment {
    fn clone(&self) -> (r: Self)
        ensures
            r@ == self@,
    {
        Environment {
            id: self.id.clone(),
            project_id: self.project_id.clone(),
            branch: self.branch.clone(),
            status: self.status,
            container_id: self.container_id.clone(),
            ports: clone_ports(&self.ports),
            created_at: self.created_at.clone(),
            last_active: self.last_active.clone(),
        }
    }
}

/// The shape of a creation request. A missing `container_id` or `ports`
/// stands for the empty value.
pub struct CreateEnvironment {
    pub project_id: String,
    pub branch: String,
    pub container_id: Option<String>,
    pub ports: Option<Vec<PortMapping>>,
}

/// The views of a sequence of environments, in order.
pub open spec fn env_views(s: Seq<Environment>) -> Seq<EnvironmentView> {
    s.map_values(|e: Environment| e@)
}

/// Index of the first record carrying `id`, or -1.
pub open spec fn find_idx(s: Seq<EnvironmentView>, id: Seq<char>) -> int
    decreases s.len(),
{
    if s.len() == 0 {
        -1
    } else if s[0].id == id {
        0
    } else if find_idx(s.drop_first(), id) == -1 {
        -1
    } else {
        find_idx(s.drop_first(), id) + 1
    }
}

pub open spec fn contains_id(s: Seq<EnvironmentView>, id: Seq<char>) -> bool {
    find_idx(s, id) >= 0
}

/// The record carrying `id` (meaningful only when one exists).
pub open spec fn record_of(s: Seq<EnvironmentView>, id: Seq<char>) -> EnvironmentView {
    s[find_idx(s, id)]
}

pub proof fn lemma_find_idx(s: Seq<EnvironmentView>, id: Seq<char>)
    ensures
        find_idx(s, id) >= -1,
        find_idx(s, id) == -1 ==> forall|i: int| 0 <= i < s.len() ==> (#[trigger] s[i]).id != id,
        find_idx(s, id) >= 0 ==> 0 <= find_idx(s, id) < s.len() && s[find_idx(s, id)].id == id
            && (forall|i: int| 0 <= i < find_idx(s, id) ==> (#[trigger] s[i]).id != id),
    decreases s.len(),
{
    if s.len() > 0 {
        let t = s.drop_first();
        lemma_find_idx(t, id);
        if s[0].id == id {
        } else if find_idx(t, id) == -1 {
            assert forall|i: int| 0 <= i < s.len() implies (#[trigger] s[i]).id != id by {
                if i > 0 {
                    assert(s[i] == t[i - 1]);
                }
            }
        } else {
            let j = find_idx(t, id) + 1;
            assert(s[j] == t[j - 1]);
            assert forall|i: int| 0 <= i < j implies (#[trigger] s[i]).id != id by {
                if i > 0 {
                    assert(s[i] == t[i - 1]);
                }
            }
        }
    }
}

pub proof fn lemma_find_idx_at(s: Seq<EnvironmentView>, id: Seq<char>, j: int)
    requires
        0 <= j < s.len(),
        s[j].id == id,
        forall|i: int| 0 <= i < j ==> (#[trigger] s[i]).id != id,
    ensures
        find_idx(s, id) == j,
    decreases j,
{
    if j > 0 {
        let t = s.drop_first();
        assert(t[j - 1] == s[j]);
        assert forall|i: int| 0 <= i < j - 1 implies (#[trigger] t[i]).id != id by {
            assert(t[i] == s[i + 1]);
        }
        lemma_find_idx_at(t, id, j - 1);
    }
}

/// `find_idx` reads only ids: two stores whose records carry the same ids
/// in the same order locate every id at the same position.
pub proof fn lemma_find_idx_same_ids(s1: Seq<EnvironmentView>, s2: Seq<EnvironmentView>, id: Seq<char>)
    requires
        s1.len() == s2.len(),
        forall|k: int| 0 <= k < s1.len() ==> (#[trigger] s1[k]).id == s2[k].id,
    ensures
        find_idx(s1, id) == find_idx(s2, id),
    decreases s1.len(),
{
    if s1.len() > 0 {
        let t1 = s1.drop_first();
        let t2 = s2.drop_first();
        assert forall|k: int| 0 <= k < t1.len() implies (#[trigger] t1[k]).id == t2[k].id by {
            assert(t1[k] == s1[k + 1]);
            assert(t2[k] == s2[k + 1]);
        }
        lemma_find_idx_same_ids(t1, t2, id);
    }
}

pub proof fn lemma_find_idx_none(s: Seq<EnvironmentView>, id: Seq<char>)
    requires
        forall|i: int| 0 <= i < s.len() ==> (#[trigger] s[i]).id != id,
    ensures
        find_idx(s, id) == -1,
    decreases s.len(),
{
    if s.len() > 0 {
        let t = s.drop_first();
        assert forall|i: int| 0 <= i < t.len() implies (#[trigger] t[i]).id != id by {
            assert(t[i] == s[i + 1]);
        }
        lemma_find_idx_none(t, id);
    }
}

/// No two records share an id.
pub open spec fn unique_ids(s: Seq<EnvironmentView>) -> bool {
    forall|i: int, j: int|
        #![trigger s[i].id, s[j].id]
        0 <= i < j < s.len() ==> s[i].id != s[j].id
}

/// The store of environment records, in insertion order. The daemon keeps
/// one of these behind a single exclusive guard; every lifecycle operation
/// reads and writes records only through the methods below.
pub struct EnvStore {
    envs: Vec<Environment>,
}

impl View for EnvStore {
    type V = Seq<EnvironmentView>;

    closed spec fn view(&self) -> Seq<EnvironmentView> {
        env_views(self.envs@)
    }
}

impl EnvStore {
    /// Well-formedness: record ids are unique.
    pub open spec fn wf(&self) -> bool {
        unique_ids(self@)
    }

    pub fn new() -> (r: Self)
        ensures
            r@ == Seq::<EnvironmentView>::empty(),
            r.wf(),
    {
        let r = EnvStore { envs: Vec::new() };
        proof {
            assert(r@ =~= Seq::<EnvironmentView>::empty());
        }
        r
    }

    /// Position of the record carrying `id`, if present.
    fn position_of(&self, id: &String) -> (r: Option<usize>)
        ensures
            match r {
                Some(j) => j < self@.len() && find_idx(self@, id@) == j as int,
                None => find_idx(self@, id@) == -1,
            },
    {
        let n = self.envs.len();
        let mut i: usize = 0;
        while i < n
            invariant
                i <= n,
                n == self.envs.len(),
                forall|k: int| 0 <= k < i ==> (#[trigger] self@[k]).id != id@,
            decreases n - i,
        {
            if self.envs[i].id == *id {
                proof {
                    lemma_find_idx_at(self@, id@, i as int);
                }
                return Some(i);
            }
            i = i + 1;
        }
        proof {
            lemma_find_idx_none(self@, id@);
        }
        None
    }
}

/// Host ports named by a sequence of (resolved) mappings.
pub open spec fn spec_ports_set(ports: Seq<PortMappingView>) -> Set<u16>
    decreases ports.len(),
{
    if ports.len() == 0 {
        Set::empty()
    } else {
        spec_ports_set(ports.drop_last()).union(
            match ports.last().host_port {
                Some(p) => Set::empty().insert(p),
                None => Set::empty(),
            },
        )
    }
}

/// Host ports a single record claims: none once it is destroyed.
pub open spec fn spec_env_used(e: EnvironmentView) -> Set<u16> {
    if e.status == EnvStatus::Destroyed {
        Set::empty()
    } else {
        spec_ports_set(e.ports)
    }
}

/// The used-port set of the whole store: the union of the claims of every
/// non-destroyed record.
pub open spec fn spec_used_ports(s: Seq<EnvironmentView>) -> Set<u16>
    decreases s.len(),
{
    if s.len() == 0 {
        Set::empty()
    } else {
        spec_used_ports(s.drop_last()).union(spec_env_used(s.last()))
    }
}

/// Law: a sequence of mappings claims a host port exactly when one of its
/// entries names it.
pub proof fn lemma_ports_set_iff(ports: Seq<PortMappingView>, p: u16)
    ensures
        spec_ports_set(ports).contains(p) <==> exists|j: int|
            0 <= j < ports.len() && (#[trigger] ports[j]).host_port == Some(p),
    decreases ports.len(),
{
    if ports.len() > 0 {
        let t = ports.drop_last();
        lemma_ports_set_iff(t, p);
        if spec_ports_set(ports).contains(p) {
            if ports.last().host_port == Some(p) {
                assert(ports[ports.len() - 1].host_port == Some(p));
            } else {
                assert(spec_ports_set(t).contains(p));
                let j = choose|j: int| 0 <= j < t.len() && (#[trigger] t[j]).host_port == Some(p);
                assert(ports[j].host_port == Some(p));
            }
        }
        if exists|j: int| 0 <= j < ports.len() && (#[trigger] ports[j]).host_port == Some(p) {
            let j = choose|j: int|
                0 <= j < ports.len() && (#[trigger] ports[j]).host_port == Some(p);
            if j == ports.len() - 1 {
                assert(spec_ports_set(ports).contains(p));
            } else {
                assert(t[j].host_port == Some(p));
                assert(spec_ports_set(t).contains(p));
            }
        }
    }
}

/// Law: every port in the store's used set is claimed by a record that is
/// not destroyed — a destroyed record's former reservations are gone.
pub proof fn lemma_used_ports_from_live(s: Seq<EnvironmentView>, p: u16)
    requires
        spec_used_ports(s).contains(p),
    ensures
        exists|i: int|
            0 <= i < s.len() && (#[trigger] s[i]).status != EnvStatus::Destroyed && spec_ports_set(
                s[i].ports,
            ).contains(p),
    decreases s.len(),
{
    if s.len() > 0 {
        let t = s.drop_last();
        if spec_env_used(s.last()).contains(p) {
            assert(s[s.len() - 1].status != EnvStatus::Destroyed && spec_ports_set(
                s[s.len() - 1].ports,
            ).contains(p));
        } else {
            assert(spec_used_ports(t).contains(p));
            lemma_used_ports_from_live(t, p);
            let i = choose|i: int|
                0 <= i < t.len() && (#[trigger] t[i]).status != EnvStatus::Destroyed
                    && spec_ports_set(t[i].ports).contains(p);
            assert(s[i].status != EnvStatus::Destroyed && spec_ports_set(s[i].ports).contains(p));
        }
    }
}

/// Law: conversely, every port a non-destroyed record claims is in the
/// store's used set. With `lemma_used_ports_from_live` this pins the used
/// set as exactly the union over non-destroyed records.
pub proof fn lemma_live_port_is_used(s: Seq<EnvironmentView>, i: int, p: u16)
    requires
        0 <= i < s.len(),
        s[i].status != EnvStatus::Destroyed,
        spec_ports_set(s[i].ports).contains(p),
    ensures
        spec_used_ports(s).contains(p),
    decreases s.len(),
{
    if i == s.len() - 1 {
        assert(spec_env_used(s.last()).contains(p));
    } else {
        let t = s.drop_last();
        assert(t[i] == s[i]);
        lemma_live_port_is_used(t, i, p);
    }
}

/// The store after the record at `i` moves to `st`, touching nothing else
/// but its activity stamp.
pub open spec fn with_status(
    s: Seq<EnvironmentView>,
    i: int,
    st: EnvStatus,
    now: Seq<char>,
) -> Seq<EnvironmentView> {
    s.update(i, EnvironmentView { status: st, last_active: now, ..s[i] })
}

/// The store after the record at `i` takes a container id, resolved ports
/// and a new status.
pub open spec fn with_container(
    s: Seq<EnvironmentView>,
    i: int,
    cid: Seq<char>,
    ports: Seq<PortMappingView>,
    st: EnvStatus,
    now: Seq<char>,
) -> Seq<EnvironmentView> {
    s.update(
        i,
        EnvironmentView { container_id: cid, ports: ports, status: st, last_active: now, ..s[i] },
    )
}

/// Records of `pid`, newest first.
pub open spec fn spec_list_for_project(
    s: Seq<EnvironmentView>,
    pid: Seq<char>,
) -> Seq<EnvironmentView>
    decreases s.len(),
{
    if s.len() == 0 {
        Seq::empty()
    } else {
        (if s.last().project_id == pid {
            seq![s.last()]
        } else {
            Seq::<EnvironmentView>::empty()
        }) + spec_list_for_project(s.drop_last(), pid)
    }
}

/// Law: the listing is newest-insertion-first, so whenever the creation
/// stamps respect insertion order — under any ordering `leq` — the listed
/// records' stamps descend under that same ordering. With a clock that is
/// not monotone across insertions, insertion recency is the order. The
/// second clause says every listed record really stands in the store.
pub proof fn lemma_list_is_descending(
    s: Seq<EnvironmentView>,
    pid: Seq<char>,
    leq: spec_fn(Seq<char>, Seq<char>) -> bool,
)
    requires
        forall|i: int, j: int|
            #![trigger s[i], s[j]]
            0 <= i < j < s.len() ==> leq(s[i].created_at, s[j].created_at),
    ensures
        ({
            let l = spec_list_for_project(s, pid);
            forall|a: int, b: int|
                #![trigger l[a], l[b]]
                0 <= a < b < l.len() ==> leq(l[b].created_at, l[a].created_at)
        }),
        forall|k: int|
            0 <= k < spec_list_for_project(s, pid).len() ==> exists|i: int|
                0 <= i < s.len() && s[i] == #[trigger] spec_list_for_project(s, pid)[k],
    decreases s.len(),
{
    if s.len() > 0 {
        let t = s.drop_last();
        let lt = spec_list_for_project(t, pid);
        assert forall|i: int, j: int|
            #![trigger t[i], t[j]]
            0 <= i < j < t.len() implies leq(t[i].created_at, t[j].created_at) by {
            assert(t[i] == s[i]);
            assert(t[j] == s[j]);
        }
        lemma_list_is_descending(t, pid, leq);
        let l = spec_list_for_project(s, pid);
        if s.last().project_id == pid {
            assert forall|a: int, b: int|
                #![trigger l[a], l[b]]
                0 <= a < b < l.len() implies leq(l[b].created_at, l[a].created_at) by {
                assert(l[b] == lt[b - 1]);
                if a == 0 {
                    let i = choose|i: int| 0 <= i < t.len() && t[i] == lt[b - 1];
                    assert(s[i] == t[i]);
                    assert(leq(s[i].created_at, s[s.len() - 1].created_at));
                    assert(l[0] == s.last());
                } else {
                    assert(l[a] == lt[a - 1]);
                }
            }
            assert forall|k: int| 0 <= k < l.len() implies exists|i: int|
                0 <= i < s.len() && s[i] == #[trigger] l[k] by {
                if k == 0 {
                    assert(s[s.len() - 1] == l[0]);
                } else {
                    assert(l[k] == lt[k - 1]);
                    let i = choose|i: int| 0 <= i < t.len() && t[i] == lt[k - 1];
                    assert(s[i] == l[k]);
                }
            }
        } else {
            assert(l =~= lt);
            assert forall|k: int| 0 <= k < l.len() implies exists|i: int|
                0 <= i < s.len() && s[i] == #[trigger] l[k] by {
                let i = choose|i: int| 0 <= i < t.len() && t[i] == lt[k];
                assert(s[i] == l[k]);
            }
        }
    }
}

impl EnvStore {
    /// Persist a record in `Creating` under the given id and stamp: the
    /// insertion succeeds exactly when no record carries `id` yet, and a
    /// refused insertion changes nothing.
    pub fn insert_environment(&mut self, input: CreateEnvironment, id: String, now: String) -> (r:
        Option<Environment>)
        requires
            old(self).wf(),
        ensures
            final(self).wf(),
            match r {
                Some(env) => {
                    &&& !contains_id(old(self)@, id@)
                    &&& final(self)@ == old(self)@.push(env@)
                    &&& env@.id == id@
                    &&& env@.project_id == input.project_id@
                    &&& env@.branch == input.branch@
                    &&& env@.status == EnvStatus::Creating
                    &&& env@.container_id == (match input.container_id {
                        Some(c) => c@,
                        None => Seq::<char>::empty(),
                    })
                    &&& env@.ports == (match input.ports {
                        Some(p) => pm_views(p@),
                        None => Seq::<PortMappingView>::empty(),
                    })
                    &&& env@.created_at == now@
                    &&& env@.last_active == now@
                },
                None => final(self)@ == old(self)@ && contains_id(old(self)@, id@),
            },
    {
        if let Some(_existing) = self.position_of(&id) {
            return None;
        }
        proof {
            lemma_find_idx(self@, id@);
        }
        let env = Environment {
            id,
            project_id: input.project_id,
            branch: input.branch,
            status: EnvStatus::Creating,
            container_id: match input.container_id {
                Some(c) => c,
                None => String::new(),
            },
            ports: match input.ports {
                Some(p) => p,
                None => Vec::new(),
            },
            created_at: now.clone(),
            last_active: now,
        };
        let out = env.clone();
        let ghost s0 = self@;
        let ghost ev = env@;
        self.envs.push(env);
        proof {
            assert(self@ =~= s0.push(ev));
            assert forall|a: int, b: int|
                #![trigger self@[a].id, self@[b].id]
                0 <= a < b < self@.len() implies self@[a].id != self@[b].id by {
                if b == self@.len() - 1 {
                    assert(self@[a] == s0[a]);
                    assert(self@[b] == ev);
                } else {
                    assert(self@[a] == s0[a]);
                    assert(self@[b] == s0[b]);
                }
            }
        }
        Some(out)
    }

    /// Mint a fresh record in `Creating` with the requested fields, under a
    /// freshly drawn 36-character id and the current stamp. The result is
    /// `None` only when the drawn id collides with an existing record —
    /// possible only against a record whose id already has 36 characters,
    /// so in particular creation succeeds on a store holding none — and
    /// then nothing changes.
    pub fn create_environment(&mut self, input: CreateEnvironment) -> (r: Option<Environment>)
        requires
            old(self).wf(),
        ensures
            final(self).wf(),
            match r {
                Some(env) => {
                    &&& !contains_id(old(self)@, env@.id)
                    &&& final(self)@ == old(self)@.push(env@)
                    &&& env@.id.len() == 36
                    &&& env@.project_id == input.project_id@
                    &&& env@.branch == input.branch@
                    &&& env@.status == EnvStatus::Creating
                    &&& env@.container_id == (match input.container_id {
                        Some(c) => c@,
                        None => Seq::<char>::empty(),
                    })
                    &&& env@.ports == (match input.ports {
                        Some(p) => pm_views(p@),
                        None => Seq::<PortMappingView>::empty(),
                    })
                    &&& env@.created_at == env@.last_active
                },
                None => final(self)@ == old(self)@ && (exists|i: int|
                    0 <= i < old(self)@.len() && (#[trigger] old(self)@[i]).id.len() == 36),
            },
    {
        let id = crate::host::fresh_uuid();
        let ghost idv = id@;
        let now = crate::host::now_rfc3339();
        let r = self.insert_environment(input, id, now);
        proof {
            if contains_id(old(self)@, idv) {
                lemma_find_idx(old(self)@, idv);
                let i = find_idx(old(self)@, idv);
                assert(old(self)@[i].id.len() == 36);
            }
        }
        r
    }

    /// A copy of the record carrying `id`, if one exists.
    pub fn get_environment(&self, id: &String) -> (r: Option<Environment>)
        ensures
            match r {
                Some(env) => contains_id(self@, id@) && env@ == record_of(self@, id@),
                None => !contains_id(self@, id@),
            },
    {
        match self.position_of(id) {
            Some(i) => Some(self.envs[i].clone()),
            None => None,
        }
    }

    /// Copies of the records of `project_id`, newest insertion first. The
    /// store cannot promise a clock, so recency of insertion is the order
    /// it states; `lemma_list_is_descending` shows the listing descends by
    /// creation stamp under any ordering the stamps respect along
    /// insertion.
    pub fn list_environments(&self, project_id: &String) -> (r: Vec<Environment>)
        ensures
            env_views(r@) == spec_list_for_project(self@, project_id@),
    {
        let mut r: Vec<Environment> = Vec::new();
        let n = self.envs.len();
        let mut i: usize = 0;
        proof {
            assert(self@.take(0) =~= Seq::<EnvironmentView>::empty());
            assert(env_views(r@) =~= spec_list_for_project(self@.take(0), project_id@));
        }
        while i < n
            invariant
                i <= n,
                n == self.envs.len(),
                env_views(r@) == spec_list_for_project(self@.take(i as int), project_id@),
            decreases n - i,
        {
            let ghost r0 = r@;
            proof {
                assert(self@.take(i as int + 1).drop_last() =~= self@.take(i as int));
                assert(self@.take(i as int + 1).last() == self@[i as int]);
            }
            if self.envs[i].project_id == *project_id {
                let cl = self.envs[i].clone();
                r.insert(0, cl);
                proof {
                    assert(r@ == r0.insert(0, cl));
                    assert forall|k: int| 0 <= k < r@.len() implies env_views(r@)[k] == (seq![
                        self@[i as int],
                    ] + env_views(r0))[k] by {
                        if k == 0 {
                            assert(r@[0] == cl);
                        } else {
                            assert(r@[k] == r0[k - 1]);
                        }
                    }
                    assert(env_views(r@) =~= seq![self@[i as int]] + env_views(r0));
                }
            } else {
                proof {
                    assert(Seq::<EnvironmentView>::empty() + env_views(r@) =~= env_views(r@));
                }
            }
            i = i + 1;
        }
        proof {
            assert(self@.take(n as int) =~= self@);
        }
        r
    }

    /// Move the record carrying `id` to `status`, stamping `now`; report
    /// whether such a record existed, changing nothing when none did.
    pub fn update_environment_status(&mut self, id: &String, status: EnvStatus, now: &String) -> (r:
        bool)
        requires
            old(self).wf(),
        ensures
            final(self).wf(),
            r == contains_id(old(self)@, id@),
            r ==> final(self)@ == with_status(old(self)@, find_idx(old(self)@, id@), status, now@),
            !r ==> final(self)@ == old(self)@,
    {
        match self.position_of(id) {
            Some(i) => {
                let ghost s0 = self@;
                let e = &mut self.envs[i];
                e.status = status;
                e.last_active = now.clone();
                proof {
                    assert(self@ =~= with_status(s0, i as int, status, now@));
                    assert forall|a: int, b: int|
                        #![trigger self@[a].id, self@[b].id]
                        0 <= a < b < self@.len() implies self@[a].id != self@[b].id by {
                        assert(self@[a].id == s0[a].id);
                        assert(self@[b].id == s0[b].id);
                    }
                }
                true
            },
            None => false,
        }
    }

    /// Record the container, resolved ports and status of `id`, stamping
    /// `now`; report whether such a record existed.
    pub fn update_environment_container(
        &mut self,
        id: &String,
        container_id: &String,
        ports: &Vec<PortMapping>,
        status: EnvStatus,
        now: &String,
    ) -> (r: bool)
        requires
            old(self).wf(),
        ensures
            final(self).wf(),
            r == contains_id(old(self)@, id@),
            r ==> final(self)@ == with_container(
                old(self)@,
                find_idx(old(self)@, id@),
                container_id@,
                pm_views(ports@),
                status,
                now@,
            ),
            !r ==> final(self)@ == old(self)@,
    {
        match self.position_of(id) {
            Some(i) => {
                let ghost s0 = self@;
                let new_ports = clone_ports(ports);
                let e = &mut self.envs[i];
                e.container_id = container_id.clone();
                e.ports = new_ports;
                e.status = status;
                e.last_active = now.clone();
                proof {
                    assert(self@ =~= with_container(
                        s0,
                        i as int,
                        container_id@,
                        pm_views(ports@),
                        status,
                        now@,
                    ));
                    assert forall|a: int, b: int|
                        #![trigger self@[a].id, self@[b].id]
                        0 <= a < b < self@.len() implies self@[a].id != self@[b].id by {
                        assert(self@[a].id == s0[a].id);
                        assert(self@[b].id == s0[b].id);
                    }
                }
                true
            },
            None => false,
        }
    }

    /// Remove the record carrying `id` outright; report whether one existed.
    pub fn delete_environment(&mut self, id: &String) -> (r: bool)
        requires
            old(self).wf(),
        ensures
            final(self).wf(),
            r == contains_id(old(self)@, id@),
            r ==> final(self)@ == old(self)@.remove(find_idx(old(self)@, id@)),
            !r ==> final(self)@ == old(self)@,
    {
        match self.position_of(id) {
            Some(i) => {
                let ghost s0 = self@;
                self.envs.remove(i);
                proof {
                    assert forall|k: int| 0 <= k < self@.len() implies self@[k] == s0.remove(
                        i as int,
                    )[k] by {
                        if k < i as int {
                            assert(self.envs@[k] == old(self).envs@[k]);
                        } else {
                            assert(self.envs@[k] == old(self).envs@[k + 1]);
                        }
                    }
                    assert(self@ =~= s0.remove(i as int));
                    assert forall|a: int, b: int|
                        #![trigger self@[a].id, self@[b].id]
                        0 <= a < b < self@.len() implies self@[a].id != self@[b].id by {
                        let a0 = if a < i as int { a } else { a + 1 };
                        let b0 = if b < i as int { b } else { b + 1 };
                        assert(self@[a] == s0[a0]);
                        assert(self@[b] == s0[b0]);
                        assert(s0[a0].id != s0[b0].id);
                    }
                }
                true
            },
            None => false,
        }
    }

    /// The set of host ports claimed by any non-destroyed record.
    pub fn get_used_ports(&self) -> (r: std::collections::HashSet<u16>)
        ensures
            r@ == spec_used_ports(self@),
    {
        let mut used: std::collections::HashSet<u16> = std::collections::HashSet::new();
        let n = self.envs.len();
        let mut i: usize = 0;
        proof {
            assert(self@.take(0) =~= Seq::<EnvironmentView>::empty());
            assert(used@ =~= spec_used_ports(self@.take(0)));
        }
        while i < n
            invariant
                i <= n,
                n == self.envs.len(),
                used@ == spec_used_ports(self@.take(i as int)),
            decreases n - i,
        {
            let ghost u0 = used@;
            proof {
                assert(self@.take(i as int + 1).drop_last() =~= self@.take(i as int));
                assert(self@.take(i as int + 1).last() == self@[i as int]);
            }
            let e = &self.envs[i];
            if matches!(e.status, EnvStatus::Destroyed) {
                proof {
                    assert(u0.union(Set::<u16>::empty()) =~= u0);
                }
            } else {
                let m = e.ports.len();
                let mut j: usize = 0;
                proof {
                    assert(e@.ports.take(0) =~= Seq::<PortMappingView>::empty());
                    assert(u0.union(spec_ports_set(e@.ports.take(0))) =~= u0);
                }
                while j < m
                    invariant
                        j <= m,
                        m == e.ports.len(),
                        used@ == u0.union(spec_ports_set(e@.ports.take(j as int))),
                    decreases m - j,
                {
                    let ghost u1 = used@;
                    proof {
                        assert(e@.ports.take(j as int + 1).drop_last() =~= e@.ports.take(
                            j as int,
                        ));
                        assert(e@.ports.take(j as int + 1).last() == e@.ports[j as int]);
                        assert(e@.ports[j as int] == e.ports@[j as int]@);
                    }
                    match e.ports[j].host_port {
                        Some(hp) => {
                            used.insert(hp);
                            proof {
                                assert(used@ =~= u0.union(
                                    spec_ports_set(e@.ports.take(j as int + 1)),
                                ));
                            }
                        },
                        None => {
                            proof {
                                assert(u1.union(Set::<u16>::empty()) =~= u1);
                            }
                        },
                    }
                    j = j + 1;
                }
                proof {
                    assert(e@.ports.take(m as int) =~= e@.ports);
                }
            }
            i = i + 1;
        }
        proof {
            assert(self@.take(n as int) =~= self@);
        }
        used
    }
}

} // verus!
