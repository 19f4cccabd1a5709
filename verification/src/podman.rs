//! Container-runtime vocabulary: configuration, error classification, and
//! the pure host-port allocator.

use vstd::prelude::*;

use crate::environment::{pm_views, PortMapping, PortMappingView};

verus! {

/// Failure of a single host-port allocation request.
#[derive(Debug, PartialEq, Eq, Structural)]
pub enum PortError {
    /// The requested explicit host port is already claimed.
    PortConflict(u16),
    /// No free port remains in the configured range.
    PortRangeExhausted,
}

/// Outcome classification for container-runtime invocations.
#[derive(Debug)]
pub enum PodmanError {
    /// The runtime executable could not be launched at all.
    NotInstalled,
    /// The runtime launched but the subcommand exited non-zero.
    CommandFailed { command: String, stderr: String, exit_code: i32 },
    /// Structural failure detected before invoking the runtime.
    ParseError(String),
}

/// Where the runtime executable lives and which host ports may be
/// auto-assigned: the half-open range `[port_range_start, port_range_end)`.
pub struct PodmanConfig {
    pub podman_path: String,
    pub port_range_start: u16,
    pub port_range_end: u16,
}

impl Clone for PodmanConfig {
    fn clone(&self) -> (r: Self)
        ensures
            r.podman_path@ == self.podman_path@,
            r.port_range_start == self.port_range_start,
            r.port_range_end == self.port_range_end,
    {
        PodmanConfig {
            podman_path: self.podman_path.clone(),
            port_range_start: self.port_range_start,
            port_range_end: self.port_range_end,
        }
    }
}

impl core::default::Default for PodmanConfig {
    fn default() -> (r: Self)
        ensures
            r.podman_path@ == "podman"@,
            r.port_range_start == 10000,
            r.port_range_end == 11000,
    {
        PodmanConfig {
            podman_path: String::from_str("podman"),
            port_range_start: 10000,
            port_range_end: 11000,
        }
    }
}

/// What one in-container command execution produced.
pub struct ExecResult {
    pub output: String,
    pub exit_code: i32,
}

/// The lowest port of `[lo, hi)` that is not in `used`, if any.
pub open spec fn spec_first_free(lo: int, hi: int, used: Set<u16>) -> Option<u16>
    decreases hi - lo,
{
    if lo < 0 || lo >= hi || hi > 0x10000 {
        None
    } else if !used.contains(lo as u16) {
        Some(lo as u16)
    } else {
        spec_first_free(lo + 1, hi, used)
    }
}

/// The resolution of `requested` against the claimed set `used`: explicit
/// host ports are kept when free, missing ones get the lowest free port of
/// `[start, end)`, and each accepted port joins `used` for the entries after
/// it. Mirrors processing in request order with a failure aborting the whole
/// call.
pub open spec fn spec_allocate(
    start: int,
    end: int,
    used: Set<u16>,
    requested: Seq<PortMappingView>,
) -> Result<Seq<PortMappingView>, PortError>
    decreases requested.len(),
{
    if requested.len() == 0 {
        Ok(Seq::empty())
    } else {
        let m = requested[0];
        match m.host_port {
            Some(p) => {
                if used.contains(p) {
                    Err(PortError::PortConflict(p))
                } else {
                    match spec_allocate(start, end, used.insert(p), requested.drop_first()) {
                        Ok(rest) => Ok(seq![m] + rest),
                        Err(e) => Err(e),
                    }
                }
            },
            None => {
                match spec_first_free(start, end, used) {
                    Some(q) => {
                        let resolved = PortMappingView { host_port: Some(q), ..m };
                        match spec_allocate(start, end, used.insert(q), requested.drop_first()) {
                            Ok(rest) => Ok(seq![resolved] + rest),
                            Err(e) => Err(e),
                        }
                    },
                    None => Err(PortError::PortRangeExhausted),
                }
            },
        }
    }
}

/// Every port below the one `spec_first_free` picks is claimed; a `None`
/// answer on a well-formed range means the whole range is claimed.
pub proof fn lemma_first_free_is_lowest(lo: int, hi: int, used: Set<u16>)
    ensures
        spec_first_free(lo, hi, used) matches Some(p) ==> lo <= p < hi && !used.contains(p)
            && (forall|t: int| lo <= t < p ==> #[trigger] used.contains(t as u16)),
        (spec_first_free(lo, hi, used) == None::<u16> && 0 <= lo && hi <= 0x10000) ==> (forall|
            t: int,
        |
            lo <= t < hi ==> #[trigger] used.contains(t as u16)),
    decreases hi - lo,
{
    if lo < 0 || lo >= hi || hi > 0x10000 {
    } else if !used.contains(lo as u16) {
    } else {
        lemma_first_free_is_lowest(lo + 1, hi, used);
    }
}

proof fn lemma_first_free_at(lo: int, hi: int, used: Set<u16>, p: int)
    requires
        0 <= lo <= p < hi <= 0x10000,
        forall|t: int| lo <= t < p ==> #[trigger] used.contains(t as u16),
        !used.contains(p as u16),
    ensures
        spec_first_free(lo, hi, used) == Some(p as u16),
    decreases p - lo,
{
    if lo < p {
        lemma_first_free_at(lo + 1, hi, used, p);
    }
}

proof fn lemma_first_free_none(lo: int, hi: int, used: Set<u16>)
    requires
        forall|t: int| lo <= t < hi ==> #[trigger] used.contains(t as u16),
    ensures
        spec_first_free(lo, hi, used) == None::<u16>,
    decreases hi - lo,
{
    if lo < 0 || lo >= hi || hi > 0x10000 {
    } else {
        lemma_first_free_none(lo + 1, hi, used);
    }
}

/// The lowest port of `[start, end)` claimed neither in `used` nor in
/// `newly`, scanning upward as the allocator's automatic assignment does.
fn find_free_port(start: u16, end: u16, used: &std::collections::HashSet<u16>, newly: &std::collections::HashSet<u16>) -> (r: Option<
    u16,
>)
    ensures
        r == spec_first_free(start as int, end as int, used@.union(newly@)),
{
    let ghost claimed = used@.union(newly@);
    let mut q = start;
    while q < end
        invariant
            start <= q <= 0xffff,
            q <= end || end <= start,
            claimed == used@.union(newly@),
            forall|t: int| start <= t < q ==> #[trigger] claimed.contains(t as u16),
        decreases end as int - q as int,
    {
        if !used.contains(&q) && !newly.contains(&q) {
            proof {
                lemma_first_free_at(start as int, end as int, claimed, q as int);
            }
            return Some(q);
        }
        q = q + 1;
    }
    proof {
        lemma_first_free_none(start as int, end as int, claimed);
    }
    None
}

/// Resolve `requested` against the ports already in use, in request order:
/// an explicit host port is kept iff it is free, a missing one gets the
/// lowest free port of the configured range. Pure: the failure of any entry
/// yields an error and no binding at all.
pub fn allocate_ports(
    config: &PodmanConfig,
    used_ports: &std::collections::HashSet<u16>,
    requested: &Vec<PortMapping>,
) -> (r: Result<Vec<PortMapping>, PortError>)
    ensures
        match r {
            Ok(v) => spec_allocate(
                config.port_range_start as int,
                config.port_range_end as int,
                used_ports@,
                pm_views(requested@),
            ) == Ok::<Seq<PortMappingView>, PortError>(pm_views(v@)),
            Err(e) => spec_allocate(
                config.port_range_start as int,
                config.port_range_end as int,
                used_ports@,
                pm_views(requested@),
            ) == Err::<Seq<PortMappingView>, PortError>(e),
        },
{
    let ghost start = config.port_range_start as int;
    let ghost end = config.port_range_end as int;
    let ghost used0 = used_ports@;
    let ghost req = pm_views(requested@);
    let mut result: Vec<PortMapping> = Vec::new();
    let mut newly: std::collections::HashSet<u16> = std::collections::HashSet::new();
    proof {
        assert(used0.union(Set::<u16>::empty()) =~= used0);
        assert(req.skip(0) =~= req);
        assert(pm_views(Seq::<PortMapping>::empty()) =~= Seq::<PortMappingView>::empty());
        match spec_allocate(start, end, used0, req) {
            Ok(rest) => {
                assert(Seq::<PortMappingView>::empty() + rest =~= rest);
            },
            Err(e) => {},
        }
    }
    let n = requested.len();
    let mut i: usize = 0;
    while i < n
        invariant
            i <= n,
            n == requested.len(),
            req == pm_views(requested@),
            used0 == used_ports@,
            start == config.port_range_start as int,
            end == config.port_range_end as int,
            spec_allocate(start, end, used0, req) == (match spec_allocate(
                start,
                end,
                used0.union(newly@),
                req.skip(i as int),
            ) {
                Ok(rest) => Ok::<Seq<PortMappingView>, PortError>(pm_views(result@) + rest),
                Err(e) => Err::<Seq<PortMappingView>, PortError>(e),
            }),
        decreases n - i,
    {
        let ghost acc = used0.union(newly@);
        let ghost tail = req.skip(i as int);
        let ghost res0 = result@;
        let ghost newly0 = newly@;
        proof {
            assert(tail[0] == requested@[i as int]@);
            assert(tail.drop_first() =~= req.skip(i as int + 1));
        }
        let m = &requested[i];
        match m.host_port {
            Some(p) => {
                if used_ports.contains(&p) || newly.contains(&p) {
                    proof {
                        assert(acc.contains(p));
                    }
                    return Err(PortError::PortConflict(p));
                }
                newly.insert(p);
                result.push(m.clone());
                proof {
                    assert(used0.union(newly0.insert(p)) =~= acc.insert(p));
                    assert(pm_views(result@) =~= pm_views(res0) + seq![m@]);
                    match spec_allocate(start, end, acc.insert(p), tail.drop_first()) {
                        Ok(rest) => {
                            assert(pm_views(res0) + (seq![m@] + rest) =~= pm_views(result@)
                                + rest);
                        },
                        Err(e) => {},
                    }
                }
            },
            None => {
                match find_free_port(config.port_range_start, config.port_range_end, used_ports, &newly) {
                    Some(q) => {
                        let rm = PortMapping {
                            name: m.name.clone(),
                            container_port: m.container_port,
                            host_port: Some(q),
                            protocol: match &m.protocol {
                                Some(pr) => Some(pr.clone()),
                                None => None,
                            },
                        };
                        proof {
                            assert(rm@ =~= (PortMappingView { host_port: Some(q), ..tail[0] }));
                        }
                        newly.insert(q);
                        result.push(rm);
                        proof {
                            assert(used0.union(newly0.insert(q)) =~= acc.insert(q));
                            assert(pm_views(result@) =~= pm_views(res0) + seq![
                                PortMappingView { host_port: Some(q), ..tail[0] },
                            ]);
                            match spec_allocate(start, end, acc.insert(q), tail.drop_first()) {
                                Ok(rest) => {
                                    assert(pm_views(res0) + (seq![
                                        PortMappingView { host_port: Some(q), ..tail[0] },
                                    ] + rest) =~= pm_views(result@) + rest);
                                },
                                Err(e) => {},
                            }
                        }
                    },
                    None => {
                        return Err(PortError::PortRangeExhausted);
                    },
                }
            },
        }
        i = i + 1;
    }
    proof {
        assert(req.skip(n as int) =~= Seq::<PortMappingView>::empty());
        match spec_allocate(start, end, used0, req) {
            Ok(rest) => {
                assert(pm_views(result@) + Seq::<PortMappingView>::empty() =~= pm_views(
                    result@,
                ));
            },
            Err(e) => {},
        }
    }
    Ok(result)
}

/// Law: on a successful allocation every entry keeps its name, container
/// port and protocol, every host port comes out resolved, and an entry that
/// asked for an explicit host port is returned unchanged.
pub proof fn lemma_allocate_success_shape(
    start: int,
    end: int,
    used: Set<u16>,
    requested: Seq<PortMappingView>,
)
    ensures
        spec_allocate(start, end, used, requested) matches Ok(res) ==> {
            &&& res.len() == requested.len()
            &&& forall|i: int|
                0 <= i < requested.len() ==> {
                    &&& (#[trigger] res[i]).name == requested[i].name
                    &&& res[i].container_port == requested[i].container_port
                    &&& res[i].protocol == requested[i].protocol
                    &&& res[i].host_port matches Some(_)
                    &&& (requested[i].host_port matches Some(_) ==> res[i] == requested[i])
                }
        },
    decreases requested.len(),
{
    if requested.len() > 0 {
        match requested[0].host_port {
            Some(p) => {
                if !used.contains(p) {
                    lemma_allocate_success_shape(start, end, used.insert(p), requested.drop_first());
                }
            },
            None => {
                match spec_first_free(start, end, used) {
                    Some(q) => {
                        lemma_allocate_success_shape(start, end, used.insert(q), requested.drop_first());
                    },
                    None => {},
                }
            },
        }
    }
}

/// Law: a request whose first entry names an explicit host port already in
/// use fails with a conflict on exactly that port.
pub proof fn lemma_allocate_explicit_conflict(
    start: int,
    end: int,
    used: Set<u16>,
    requested: Seq<PortMappingView>,
    p: u16,
)
    requires
        requested.len() > 0,
        requested[0].host_port == Some(p),
        used.contains(p),
    ensures
        spec_allocate(start, end, used, requested) == Err::<Seq<PortMappingView>, PortError>(
            PortError::PortConflict(p),
        ),
{
}

/// Law: with every port of the range already claimed, a request whose first
/// entry asks for automatic assignment fails with range exhaustion.
pub proof fn lemma_allocate_exhausted(
    start: int,
    end: int,
    used: Set<u16>,
    requested: Seq<PortMappingView>,
)
    requires
        requested.len() > 0,
        requested[0].host_port == None::<u16>,
        forall|t: int| start <= t < end ==> #[trigger] used.contains(t as u16),
    ensures
        spec_allocate(start, end, used, requested) == Err::<Seq<PortMappingView>, PortError>(
            PortError::PortRangeExhausted,
        ),
{
    lemma_first_free_none(start, end, used);
}

/// The name of the container backing an environment: a fixed prefix plus
/// the first eight characters of the environment id.
pub open spec fn spec_container_name(id: Seq<char>) -> Seq<char> {
    "botglue-"@ + id.take(if id.len() <= 8 { id.len() as int } else { 8 })
}

pub fn container_name(env_id: &str) -> (r: String)
    ensures
        r@ == spec_container_name(env_id@),
{
    let len = env_id.unicode_len();
    let k: usize = if len < 8 { len } else { 8 };
    let short = env_id.substring_char(0, k);
    let mut r = String::from_str("botglue-");
    r.append(short);
    proof {
        assert(env_id@.subrange(0, k as int) =~= env_id@.take(
            if env_id@.len() <= 8 { env_id@.len() as int } else { 8 },
        ));
    }
    r
}

pub open spec fn spec_digit_char(d: int) -> char {
    if d == 0 { '0' }
    else if d == 1 { '1' }
    else if d == 2 { '2' }
    else if d == 3 { '3' }
    else if d == 4 { '4' }
    else if d == 5 { '5' }
    else if d == 6 { '6' }
    else if d == 7 { '7' }
    else if d == 8 { '8' }
    else { '9' }
}

/// The usual base-ten rendering of a non-negative number, most significant
/// digit first.
pub open spec fn spec_decimal(n: int) -> Seq<char>
    decreases n,
{
    if n < 10 {
        seq![spec_digit_char(n)]
    } else {
        spec_decimal(n / 10) + seq![spec_digit_char(n % 10)]
    }
}

fn digit_str(d: u16) -> (r: &'static str)
    requires
        d < 10,
    ensures
        r@ == seq![spec_digit_char(d as int)],
{
    if d == 0 {
        proof { reveal_strlit("0"); }
        assert("0"@ =~= seq!['0']);
        "0"
    } else if d == 1 {
        proof { reveal_strlit("1"); }
        assert("1"@ =~= seq!['1']);
        "1"
    } else if d == 2 {
        proof { reveal_strlit("2"); }
        assert("2"@ =~= seq!['2']);
        "2"
    } else if d == 3 {
        proof { reveal_strlit("3"); }
        assert("3"@ =~= seq!['3']);
        "3"
    } else if d == 4 {
        proof { reveal_strlit("4"); }
        assert("4"@ =~= seq!['4']);
        "4"
    } else if d == 5 {
        proof { reveal_strlit("5"); }
        assert("5"@ =~= seq!['5']);
        "5"
    } else if d == 6 {
        proof { reveal_strlit("6"); }
        assert("6"@ =~= seq!['6']);
        "6"
    } else if d == 7 {
        proof { reveal_strlit("7"); }
        assert("7"@ =~= seq!['7']);
        "7"
    } else if d == 8 {
        proof { reveal_strlit("8"); }
        assert("8"@ =~= seq!['8']);
        "8"
    } else {
        proof { reveal_strlit("9"); }
        assert("9"@ =~= seq!['9']);
        "9"
    }
}

/// A port number as decimal text.
pub fn decimal_string(n: u16) -> (r: String)
    ensures
        r@ == spec_decimal(n as int),
    decreases n,
{
    if n < 10 {
        let mut s = String::new();
        s.append(digit_str(n));
        proof {
            assert(Seq::<char>::empty() + seq![spec_digit_char(n as int)] =~= seq![
                spec_digit_char(n as int),
            ]);
        }
        s
    } else {
        let mut s = decimal_string(n / 10);
        s.append(digit_str(n % 10));
        s
    }
}

/// A `-p` publication argument: `host:container`.
pub open spec fn spec_port_arg(host: u16, container: u16) -> Seq<char> {
    spec_decimal(host as int) + ":"@ + spec_decimal(container as int)
}

fn port_arg(host: u16, container: u16) -> (r: String)
    ensures
        r@ == spec_port_arg(host, container),
{
    let mut s = decimal_string(host);
    s.append(":");
    let c = decimal_string(container);
    s.append(c.as_str());
    s
}

/// The views of a sequence of argument strings, in order.
pub open spec fn str_views(s: Seq<String>) -> Seq<Seq<char>> {
    s.map_values(|x: String| x@)
}

/// The `-p host:container` pairs contributed by the bindings that carry a
/// resolved host port, in binding order.
pub open spec fn spec_port_args(ports: Seq<PortMappingView>) -> Seq<Seq<char>>
    decreases ports.len(),
{
    if ports.len() == 0 {
        Seq::empty()
    } else {
        spec_port_args(ports.drop_last()) + (match ports.last().host_port {
            Some(h) => seq!["-p"@, spec_port_arg(h, ports.last().container_port)],
            None => Seq::<Seq<char>>::empty(),
        })
    }
}

/// The full argument list of the container-creating invocation:
/// `run -d --name <name> [-p host:container]* <image> sleep infinity`.
pub open spec fn spec_run_args(
    name: Seq<char>,
    image: Seq<char>,
    ports: Seq<PortMappingView>,
) -> Seq<Seq<char>> {
    seq!["run"@, "-d"@, "--name"@, name] + spec_port_args(ports) + seq![
        image,
        "sleep"@,
        "infinity"@,
    ]
}

/// Build the argument list for creating a long-running container, falling
/// back to the default image when none is named.
pub fn create_container_args(
    name: &str,
    image: Option<&str>,
    port_bindings: &Vec<PortMapping>,
) -> (r: Vec<String>)
    ensures
        str_views(r@) == spec_run_args(
            name@,
            match image {
                Some(im) => im@,
                None => "ubuntu:22.04"@,
            },
            pm_views(port_bindings@),
        ),
{
    let ghost pms = pm_views(port_bindings@);
    let mut args: Vec<String> = Vec::new();
    args.push(String::from_str("run"));
    args.push(String::from_str("-d"));
    args.push(String::from_str("--name"));
    args.push(String::from_str(name));
    proof {
        assert(str_views(args@) =~= seq!["run"@, "-d"@, "--name"@, name@]);
        assert(pms.take(0) =~= Seq::<PortMappingView>::empty());
        assert(seq!["run"@, "-d"@, "--name"@, name@] + Seq::<Seq<char>>::empty() =~= str_views(
            args@,
        ));
    }
    let n = port_bindings.len();
    let mut i: usize = 0;
    while i < n
        invariant
            i <= n,
            n == port_bindings.len(),
            pms == pm_views(port_bindings@),
            str_views(args@) == seq!["run"@, "-d"@, "--name"@, name@] + spec_port_args(
                pms.take(i as int),
            ),
        decreases n - i,
    {
        let ghost args0 = args@;
        let m = &port_bindings[i];
        proof {
            assert(pms.take(i as int + 1).drop_last() =~= pms.take(i as int));
            assert(pms.take(i as int + 1).last() == m@);
        }
        match m.host_port {
            Some(h) => {
                args.push(String::from_str("-p"));
                let a = port_arg(h, m.container_port);
                args.push(a);
                proof {
                    assert(str_views(args@) =~= str_views(args0) + seq!["-p"@, spec_port_arg(
                        h,
                        m@.container_port,
                    )]);
                    assert(str_views(args@) =~= seq!["run"@, "-d"@, "--name"@, name@]
                        + spec_port_args(pms.take(i as int + 1)));
                }
            },
            None => {
                proof {
                    assert(str_views(args@) + Seq::<Seq<char>>::empty() =~= str_views(args@));
                }
            },
        }
        i = i + 1;
    }
    proof {
        assert(pms.take(n as int) =~= pms);
    }
    let img = match image {
        Some(im) => String::from_str(im),
        None => String::from_str("ubuntu:22.04"),
    };
    let ghost args1 = args@;
    args.push(img);
    args.push(String::from_str("sleep"));
    args.push(String::from_str("infinity"));
    proof {
        let imv = match image {
            Some(im) => im@,
            None => "ubuntu:22.04"@,
        };
        assert(str_views(args@) =~= str_views(args1) + seq![imv, "sleep"@, "infinity"@]);
        assert(str_views(args@) =~= spec_run_args(name@, imv, pms));
    }
    args
}

/// Batched output of an in-container command: standard output first, then
/// standard error, with an empty side dropped.
pub open spec fn spec_combined_output(out: Seq<char>, err: Seq<char>) -> Seq<char> {
    if err.len() == 0 {
        out
    } else if out.len() == 0 {
        err
    } else {
        out + err
    }
}

/// What `str::trim` leaves: the characters with leading and trailing
/// whitespace removed. Whitespace here is Unicode's, which only the
/// standard library states in full, so the result is named rather than
/// restated.
pub uninterp spec fn trim_of(s: Seq<char>) -> Seq<char>;

/// Relies on `str::trim`: leading and trailing whitespace removed — a
/// subslice of the input, so never longer — depending on the characters
/// alone.
#[verifier::external_body]
fn trim_string(s: &str) -> (r: String)
    ensures
        r@ == trim_of(s@),
        r@.len() <= s@.len(),
{
    s.trim().to_string()
}

/// How a finished runtime invocation is read: a launch failure is
/// `NotInstalled`, whatever else happened; a non-zero exit is
/// `CommandFailed` carrying the command text, the trimmed standard error
/// and the exit code, with -1 standing in when a signal ended the process;
/// on success the trimmed standard output (a container id, a version line)
/// is the answer.
pub fn classify_outcome(
    launched: bool,
    success: bool,
    exit_code: Option<i32>,
    stdout: &str,
    stderr: &str,
    command: String,
) -> (r: Result<String, PodmanError>)
    ensures
        match r {
            Ok(out) => launched && success && out@ == trim_of(stdout@),
            Err(e) => match e {
                PodmanError::NotInstalled => !launched,
                PodmanError::CommandFailed { command: c, stderr: se, exit_code: ec } => {
                    &&& launched
                    &&& !success
                    &&& c@ == command@
                    &&& se@ == trim_of(stderr@)
                    &&& ec == (match exit_code {
                        Some(x) => x,
                        None => -1i32,
                    })
                },
                PodmanError::ParseError(_) => false,
            },
        },
{
    if !launched {
        Err(PodmanError::NotInstalled)
    } else if !success {
        Err(
            PodmanError::CommandFailed {
                command,
                stderr: trim_string(stderr),
                exit_code: match exit_code {
                    Some(x) => x,
                    None => -1,
                },
            },
        )
    } else {
        Ok(trim_string(stdout))
    }
}

pub fn combine_output(stdout: String, stderr: String) -> (r: String)
    ensures
        r@ == spec_combined_output(stdout@, stderr@),
{
    if stderr.as_str().is_empty() {
        stdout
    } else if stdout.as_str().is_empty() {
        stderr
    } else {
        stdout.concat(stderr.as_str())
    }
}

} // verus!
