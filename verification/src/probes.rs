//! Which ports of which pods to probe, and what a probe shows.
use crate::error::{KubeError, LornError};
use crate::objects::{copy_name_or, Pod, PodSpec, ReplicaSet, Service, ServicePort};
#[allow(unused_imports)]
use crate::objects::{listed, name_or, ServiceSpec};
use crate::outcome::join;
#[allow(unused_imports)]
use crate::outcome::{both, joined, law_all_or_nothing, law_joined, viewed};
#[allow(unused_imports)]
use crate::privileges::{owner_of, unbindable_target};
use crate::privileges::{owner_workload_for_pod, resolve_target_port};
#[allow(unused_imports)]
use crate::search::{lemma_filter_holds, lemma_flat_map_contains};
#[allow(unused_imports)]
use crate::string_map::selects;
use crate::text::{comes_before, contains, eq_ignore_ascii_case, lower, same};
#[allow(unused_imports)]
use crate::text::{
    holds_text, law_ascii_case, law_search, lemma_precedes_asymmetric, lemma_precedes_total,
    lemma_precedes_transitive, lowered, precedes, same_ignoring_ascii_case,
};
use vstd::prelude::*;

verus! {

/// What a probe showed of a port.
#[derive(Debug, Clone, Copy, PartialEq, Eq, Structural)]
pub enum PortBindState {
    /// Something is bound to the port.
    Bound,
    /// The connection was refused: nothing listens.
    Unbound,
    /// The probe did not decide.
    Unknown,
}

impl PortBindState {
    /// The word for the state.
    pub open spec fn word(self) -> Seq<char> {
        match self {
            PortBindState::Bound => "bound"@,
            PortBindState::Unbound => "unbound"@,
            PortBindState::Unknown => "unknown"@,
        }
    }

    /// The word for the state.
    pub fn to_string(&self) -> (text: String)
        ensures
            text@ == self.word(),
    {
        match self {
            PortBindState::Bound => "bound".to_owned(),
            PortBindState::Unbound => "unbound".to_owned(),
            PortBindState::Unknown => "unknown".to_owned(),
        }
    }
}

/// What happens in the course of a probe.
#[derive(Debug)]
pub enum ProbeEvent {
    /// A probe of a port is asked for.
    Requested { protocol: String, port: i32 },
    /// The port could not be forwarded.
    ForwardFailed,
    /// The forwarded port does not report errors.
    ErrorsUnavailable,
    /// The forwarded port reported an error in time.
    Reported(String),
    /// The forwarded port closed in time without an error.
    Closed,
    /// No error was reported in time.
    TimedOut,
}

/// How many seconds a forwarded port is watched for an error. A refusal shows
/// up nearly at once, so a port without an error in this time counts as bound.
pub const WATCH_SECONDS: u64 = 5;

/// What to do in the course of a probe.
#[derive(Debug)]
pub enum ProbeAction {
    /// Forward the port and wait for so many seconds for it to report an error.
    Forward { port: u16, seconds: u64 },
    /// The probe is over.
    Conclude(PortBindState),
}

/// Whether an error, in lower case, says that the connection was refused.
pub open spec fn says_refused(message: Seq<char>) -> bool {
    holds_text(message, "connection refused"@)
}

/// What an error, in lower case, shows of a port.
pub open spec fn shown_by_error(message: Seq<char>) -> PortBindState {
    if says_refused(message) {
        PortBindState::Unbound
    } else {
        PortBindState::Unknown
    }
}

/// What follows on an event. Only TCP ports can be probed, each for
/// `WATCH_SECONDS`. A refused connection shows that nothing is bound; any other
/// error shows nothing.
pub open spec fn probe_action(event: ProbeEvent) -> ProbeAction {
    match event {
        ProbeEvent::Requested { protocol, port } => if same_ignoring_ascii_case(
            protocol@,
            "tcp"@,
        ) && 0 <= port <= u16::MAX {
            ProbeAction::Forward { port: port as u16, seconds: WATCH_SECONDS }
        } else {
            ProbeAction::Conclude(PortBindState::Unknown)
        },
        ProbeEvent::ForwardFailed => ProbeAction::Conclude(PortBindState::Unknown),
        ProbeEvent::ErrorsUnavailable => ProbeAction::Conclude(PortBindState::Unknown),
        ProbeEvent::Reported(message) => if says_refused(lowered(message@)) {
            ProbeAction::Conclude(PortBindState::Unbound)
        } else {
            ProbeAction::Conclude(PortBindState::Unknown)
        },
        ProbeEvent::Closed => ProbeAction::Conclude(PortBindState::Bound),
        ProbeEvent::TimedOut => ProbeAction::Conclude(PortBindState::Bound),
    }
}

/// What an error, given in lower case, shows of a port.
pub fn state_of_error(message: &str) -> (state: PortBindState)
    ensures
        state == if says_refused(message@) {
            PortBindState::Unbound
        } else {
            PortBindState::Unknown
        },
        state == shown_by_error(message@),
{
    if contains(message, "connection refused") {
        PortBindState::Unbound
    } else {
        PortBindState::Unknown
    }
}

/// What to do next to confirm that a port of a pod is bound.
pub fn confirm_bound_port(event: &ProbeEvent) -> (action: ProbeAction)
    ensures
        action == probe_action(*event),
{
    match event {
        ProbeEvent::Requested { protocol, port } => {
            if eq_ignore_ascii_case(protocol.as_str(), "tcp") && 0 <= *port && *port
                <= u16::MAX as i32 {
                ProbeAction::Forward { port: *port as u16, seconds: WATCH_SECONDS }
            } else {
                ProbeAction::Conclude(PortBindState::Unknown)
            }
        },
        ProbeEvent::ForwardFailed => ProbeAction::Conclude(PortBindState::Unknown),
        ProbeEvent::ErrorsUnavailable => ProbeAction::Conclude(PortBindState::Unknown),
        ProbeEvent::Reported(message) => ProbeAction::Conclude(
            state_of_error(lower(message.as_str()).as_str()),
        ),
        ProbeEvent::Closed => ProbeAction::Conclude(PortBindState::Bound),
        ProbeEvent::TimedOut => ProbeAction::Conclude(PortBindState::Bound),
    }
}

/// A probe finds a port unbound only where its error says that the connection
/// was refused, and asks to forward a port only at its start.
pub proof fn law_unbound_only_when_refused(event: ProbeEvent)
    ensures
        probe_action(event) == ProbeAction::Conclude(PortBindState::Unbound) <==> (
        event matches ProbeEvent::Reported(message) && says_refused(lowered(message@))),
        probe_action(event) is Forward ==> event is Requested,
{
}

/// Whether a target comes before another: by its port, then by its protocol.
pub open spec fn target_before(a: (i32, Seq<char>), b: (i32, Seq<char>)) -> bool {
    a.0 < b.0 || (a.0 == b.0 && precedes(a.1, b.1))
}

/// Whether each target comes before those that stand behind it.
pub open spec fn ascending(row: Seq<(i32, Seq<char>)>) -> bool {
    forall|i: int, j: int|
        0 <= i < j < row.len() ==> target_before(#[trigger] row[i], #[trigger] row[j])
}

/// The target of a service port in a pod, if it is below 1024 and the pod may
/// not bind it: the port and the protocol.
pub open spec fn port_target(sp: ServicePort, spec: PodSpec) -> Option<(i32, Seq<char>)> {
    match unbindable_target(sp, spec) {
        Some(port) => Some((port, name_or(sp.protocol, "TCP"@))),
        None => None,
    }
}

/// Whether one of the service ports has the given target in a pod.
pub open spec fn has_target(
    ports: Seq<ServicePort>,
    spec: PodSpec,
    target: (i32, Seq<char>),
) -> bool {
    exists|i: int| 0 <= i < ports.len() && port_target(#[trigger] ports[i], spec) == Some(target)
}

/// Whether `row` holds the targets of the service ports in a pod: all of
/// them, each once, in ascending order.
pub open spec fn lists_targets(
    row: Seq<(i32, Seq<char>)>,
    ports: Seq<ServicePort>,
    spec: PodSpec,
) -> bool {
    &&& ascending(row)
    &&& forall|target: (i32, Seq<char>)| #[trigger]
        row.contains(target) <==> has_target(ports, spec, target)
}

/// The targets of the service ports in a pod: all of them, each once, in
/// ascending order.
pub open spec fn target_row(ports: Seq<ServicePort>, spec: PodSpec) -> Seq<(i32, Seq<char>)> {
    choose|row: Seq<(i32, Seq<char>)>| lists_targets(row, ports, spec)
}

/// Of two different targets one comes before the other, and not both.
proof fn lemma_target_order(a: (i32, Seq<char>), b: (i32, Seq<char>))
    ensures
        a == b || target_before(a, b) || target_before(b, a),
        !(target_before(a, b) && target_before(b, a)),
        !target_before(a, a),
{
    lemma_precedes_total(a.1, b.1);
    lemma_precedes_asymmetric(a.1, b.1);
}

/// What comes before a target comes before all that is behind it.
proof fn lemma_target_transitive(
    a: (i32, Seq<char>),
    b: (i32, Seq<char>),
    c: (i32, Seq<char>),
)
    requires
        target_before(a, b),
        target_before(b, c),
    ensures
        target_before(a, c),
{
    if a.0 == b.0 && b.0 == c.0 {
        lemma_precedes_transitive(a.1, b.1, c.1);
    }
}

/// A target put between those before it and those behind it.
proof fn lemma_insert_target(row: Seq<(i32, Seq<char>)>, at: int, target: (i32, Seq<char>))
    requires
        ascending(row),
        0 <= at <= row.len(),
        at > 0 ==> target_before(row[at - 1], target),
        at < row.len() ==> target_before(target, row[at]),
    ensures
        ascending(row.insert(at, target)),
        forall|t: (i32, Seq<char>)| #[trigger]
            row.insert(at, target).contains(t) <==> row.contains(t) || t == target,
{
    let longer = row.insert(at, target);
    assert forall|j: int| 0 <= j < at implies target_before(#[trigger] row[j], target) by {
        if j < at - 1 {
            lemma_target_transitive(row[j], row[at - 1], target);
        }
    }
    assert forall|j: int| at <= j < row.len() implies target_before(target, #[trigger] row[j]) by {
        if j > at {
            lemma_target_transitive(target, row[at], row[j]);
        }
    }
    assert forall|i: int, j: int| 0 <= i < j < longer.len() implies target_before(
        #[trigger] longer[i],
        #[trigger] longer[j],
    ) by {
        if i != at {
            assert(longer[i] == row[if i < at { i } else { i - 1 }]);
        }
        if j != at {
            assert(longer[j] == row[if j < at { j } else { j - 1 }]);
        }
    }
    assert forall|t: (i32, Seq<char>)| #[trigger] longer.contains(t) <==> row.contains(t) || t
        == target by {
        assert(longer[at] == target);
        if row.contains(t) {
            let k = choose|k: int| 0 <= k < row.len() && row[k] == t;
            assert(longer[if k < at { k } else { k + 1 }] == t);
        }
        if longer.contains(t) {
            let k = choose|k: int| 0 <= k < longer.len() && longer[k] == t;
            if k != at {
                assert(row[if k < at { k } else { k - 1 }] == t);
            }
        }
    }
}

/// One more service port adds its target, if it has one.
proof fn lemma_has_target_push(ports: Seq<ServicePort>, sp: ServicePort, spec: PodSpec)
    ensures
        forall|t: (i32, Seq<char>)| #[trigger]
            has_target(ports.push(sp), spec, t) <==> has_target(ports, spec, t) || port_target(
                sp,
                spec,
            ) == Some(t),
{
    let longer = ports.push(sp);
    assert forall|t: (i32, Seq<char>)| #[trigger]
        has_target(longer, spec, t) <==> has_target(ports, spec, t) || port_target(sp, spec)
            == Some(t) by {
        assert(longer[ports.len() as int] == sp);
        if has_target(ports, spec, t) {
            let i = choose|i: int|
                0 <= i < ports.len() && port_target(#[trigger] ports[i], spec) == Some(t);
            assert(longer[i] == ports[i]);
        }
        if has_target(longer, spec, t) {
            let i = choose|i: int|
                0 <= i < longer.len() && port_target(#[trigger] longer[i], spec) == Some(t);
            assert(i < ports.len() ==> longer[i] == ports[i]);
        }
    }
}

/// Where a target that is not in an ascending row belongs in it.
proof fn lemma_place(row: Seq<(i32, Seq<char>)>, target: (i32, Seq<char>)) -> (at: int)
    requires
        ascending(row),
        !row.contains(target),
    ensures
        0 <= at <= row.len(),
        at > 0 ==> target_before(row[at - 1], target),
        at < row.len() ==> target_before(target, row[at]),
    decreases row.len(),
{
    if row.len() == 0 {
        0
    } else {
        lemma_target_order(row.last(), target);
        assert(row.contains(row.last()));
        if target_before(row.last(), target) {
            row.len() as int
        } else {
            let rest = row.drop_last();
            assert forall|i: int, j: int| 0 <= i < j < rest.len() implies target_before(
                #[trigger] rest[i],
                #[trigger] rest[j],
            ) by {
                assert(rest[i] == row[i] && rest[j] == row[j]);
            }
            assert(!rest.contains(target)) by {
                if rest.contains(target) {
                    let k = choose|k: int| 0 <= k < rest.len() && rest[k] == target;
                    assert(row[k] == target);
                }
            }
            let at = lemma_place(rest, target);
            if at > 0 {
                assert(rest[at - 1] == row[at - 1]);
            }
            if at < rest.len() {
                assert(rest[at] == row[at]);
            }
            at
        }
    }
}

/// Some row lists the targets.
proof fn lemma_row_exists(ports: Seq<ServicePort>, spec: PodSpec) -> (row: Seq<(i32, Seq<char>)>)
    ensures
        lists_targets(row, ports, spec),
    decreases ports.len(),
{
    if ports.len() == 0 {
        Seq::empty()
    } else {
        let rest = lemma_row_exists(ports.drop_last(), spec);
        lemma_has_target_push(ports.drop_last(), ports.last(), spec);
        assert(ports.drop_last().push(ports.last()) =~= ports);
        match port_target(ports.last(), spec) {
            Some(target) => if rest.contains(target) {
                rest
            } else {
                let at = lemma_place(rest, target);
                lemma_insert_target(rest, at, target);
                rest.insert(at, target)
            },
            None => rest,
        }
    }
}

/// Two ascending rows with the same targets are the same row.
proof fn lemma_row_unique(a: Seq<(i32, Seq<char>)>, b: Seq<(i32, Seq<char>)>)
    requires
        ascending(a),
        ascending(b),
        forall|t: (i32, Seq<char>)| #[trigger] a.contains(t) <==> b.contains(t),
    ensures
        a == b,
    decreases a.len(),
{
    if a.len() == 0 {
        if b.len() > 0 {
            assert(b.contains(b[0]));
            assert(a.contains(b[0]));
        }
        assert(a =~= b);
    } else {
        assert(a.contains(a.last()));
        assert(b.len() > 0);
        assert(b.contains(b.last()));
        assert(a.contains(b.last()));
        let i = choose|i: int| 0 <= i < b.len() && b[i] == a.last();
        let j = choose|j: int| 0 <= j < a.len() && a[j] == b.last();
        lemma_target_order(a.last(), b.last());
        assert(a.last() == b.last());
        let x = a.drop_last();
        let y = b.drop_last();
        assert forall|t: (i32, Seq<char>)| #[trigger] x.contains(t) <==> y.contains(t) by {
            lemma_contains_drop_last(a, t);
            lemma_contains_drop_last(b, t);
        }
        assert(ascending(x)) by {
            assert forall|i: int, j: int| 0 <= i < j < x.len() implies target_before(
                #[trigger] x[i],
                #[trigger] x[j],
            ) by {
                assert(x[i] == a[i] && x[j] == a[j]);
            }
        }
        assert(ascending(y)) by {
            assert forall|i: int, j: int| 0 <= i < j < y.len() implies target_before(
                #[trigger] y[i],
                #[trigger] y[j],
            ) by {
                assert(y[i] == b[i] && y[j] == b[j]);
            }
        }
        lemma_row_unique(x, y);
        assert(a =~= x.push(a.last()));
        assert(b =~= y.push(b.last()));
    }
}

/// An ascending row without its last target holds all targets but that one.
proof fn lemma_contains_drop_last(row: Seq<(i32, Seq<char>)>, t: (i32, Seq<char>))
    requires
        ascending(row),
        row.len() > 0,
    ensures
        row.drop_last().contains(t) <==> row.contains(t) && t != row.last(),
{
    let rest = row.drop_last();
    if rest.contains(t) {
        let k = choose|k: int| 0 <= k < rest.len() && rest[k] == t;
        assert(row[k] == t);
        lemma_target_order(t, t);
        assert(target_before(row[k], row[row.len() - 1]));
    }
    if row.contains(t) && t != row.last() {
        let k = choose|k: int| 0 <= k < row.len() && row[k] == t;
        assert(rest[k] == t);
    }
}

/// There is exactly one row that lists the targets of service ports in a pod:
/// all of them, each once, in ascending order.
pub proof fn law_one_target_row(
    ports: Seq<ServicePort>,
    spec: PodSpec,
    row: Seq<(i32, Seq<char>)>,
)
    ensures
        lists_targets(target_row(ports, spec), ports, spec),
        lists_targets(row, ports, spec) ==> row == target_row(ports, spec),
{
    let some = lemma_row_exists(ports, spec);
    assert(lists_targets(some, ports, spec));
    let chosen = target_row(ports, spec);
    if lists_targets(row, ports, spec) {
        assert forall|t: (i32, Seq<char>)| #[trigger] row.contains(t) <==> chosen.contains(t) by {
            assert(row.contains(t) <==> has_target(ports, spec, t));
            assert(chosen.contains(t) <==> has_target(ports, spec, t));
        }
        lemma_row_unique(row, chosen);
    }
}

/// Whether a target comes before another.
fn comes_first(a: &(i32, String), b: &(i32, String)) -> (before: bool)
    ensures
        before == target_before(a.deep_view(), b.deep_view()),
{
    a.0 < b.0 || (a.0 == b.0 && comes_before(a.1.as_str(), b.1.as_str()))
}

/// The ports below 1024 that service ports send to in a pod which may not
/// bind them, with their protocols: each once, in ascending order.
pub fn privileged_targets(ports: &Vec<ServicePort>, spec: &PodSpec) -> (row: Vec<(i32, String)>)
    ensures
        lists_targets(row.deep_view(), ports@, *spec),
        row.deep_view() == target_row(ports@, *spec),
{
    let mut row: Vec<(i32, String)> = Vec::new();
    let mut i: usize = 0;
    while i < ports.len()
        invariant
            i <= ports.len(),
            lists_targets(row.deep_view(), ports@.take(i as int), *spec),
        decreases ports.len() - i,
    {
        let ghost before = row.deep_view();
        proof {
            assert(ports@.take(i + 1) =~= ports@.take(i as int).push(ports@[i as int]));
            lemma_has_target_push(ports@.take(i as int), ports@[i as int], *spec);
        }
        if let Some(port) = resolve_target_port(&ports[i], spec) {
            let target = (port, copy_name_or(&ports[i].protocol, "TCP"));
            let ghost wanted = target.deep_view();
            let mut at: usize = 0;
            while at < row.len() && comes_first(&row[at], &target)
                invariant
                    at <= row.len(),
                    row.deep_view() == before,
                    wanted == target.deep_view(),
                    at > 0 ==> target_before(before[at - 1], wanted),
                decreases row.len() - at,
            {
                assert(before[at as int] == row@[at as int].deep_view());
                at += 1;
            }
            let known = at < row.len() && row[at].0 == target.0 && same(
                row[at].1.as_str(),
                target.1.as_str(),
            );
            if known {
                assert(before[at as int] == wanted);
                assert(before.contains(wanted));
            } else {
                proof {
                    if at < row.len() {
                        assert(before[at as int] == row@[at as int].deep_view());
                        lemma_target_order(before[at as int], wanted);
                    }
                    lemma_insert_target(before, at as int, wanted);
                }
                row.insert(at, target);
                assert(row.deep_view() =~= before.insert(at as int, wanted));
            }
        }
        i += 1;
    }
    proof {
        assert(ports@.take(ports.len() as int) =~= ports@);
        law_one_target_row(ports@, *spec, row.deep_view());
    }
    row
}

/// A port of a pod to probe.
#[derive(Debug)]
pub struct PortProbe {
    pub service_name: String,
    pub pod_name: String,
    pub port: i32,
    pub protocol: String,
    pub owner_kind: String,
    pub owner_name: String,
}

/// A port of a pod to probe, as text.
pub ghost struct PortProbeView {
    pub service_name: Seq<char>,
    pub pod_name: Seq<char>,
    pub port: i32,
    pub protocol: Seq<char>,
    pub owner_kind: Seq<char>,
    pub owner_name: Seq<char>,
}

impl DeepView for PortProbe {
    type V = PortProbeView;

    open spec fn deep_view(&self) -> PortProbeView {
        PortProbeView {
            service_name: self.service_name@,
            pod_name: self.pod_name@,
            port: self.port,
            protocol: self.protocol@,
            owner_kind: self.owner_kind@,
            owner_name: self.owner_name@,
        }
    }
}

/// Whether a service sends to a pod: it has a selector that is not empty, and
/// the pod has every label of it.
pub open spec fn sends_to(spec: ServiceSpec, pod: Pod) -> bool {
    match (spec.selector, pod.metadata.labels) {
        (Some(selector), Some(labels)) => selector@ != Map::<Seq<char>, String>::empty() && selects(
            selector@,
            labels@,
        ),
        _ => false,
    }
}

/// The probe of a target.
pub open spec fn probe_of(
    service: Service,
    pod: Pod,
    sets: Seq<ReplicaSet>,
    target: (i32, Seq<char>),
) -> PortProbeView {
    PortProbeView {
        service_name: name_or(service.metadata.name, "<unnamed>"@),
        pod_name: name_or(pod.metadata.name, "<unnamed>"@),
        port: target.0,
        protocol: target.1,
        owner_kind: owner_of(pod, sets).0,
        owner_name: owner_of(pod, sets).1,
    }
}

/// The probes of a pod for a service: one for each target, where the service
/// sends to the pod.
pub open spec fn pod_probes(
    service: Service,
    pod: Pod,
    sets: Seq<ReplicaSet>,
) -> Seq<PortProbeView> {
    match (service.spec, pod.spec) {
        (Some(spec), Some(pod_spec)) => if sends_to(spec, pod) {
            target_row(listed(spec.ports), pod_spec).map_values(
                |target: (i32, Seq<char>)| probe_of(service, pod, sets, target),
            )
        } else {
            Seq::empty()
        },
        _ => Seq::empty(),
    }
}

/// The probes of all pods for a service.
pub open spec fn service_probes(
    service: Service,
    pods: Seq<Pod>,
    sets: Seq<ReplicaSet>,
) -> Seq<PortProbeView> {
    pods.flat_map(|pod: Pod| pod_probes(service, pod, sets))
}

/// The probes of one namespace: service by service, pod by pod.
pub open spec fn namespace_probes(
    services: Seq<Service>,
    pods: Seq<Pod>,
    sets: Seq<ReplicaSet>,
) -> Seq<PortProbeView> {
    services.flat_map(|service: Service| service_probes(service, pods, sets))
}

/// The probes of a pod for a service.
fn probes_of_pod(service: &Service, pod: &Pod, replicasets: &Vec<ReplicaSet>) -> (probes: Vec<
    PortProbe,
>)
    ensures
        probes.deep_view() == pod_probes(*service, *pod, replicasets@),
{
    let mut probes: Vec<PortProbe> = Vec::new();
    assert(probes.deep_view() =~= Seq::empty());
    let spec = match &service.spec {
        Some(spec) => spec,
        None => {
            return probes;
        },
    };
    let pod_spec = match &pod.spec {
        Some(pod_spec) => pod_spec,
        None => {
            return probes;
        },
    };
    let matched = match (&spec.selector, &pod.metadata.labels) {
        (Some(selector), Some(labels)) => !selector.is_empty() && selector.matches(labels),
        _ => false,
    };
    if !matched {
        return probes;
    }
    let ghost row = target_row(listed(spec.ports), *pod_spec);
    let targets = match &spec.ports {
        Some(ports) => privileged_targets(ports, pod_spec),
        None => {
            let none: Vec<ServicePort> = Vec::new();
            assert(none@ =~= listed(spec.ports));
            privileged_targets(&none, pod_spec)
        },
    };
    if targets.len() == 0 {
        assert(probes.deep_view() =~= pod_probes(*service, *pod, replicasets@));
        return probes;
    }
    let service_name = copy_name_or(&service.metadata.name, "<unnamed>");
    let pod_name = copy_name_or(&pod.metadata.name, "<unnamed>");
    let (owner_kind, owner_name) = owner_workload_for_pod(pod, replicasets);
    let ghost expected = pod_probes(*service, *pod, replicasets@);
    let mut i: usize = 0;
    while i < targets.len()
        invariant
            i <= targets.len(),
            targets.deep_view() == row,
            service_name@ == name_or(service.metadata.name, "<unnamed>"@),
            pod_name@ == name_or(pod.metadata.name, "<unnamed>"@),
            (owner_kind@, owner_name@) == owner_of(*pod, replicasets@),
            expected == row.map_values(
                |target: (i32, Seq<char>)| probe_of(*service, *pod, replicasets@, target),
            ),
            probes.deep_view() == expected.take(i as int),
        decreases targets.len() - i,
    {
        let ghost before = probes.deep_view();
        let probe = PortProbe {
            service_name: service_name.clone(),
            pod_name: pod_name.clone(),
            port: targets[i].0,
            protocol: targets[i].1.clone(),
            owner_kind: owner_kind.clone(),
            owner_name: owner_name.clone(),
        };
        probes.push(probe);
        proof {
            assert(row[i as int] == targets@[i as int].deep_view());
            assert(probes.deep_view() =~= before.push(probe.deep_view()));
            assert(expected.take(i + 1) =~= expected.take(i as int).push(expected[i as int]));
        }
        i += 1;
    }
    assert(expected.take(targets.len() as int) =~= expected);
    probes
}

/// The probes of all pods for a service.
fn probes_of_service(
    service: &Service,
    pods: &Vec<Pod>,
    replicasets: &Vec<ReplicaSet>,
) -> (probes: Vec<PortProbe>)
    ensures
        probes.deep_view() == service_probes(*service, pods@, replicasets@),
{
    let ghost each = |pod: Pod| pod_probes(*service, pod, replicasets@);
    let mut probes: Vec<PortProbe> = Vec::new();
    let mut i: usize = 0;
    assert(probes.deep_view() =~= pods@.take(0).flat_map(each));
    while i < pods.len()
        invariant
            i <= pods.len(),
            each == (|pod: Pod| pod_probes(*service, pod, replicasets@)),
            probes.deep_view() == pods@.take(i as int).flat_map(each),
        decreases pods.len() - i,
    {
        let ghost before = probes.deep_view();
        let mut more = probes_of_pod(service, &pods[i], replicasets);
        let ghost added = more.deep_view();
        probes.append(&mut more);
        proof {
            assert(probes.deep_view() =~= before + added);
            pods@.lemma_flat_map_take_append(each, i as int);
        }
        i += 1;
    }
    assert(pods@.take(pods.len() as int) =~= pods@);
    probes
}

/// The probes of one namespace, service by service.
fn probes_of_services(
    services: &Vec<Service>,
    pods: &Vec<Pod>,
    replicasets: &Vec<ReplicaSet>,
) -> (probes: Vec<PortProbe>)
    ensures
        probes.deep_view() == namespace_probes(services@, pods@, replicasets@),
{
    let ghost each = |service: Service| service_probes(service, pods@, replicasets@);
    let mut probes: Vec<PortProbe> = Vec::new();
    let mut i: usize = 0;
    assert(probes.deep_view() =~= services@.take(0).flat_map(each));
    while i < services.len()
        invariant
            i <= services.len(),
            each == (|service: Service| service_probes(service, pods@, replicasets@)),
            probes.deep_view() == services@.take(i as int).flat_map(each),
        decreases services.len() - i,
    {
        let ghost before = probes.deep_view();
        let mut more = probes_of_service(&services[i], pods, replicasets);
        let ghost added = more.deep_view();
        probes.append(&mut more);
        proof {
            assert(probes.deep_view() =~= before + added);
            services@.lemma_flat_map_take_append(each, i as int);
        }
        i += 1;
    }
    assert(services@.take(services.len() as int) =~= services@);
    probes
}

/// The probes of one namespace, or the error of the first of its lists that
/// failed.
pub open spec fn probes_outcome(
    services: Result<Vec<Service>, KubeError>,
    pods: Result<Vec<Pod>, KubeError>,
    replicasets: Result<Vec<ReplicaSet>, KubeError>,
) -> Result<Seq<PortProbeView>, LornError> {
    match (services, pods, replicasets) {
        (Ok(services), Ok(pods), Ok(replicasets)) => Ok(
            namespace_probes(services@, pods@, replicasets@),
        ),
        (Err(error), _, _) => Err(LornError::Kube(error)),
        (_, Err(error), _) => Err(LornError::Kube(error)),
        (_, _, Err(error)) => Err(LornError::Kube(error)),
    }
}

/// The probes of one namespace: for every service and every pod that it sends
/// to, the ports below 1024 that the pod may not bind. They come from what the
/// server answered to the lists of services, pods and replica sets.
pub fn probes_in_ns(
    services: Result<Vec<Service>, KubeError>,
    pods: Result<Vec<Pod>, KubeError>,
    replicasets: Result<Vec<ReplicaSet>, KubeError>,
) -> (probes: Result<Vec<PortProbe>, LornError>)
    ensures
        viewed(probes) == probes_outcome(services, pods, replicasets),
{
    match (services, pods, replicasets) {
        (Ok(services), Ok(pods), Ok(replicasets)) => Ok(
            probes_of_services(&services, &pods, &replicasets),
        ),
        (Err(error), _, _) => Err(LornError::Kube(error)),
        (_, Err(error), _) => Err(LornError::Kube(error)),
        (_, _, Err(error)) => Err(LornError::Kube(error)),
    }
}

/// A privileged port that a service sends to in a pod which may not bind it,
/// and that is not known to be unbound.
#[derive(Debug)]
pub struct PrivilegedServicePod {
    pub namespace: String,
    pub pod_name: String,
    pub service_name: String,
    pub port: i32,
    pub protocol: String,
    pub bind_state: PortBindState,
    /// The kind of the owning workload in lower case, such as `deployment`,
    /// or `pod` where the pod has no controller.
    pub owner_kind: String,
    pub owner_name: String,
}

/// A privileged port of a pod, as text.
pub ghost struct PrivilegedServicePodView {
    pub namespace: Seq<char>,
    pub probe: PortProbeView,
    pub bind_state: PortBindState,
}

impl DeepView for PrivilegedServicePod {
    type V = PrivilegedServicePodView;

    open spec fn deep_view(&self) -> PrivilegedServicePodView {
        PrivilegedServicePodView {
            namespace: self.namespace@,
            probe: PortProbeView {
                service_name: self.service_name@,
                pod_name: self.pod_name@,
                port: self.port,
                protocol: self.protocol@,
                owner_kind: self.owner_kind@,
                owner_name: self.owner_name@,
            },
            bind_state: self.bind_state,
        }
    }
}

impl DeepView for PortBindState {
    type V = PortBindState;

    open spec fn deep_view(&self) -> PortBindState {
        *self
    }
}

/// The hits of one namespace: every probe that did not find its port unbound,
/// in the order of the probes.
pub open spec fn namespace_findings(
    ns: Seq<char>,
    probed: Seq<(PortProbeView, PortBindState)>,
) -> Seq<PrivilegedServicePodView> {
    probed.filter(
        |result: (PortProbeView, PortBindState)| result.1 != PortBindState::Unbound,
    ).map_values(
        |result: (PortProbeView, PortBindState)|
            PrivilegedServicePodView { namespace: ns, probe: result.0, bind_state: result.1 },
    )
}

/// The hits among probes, each given with what it showed.
fn findings_of(
    ns: &str,
    probed: &Vec<(PortProbe, PortBindState)>,
) -> (hits: Vec<PrivilegedServicePod>)
    ensures
        hits.deep_view() == namespace_findings(ns@, probed.deep_view()),
{
    let ghost kept = |result: (PortProbeView, PortBindState)| result.1 != PortBindState::Unbound;
    let ghost all = probed.deep_view();
    let mut hits: Vec<PrivilegedServicePod> = Vec::new();
    let mut i: usize = 0;
    proof {
        assert(all.take(0) =~= Seq::empty());
        reveal(Seq::filter);
        assert(hits.deep_view() =~= namespace_findings(ns@, all.take(0)));
    }
    while i < probed.len()
        invariant
            i <= probed.len(),
            all == probed.deep_view(),
            kept == (|result: (PortProbeView, PortBindState)| result.1 != PortBindState::Unbound),
            hits.deep_view() == namespace_findings(ns@, all.take(i as int)),
        decreases probed.len() - i,
    {
        let ghost before = hits.deep_view();
        let (probe, bind_state) = &probed[i];
        if *bind_state != PortBindState::Unbound {
            let hit = PrivilegedServicePod {
                namespace: ns.to_owned(),
                pod_name: probe.pod_name.clone(),
                service_name: probe.service_name.clone(),
                port: probe.port,
                protocol: probe.protocol.clone(),
                bind_state: *bind_state,
                owner_kind: probe.owner_kind.clone(),
                owner_name: probe.owner_name.clone(),
            };
            hits.push(hit);
            assert(hits.deep_view() =~= before.push(hit.deep_view()));
        }
        proof {
            let result = all[i as int];
            assert(result == (probe.deep_view(), *bind_state));
            assert(all.take(i + 1) =~= all.take(i as int).push(result));
            all.take(i as int).lemma_filter_push(result, kept);
            let hit = PrivilegedServicePodView {
                namespace: ns@,
                probe: result.0,
                bind_state: result.1,
            };
            assert(namespace_findings(ns@, all.take(i + 1)) =~= if kept(result) {
                namespace_findings(ns@, all.take(i as int)).push(hit)
            } else {
                namespace_findings(ns@, all.take(i as int))
            });
        }
        i += 1;
    }
    assert(all.take(probed.len() as int) =~= all);
    hits
}

/// The probes of one namespace with what each of them showed, or why they could
/// not be made.
pub type Probed = Result<Vec<(PortProbe, PortBindState)>, LornError>;

/// The hits of one namespace, or the error that its probes failed with.
pub open spec fn ports_in_ns(ns: Seq<char>, probed: Probed) -> Result<
    Seq<PrivilegedServicePodView>,
    LornError,
> {
    match probed {
        Ok(probed) => Ok(namespace_findings(ns, probed.deep_view())),
        Err(error) => Err(error),
    }
}

/// The hits of one namespace, from its probes and what each of them showed.
pub fn find_privileged_service_pods_in_ns(ns: &str, probed: Probed) -> (hits: Result<
    Vec<PrivilegedServicePod>,
    LornError,
>)
    ensures
        viewed(hits) == ports_in_ns(ns@, probed),
{
    match probed {
        Ok(probed) => Ok(findings_of(ns, &probed)),
        Err(error) => Err(error),
    }
}

/// The outcomes of namespaces, each given with its name.
pub open spec fn ports_by_namespace(namespaces: Seq<(String, Probed)>) -> Seq<
    Result<Seq<PrivilegedServicePodView>, LornError>,
> {
    namespaces.map_values(|namespace: (String, Probed)| ports_in_ns(namespace.0@, namespace.1))
}

/// The hits of all namespaces, namespace by namespace; one that fails fails
/// the whole.
pub open spec fn ports_outcome(namespaces: Seq<(String, Probed)>) -> Result<
    Seq<PrivilegedServicePodView>,
    LornError,
> {
    joined(ports_by_namespace(namespaces))
}

/// The hits of all namespaces, namespace by namespace, where the probes of all
/// namespaces could be made.
pub fn find_privileged_service_pods(namespaces: Vec<(String, Probed)>) -> (hits: Result<
    Vec<PrivilegedServicePod>,
    LornError,
>)
    ensures
        viewed(hits) == ports_outcome(namespaces@),
{
    let ghost all = ports_by_namespace(namespaces@);
    let mut outcomes: Vec<Result<Vec<PrivilegedServicePod>, LornError>> = Vec::new();
    for namespace in it: namespaces
        invariant
            it.seq() == namespaces@,
            all == ports_by_namespace(namespaces@),
            outcomes.len() == it.index(),
            forall|j: int| 0 <= j < it.index() ==> viewed(#[trigger] outcomes@[j]) == all[j],
    {
        let (ns, probed) = namespace;
        outcomes.push(find_privileged_service_pods_in_ns(ns.as_str(), probed));
    }
    assert(outcomes@.map_values(
        |outcome: Result<Vec<PrivilegedServicePod>, LornError>| viewed(outcome),
    ) =~= all);
    join(outcomes)
}

/// No namespaces give no hits, one namespace gives its own outcome, and two
/// lists of namespaces give what each of them gives, one behind the other, or
/// a failure and no hits at all where either fails.
pub proof fn law_ports_joined(
    left: Seq<(String, Probed)>,
    right: Seq<(String, Probed)>,
    one: (String, Probed),
)
    ensures
        ports_outcome(Seq::empty()) == Ok::<Seq<PrivilegedServicePodView>, LornError>(
            Seq::empty(),
        ),
        ports_outcome(seq![one]) == ports_in_ns(one.0@, one.1),
        ports_outcome(left + right) == both(ports_outcome(left), ports_outcome(right)),
{
    law_joined(
        ports_by_namespace(left),
        ports_by_namespace(right),
        ports_in_ns(one.0@, one.1),
    );
    assert(ports_by_namespace(Seq::empty()) =~= Seq::empty());
    assert(ports_by_namespace(seq![one]) =~= seq![ports_in_ns(one.0@, one.1)]);
    assert(ports_by_namespace(left + right) =~= ports_by_namespace(left) + ports_by_namespace(
        right,
    ));
}

/// The hits come out exactly where the probes of every namespace could be
/// made; otherwise the error is that of a namespace.
pub proof fn law_ports_all_or_nothing(namespaces: Seq<(String, Probed)>)
    ensures
        ports_outcome(namespaces) is Ok <==> forall|i: int|
            0 <= i < namespaces.len() ==> (#[trigger] namespaces[i]).1 is Ok,
        ports_outcome(namespaces) matches Err(error) ==> exists|i: int|
            0 <= i < namespaces.len() && ((#[trigger] namespaces[i]).1 matches Err(own) && own
                == error),
{
    let outcomes = ports_by_namespace(namespaces);
    law_all_or_nothing(outcomes);
    if ports_outcome(namespaces) is Ok {
        assert forall|i: int| 0 <= i < namespaces.len() implies (
        #[trigger] namespaces[i]).1 is Ok by {
            assert(outcomes[i] is Ok);
        }
    } else {
        let error = ports_outcome(namespaces)->Err_0;
        let i = choose|i: int|
            0 <= i < outcomes.len() && #[trigger] outcomes[i] == Err::<
                Seq<PrivilegedServicePodView>,
                LornError,
            >(error);
        assert(namespaces[i].1 is Err);
    }
}

/// Whether `probe` is of a target of the service in the pod.
pub open spec fn is_probe_of(
    service: Service,
    pod: Pod,
    sets: Seq<ReplicaSet>,
    probe: PortProbeView,
) -> bool {
    match (service.spec, pod.spec) {
        (Some(spec), Some(pod_spec)) => {
            &&& sends_to(spec, pod)
            &&& has_target(listed(spec.ports), pod_spec, (probe.port, probe.protocol))
            &&& probe == probe_of(service, pod, sets, (probe.port, probe.protocol))
        },
        _ => false,
    }
}

/// The probes of a pod for a service are those of its targets.
proof fn lemma_pod_probes(service: Service, pod: Pod, sets: Seq<ReplicaSet>, probe: PortProbeView)
    ensures
        pod_probes(service, pod, sets).contains(probe) <==> is_probe_of(service, pod, sets, probe),
{
    let probes = pod_probes(service, pod, sets);
    if let (Some(spec), Some(pod_spec)) = (service.spec, pod.spec) {
        if sends_to(spec, pod) {
            let row = target_row(listed(spec.ports), pod_spec);
            law_one_target_row(listed(spec.ports), pod_spec, row);
            if probes.contains(probe) {
                let i = choose|i: int| 0 <= i < probes.len() && probes[i] == probe;
                assert(row[i] == (probe.port, probe.protocol));
                assert(row.contains(row[i]));
            }
            if is_probe_of(service, pod, sets, probe) {
                assert(row.contains((probe.port, probe.protocol)));
                let i = choose|i: int|
                    0 <= i < row.len() && row[i] == (probe.port, probe.protocol);
                assert(probes[i] == probe);
            }
        }
    }
}

/// The probes of a namespace are exactly those of the ports below 1024 that
/// one of its services sends to in one of its pods which may not bind them.
pub proof fn law_namespace_probes(
    services: Seq<Service>,
    pods: Seq<Pod>,
    sets: Seq<ReplicaSet>,
    probe: PortProbeView,
)
    ensures
        namespace_probes(services, pods, sets).contains(probe) <==> exists|i: int, j: int|
            0 <= i < services.len() && 0 <= j < pods.len() && is_probe_of(
                #[trigger] services[i],
                #[trigger] pods[j],
                sets,
                probe,
            ),
        namespace_probes(services, pods, sets).contains(probe) ==> probe.port < 1024,
{
    let of_service = |service: Service| service_probes(service, pods, sets);
    lemma_flat_map_contains(services, of_service, probe);
    assert forall|i: int| 0 <= i < services.len() implies of_service(
        #[trigger] services[i],
    ).contains(probe) == exists|j: int|
        0 <= j < pods.len() && is_probe_of(services[i], #[trigger] pods[j], sets, probe) by {
        let service = services[i];
        let of_pod = |pod: Pod| pod_probes(service, pod, sets);
        lemma_flat_map_contains(pods, of_pod, probe);
        assert forall|j: int| 0 <= j < pods.len() implies of_pod(#[trigger] pods[j]).contains(probe)
            == is_probe_of(service, pods[j], sets, probe) by {
            lemma_pod_probes(service, pods[j], sets, probe);
        }
    }
    if namespace_probes(services, pods, sets).contains(probe) {
        let (i, j) = choose|i: int, j: int|
            0 <= i < services.len() && 0 <= j < pods.len() && is_probe_of(
                #[trigger] services[i],
                #[trigger] pods[j],
                sets,
                probe,
            );
        let ports = listed(services[i].spec->0.ports);
        let k = choose|k: int|
            0 <= k < ports.len() && port_target(#[trigger] ports[k], pods[j].spec->0) == Some(
                (probe.port, probe.protocol),
            );
        assert(unbindable_target(ports[k], pods[j].spec->0) == Some(probe.port));
    }
}

/// A probe is reported with what it showed, unless it showed that nothing is
/// bound; nothing else is reported.
pub proof fn law_all_but_unbound_reported(
    ns: Seq<char>,
    probed: Seq<(PortProbeView, PortBindState)>,
    hit: PrivilegedServicePodView,
)
    ensures
        namespace_findings(ns, probed).contains(hit) <==> {
            &&& hit.namespace == ns
            &&& hit.bind_state != PortBindState::Unbound
            &&& probed.contains((hit.probe, hit.bind_state))
        },
{
    let kept = |result: (PortProbeView, PortBindState)| result.1 != PortBindState::Unbound;
    let left = probed.filter(kept);
    let hits = namespace_findings(ns, probed);
    let result = (hit.probe, hit.bind_state);
    lemma_filter_holds(probed, kept, result);
    if hits.contains(hit) {
        let i = choose|i: int| 0 <= i < hits.len() && hits[i] == hit;
        assert(left[i] == result);
        assert(left.contains(left[i]));
    }
    if hit.namespace == ns && left.contains(result) {
        let i = choose|i: int| 0 <= i < left.len() && left[i] == result;
        assert(hits[i] == hit);
    }
}

/// The probes of a namespace, each with what it shows of its port.
pub open spec fn probed_with(
    probes: Seq<PortProbeView>,
    state: spec_fn(PortProbeView) -> PortBindState,
) -> Seq<(PortProbeView, PortBindState)> {
    probes.map_values(|probe: PortProbeView| (probe, state(probe)))
}

/// Whatever the probes of a namespace show, the reported ports are exactly
/// those below 1024 that one of its services sends to in one of its pods which
/// may not bind them, each with what its probe shows, but for the ports that
/// are shown to be unbound.
pub proof fn law_privileged_ports_reported(
    ns: Seq<char>,
    services: Seq<Service>,
    pods: Seq<Pod>,
    sets: Seq<ReplicaSet>,
    state: spec_fn(PortProbeView) -> PortBindState,
    hit: PrivilegedServicePodView,
)
    ensures
        namespace_findings(
            ns,
            probed_with(namespace_probes(services, pods, sets), state),
        ).contains(hit) <==> {
            &&& hit.namespace == ns
            &&& hit.bind_state == state(hit.probe)
            &&& hit.bind_state != PortBindState::Unbound
            &&& exists|i: int, j: int|
                0 <= i < services.len() && 0 <= j < pods.len() && is_probe_of(
                    #[trigger] services[i],
                    #[trigger] pods[j],
                    sets,
                    hit.probe,
                )
        },
{
    let probes = namespace_probes(services, pods, sets);
    let probed = probed_with(probes, state);
    let result = (hit.probe, hit.bind_state);
    law_namespace_probes(services, pods, sets, hit.probe);
    law_all_but_unbound_reported(ns, probed, hit);
    if probed.contains(result) {
        let k = choose|k: int| 0 <= k < probed.len() && probed[k] == result;
        assert(probes[k] == hit.probe);
        assert(probes.contains(probes[k]));
    }
    if probes.contains(hit.probe) && hit.bind_state == state(hit.probe) {
        let k = choose|k: int| 0 <= k < probes.len() && probes[k] == hit.probe;
        assert(probed[k] == result);
    }
}

/// A port is forwarded exactly where its protocol is `tcp` in any case and its
/// number is that of a port, and it is watched for five seconds; of any other
/// port nothing is known.
pub proof fn law_probe_begins(protocol: String, port: i32)
    ensures
        probe_action((ProbeEvent::Requested { protocol, port })) == if 0 <= port <= 65535
            && protocol@.len() == 3 && (protocol@[0] == 't' || protocol@[0] == 'T') && (protocol@[1]
            == 'c' || protocol@[1] == 'C') && (protocol@[2] == 'p' || protocol@[2] == 'P') {
            (ProbeAction::Forward { port: port as u16, seconds: 5 })
        } else {
            ProbeAction::Conclude(PortBindState::Unknown)
        },
{
    reveal_strlit("tcp");
    law_ascii_case(protocol@, "tcp"@);
    if protocol@.len() == 3 {
        assert(protocol@[0] == protocol@[0] && protocol@[1] == protocol@[1] && protocol@[2]
            == protocol@[2]);
    }
}

/// A forwarded port is unbound where its error, in lower case, has `connection
/// refused` anywhere in it; any other error, and a port that could not be
/// forwarded or watched, shows nothing; no error in time shows that the port is
/// bound.
pub proof fn law_probe_ends(message: String)
    ensures
        (exists|before: Seq<char>, after: Seq<char>|
            lowered(message@) == #[trigger] (before + "connection refused"@ + after))
            ==> probe_action(ProbeEvent::Reported(message)) == ProbeAction::Conclude(
            PortBindState::Unbound,
        ),
        !(exists|before: Seq<char>, after: Seq<char>|
            lowered(message@) == #[trigger] (before + "connection refused"@ + after))
            ==> probe_action(ProbeEvent::Reported(message)) == ProbeAction::Conclude(
            PortBindState::Unknown,
        ),
        probe_action(ProbeEvent::ForwardFailed) == ProbeAction::Conclude(PortBindState::Unknown),
        probe_action(ProbeEvent::ErrorsUnavailable) == ProbeAction::Conclude(
            PortBindState::Unknown,
        ),
        probe_action(ProbeEvent::Closed) == ProbeAction::Conclude(PortBindState::Bound),
        probe_action(ProbeEvent::TimedOut) == ProbeAction::Conclude(PortBindState::Bound),
{
    law_search(lowered(message@), "connection refused"@);
}

/// An error that is put around another shows that the port is unbound where the
/// other does, an error shows it where it has `connection refused` in it, and no
/// error shows that a port is bound.
pub proof fn law_error_text(before: Seq<char>, message: Seq<char>, after: Seq<char>)
    ensures
        shown_by_error(before + "connection refused"@ + after) == PortBindState::Unbound,
        shown_by_error(message) == PortBindState::Unbound ==> shown_by_error(
            before + message + after,
        ) == PortBindState::Unbound,
        shown_by_error(message) == PortBindState::Unbound || shown_by_error(message)
            == PortBindState::Unknown,
        shown_by_error(message) == PortBindState::Unbound ==> exists|
            left: Seq<char>,
            right: Seq<char>,
        |
            message == #[trigger] (left + "connection refused"@ + right),
{
    let refused = "connection refused"@;
    law_search(before + refused + after, refused);
    law_search(message, refused);
    law_search(before + message + after, refused);
    if holds_text(message, refused) {
        let (left, right) = choose|left: Seq<char>, right: Seq<char>|
            message == #[trigger] (left + refused + right);
        assert(before + message + after =~= (before + left) + refused + (right + after));
    }
}

/// Each state has its own word.
pub proof fn law_state_words()
    ensures
        PortBindState::Bound.word() == "bound"@,
        PortBindState::Unbound.word() == "unbound"@,
        PortBindState::Unknown.word() == "unknown"@,
{
}

/// Whether port `k` of a service makes it send to a pod which may not bind the
/// target, as `probe` says: the service has a selector with at least one key,
/// the pod has every label of it, and the probe names the service, the pod, the
/// target and the owner.
pub open spec fn sent_as(
    service: Service,
    k: int,
    pod: Pod,
    sets: Seq<ReplicaSet>,
    probe: PortProbeView,
) -> bool {
    &&& service.spec is Some
    &&& service.spec->0.ports is Some
    &&& 0 <= k < service.spec->0.ports->0@.len()
    &&& service.spec->0.selector is Some
    &&& service.spec->0.selector->0@ != Map::<Seq<char>, String>::empty()
    &&& pod.spec is Some
    &&& pod.metadata.labels is Some
    &&& forall|key: Seq<char>| #[trigger]
        service.spec->0.selector->0@.contains_key(key) ==> pod.metadata.labels->0@.contains_key(key)
            && pod.metadata.labels->0@[key]@ == service.spec->0.selector->0@[key]@
    &&& unbindable_target(service.spec->0.ports->0@[k], pod.spec->0) == Some(probe.port)
    &&& probe.protocol == match service.spec->0.ports->0@[k].protocol {
        Some(protocol) => protocol@,
        None => "TCP"@,
    }
    &&& probe.service_name == match service.metadata.name {
        Some(name) => name@,
        None => "<unnamed>"@,
    }
    &&& probe.pod_name == match pod.metadata.name {
        Some(name) => name@,
        None => "<unnamed>"@,
    }
    &&& (probe.owner_kind, probe.owner_name) == owner_of(pod, sets)
}

/// A probe is of a service and a pod exactly where a port of the service sends
/// as it says.
proof fn lemma_sent_as(service: Service, pod: Pod, sets: Seq<ReplicaSet>, probe: PortProbeView)
    ensures
        is_probe_of(service, pod, sets, probe) <==> exists|k: int| #[trigger]
            sent_as(service, k, pod, sets, probe),
{
    if is_probe_of(service, pod, sets, probe) {
        let spec = service.spec->0;
        let ports = listed(spec.ports);
        let k = choose|k: int|
            0 <= k < ports.len() && port_target(#[trigger] ports[k], pod.spec->0) == Some(
                (probe.port, probe.protocol),
            );
        assert(spec.ports->0@[k] == ports[k]);
        assert(sent_as(service, k, pod, sets, probe));
    }
    assert forall|k: int| #[trigger] sent_as(service, k, pod, sets, probe) implies is_probe_of(
        service,
        pod,
        sets,
        probe,
    ) by {
        let spec = service.spec->0;
        let ports = listed(spec.ports);
        assert(port_target(ports[k], pod.spec->0) == Some((probe.port, probe.protocol)));
        assert(has_target(ports, pod.spec->0, (probe.port, probe.protocol)));
    }
}

/// The probes of a namespace are exactly those that any port of any of its
/// services sends as, to any of its pods.
pub proof fn law_every_port_probed(
    services: Seq<Service>,
    pods: Seq<Pod>,
    sets: Seq<ReplicaSet>,
    probe: PortProbeView,
)
    ensures
        namespace_probes(services, pods, sets).contains(probe) <==> exists|i: int, j: int, k: int|
            0 <= i < services.len() && 0 <= j < pods.len() && #[trigger] sent_as(
                services[i],
                k,
                pods[j],
                sets,
                probe,
            ),
{
    law_namespace_probes(services, pods, sets, probe);
    if namespace_probes(services, pods, sets).contains(probe) {
        let (i, j) = choose|i: int, j: int|
            0 <= i < services.len() && 0 <= j < pods.len() && is_probe_of(
                #[trigger] services[i],
                #[trigger] pods[j],
                sets,
                probe,
            );
        lemma_sent_as(services[i], pods[j], sets, probe);
        let k = choose|k: int| #[trigger] sent_as(services[i], k, pods[j], sets, probe);
        assert(sent_as(services[i], k, pods[j], sets, probe));
    }
    assert forall|i: int, j: int, k: int|
        0 <= i < services.len() && 0 <= j < pods.len() && #[trigger] sent_as(
            services[i],
            k,
            pods[j],
            sets,
            probe,
        ) implies namespace_probes(services, pods, sets).contains(probe) by {
        lemma_sent_as(services[i], pods[j], sets, probe);
        assert(is_probe_of(services[i], pods[j], sets, probe));
    }
}

/// A row made from one row is that row.
proof fn lemma_flat_map_one<T, U>(item: T, each: spec_fn(T) -> Seq<U>)
    ensures
        seq![item].flat_map(each) == each(item),
        Seq::<T>::empty().flat_map(each) == Seq::<U>::empty(),
{
    let none = Seq::<T>::empty();
    none.lemma_flat_map_push(each, item);
    assert(none.push(item) =~= seq![item]);
    assert(none.flat_map(each) =~= Seq::<U>::empty());
    assert(none.flat_map(each) + each(item) =~= each(item));
}

/// Services are probed one after the other, each as if it were the only one,
/// and for each of them the pods one after the other.
pub proof fn law_probes_in_turn(
    services: Seq<Service>,
    service: Service,
    pods: Seq<Pod>,
    pod: Pod,
    sets: Seq<ReplicaSet>,
)
    ensures
        namespace_probes(Seq::empty(), pods, sets).len() == 0,
        namespace_probes(services.push(service), pods, sets) == namespace_probes(
            services,
            pods,
            sets,
        ) + namespace_probes(seq![service], pods, sets),
        namespace_probes(seq![service], Seq::empty(), sets).len() == 0,
        namespace_probes(seq![service], pods.push(pod), sets) == namespace_probes(
            seq![service],
            pods,
            sets,
        ) + namespace_probes(seq![service], seq![pod], sets),
{
    let each = |service: Service| service_probes(service, pods, sets);
    services.lemma_flat_map_push(each, service);
    lemma_flat_map_one(service, each);
    let of_pod = |pod: Pod| pod_probes(service, pod, sets);
    pods.lemma_flat_map_push(of_pod, pod);
    lemma_flat_map_one(pod, of_pod);
    lemma_flat_map_one(service, |s: Service| service_probes(s, Seq::empty(), sets));
    lemma_flat_map_one(service, |s: Service| service_probes(s, pods.push(pod), sets));
    lemma_flat_map_one(service, |s: Service| service_probes(s, seq![pod], sets));
}

/// Of one service and one pod the probes come in the order of their ports, at
/// the same port in the order of their protocols, and none comes twice.
pub proof fn law_probes_ascend(
    service: Service,
    pod: Pod,
    sets: Seq<ReplicaSet>,
    a: int,
    b: int,
)
    requires
        0 <= a < b < namespace_probes(seq![service], seq![pod], sets).len(),
    ensures
        ({
            let probes = namespace_probes(seq![service], seq![pod], sets);
            probes[a].port < probes[b].port || (probes[a].port == probes[b].port && precedes(
                probes[a].protocol,
                probes[b].protocol,
            ))
        }),
{
    lemma_flat_map_one(service, |s: Service| service_probes(s, seq![pod], sets));
    lemma_flat_map_one(pod, |p: Pod| pod_probes(service, p, sets));
    let probes = pod_probes(service, pod, sets);
    assert(namespace_probes(seq![service], seq![pod], sets) == probes);
    if let (Some(spec), Some(pod_spec)) = (service.spec, pod.spec) {
        if sends_to(spec, pod) {
            let row = target_row(listed(spec.ports), pod_spec);
            law_one_target_row(listed(spec.ports), pod_spec, row);
            assert(target_before(row[a], row[b]));
        }
    }
}

/// One more probe is reported behind the others, with what it showed and under
/// its namespace, unless it showed that the port is unbound.
pub proof fn law_findings_in_turn(
    ns: Seq<char>,
    probed: Seq<(PortProbeView, PortBindState)>,
    probe: PortProbeView,
    state: PortBindState,
)
    ensures
        namespace_findings(ns, Seq::empty()).len() == 0,
        state == PortBindState::Unbound ==> namespace_findings(ns, probed.push((probe, state)))
            == namespace_findings(ns, probed),
        state != PortBindState::Unbound ==> namespace_findings(ns, probed.push((probe, state)))
            == namespace_findings(ns, probed).push(
            (PrivilegedServicePodView { namespace: ns, probe, bind_state: state }),
        ),
{
    let kept = |result: (PortProbeView, PortBindState)| result.1 != PortBindState::Unbound;
    reveal(Seq::filter);
    assert(Seq::<(PortProbeView, PortBindState)>::empty().filter(kept) =~= Seq::empty());
    probed.lemma_filter_push((probe, state), kept);
    let hit = PrivilegedServicePodView { namespace: ns, probe, bind_state: state };
    assert(namespace_findings(ns, probed.push((probe, state))) =~= if state
        != PortBindState::Unbound {
        namespace_findings(ns, probed).push(hit)
    } else {
        namespace_findings(ns, probed)
    });
}

/// The probes of a namespace come out exactly where its three lists succeeded;
/// otherwise the error is that of the first list that failed.
pub proof fn law_probes_need_every_list(
    services: Result<Vec<Service>, KubeError>,
    pods: Result<Vec<Pod>, KubeError>,
    replicasets: Result<Vec<ReplicaSet>, KubeError>,
)
    ensures
        probes_outcome(services, pods, replicasets) is Ok <==> services is Ok && pods is Ok
            && replicasets is Ok,
        probes_outcome(services, pods, replicasets) matches Ok(probes) ==> probes
            == namespace_probes(services->Ok_0@, pods->Ok_0@, replicasets->Ok_0@),
        probes_outcome(services, pods, replicasets) matches Err(error) ==> error == LornError::Kube(
            if services is Err {
                services->Err_0
            } else if pods is Err {
                pods->Err_0
            } else {
                replicasets->Err_0
            },
        ),
{
}

/// The hits of a namespace whose probes are known come out as they are; a
/// namespace whose probes failed fails with its own error. Behind namespaces
/// that succeeded one more namespace adds its hits, or fails the whole; behind
/// one that failed nothing changes.
pub proof fn law_port_namespaces_in_turn(
    namespaces: Seq<(String, Probed)>,
    ns: String,
    probed: Vec<(PortProbe, PortBindState)>,
    error: LornError,
    one: (String, Probed),
)
    ensures
        ports_in_ns(ns@, Ok(probed)) == Ok::<Seq<PrivilegedServicePodView>, LornError>(
            namespace_findings(ns@, probed.deep_view()),
        ),
        ports_in_ns(ns@, Err(error)) == Err::<Seq<PrivilegedServicePodView>, LornError>(error),
        ports_outcome(Seq::empty()) == Ok::<Seq<PrivilegedServicePodView>, LornError>(
            Seq::empty(),
        ),
        ports_outcome(namespaces) matches Ok(before) ==> {
            &&& ports_outcome(namespaces.push((ns, Ok(probed)))) == Ok::<
                Seq<PrivilegedServicePodView>,
                LornError,
            >(before + namespace_findings(ns@, probed.deep_view()))
            &&& ports_outcome(namespaces.push((ns, Err(error)))) == Err::<
                Seq<PrivilegedServicePodView>,
                LornError,
            >(error)
        },
        ports_outcome(namespaces) matches Err(earlier) ==> ports_outcome(namespaces.push(one))
            == Err::<Seq<PrivilegedServicePodView>, LornError>(earlier),
{
    let good: (String, Probed) = (ns, Ok(probed));
    let bad: (String, Probed) = (ns, Err(error));
    assert(namespaces.push(good) =~= namespaces + seq![good]);
    assert(namespaces.push(bad) =~= namespaces + seq![bad]);
    assert(namespaces.push(one) =~= namespaces + seq![one]);
    law_ports_joined(namespaces, seq![good], good);
    law_ports_joined(namespaces, seq![bad], bad);
    law_ports_joined(namespaces, seq![one], one);
}

/// Probes, their results and hits are seen in contracts with the fields that
/// they have.
pub proof fn law_probe_fields(
    probe: PortProbe,
    hit: PrivilegedServicePod,
    probed: Vec<(PortProbe, PortBindState)>,
    i: int,
)
    ensures
        probe.deep_view().service_name == probe.service_name@,
        probe.deep_view().pod_name == probe.pod_name@,
        probe.deep_view().port == probe.port,
        probe.deep_view().protocol == probe.protocol@,
        probe.deep_view().owner_kind == probe.owner_kind@,
        probe.deep_view().owner_name == probe.owner_name@,
        hit.deep_view().namespace == hit.namespace@,
        hit.deep_view().bind_state == hit.bind_state,
        hit.deep_view().probe.service_name == hit.service_name@,
        hit.deep_view().probe.pod_name == hit.pod_name@,
        hit.deep_view().probe.port == hit.port,
        hit.deep_view().probe.protocol == hit.protocol@,
        hit.deep_view().probe.owner_kind == hit.owner_kind@,
        hit.deep_view().probe.owner_name == hit.owner_name@,
        probed.deep_view().len() == probed@.len(),
        0 <= i < probed@.len() ==> probed.deep_view()[i] == (
            probed@[i].0.deep_view(),
            probed@[i].1,
        ),
{
}


/// A service and a pod have a probe for every port of the service whose target
/// the pod may not bind, where the service has a selector with a key and the
/// pod has all its labels; the probe names the service, the pod and the owner,
/// or what stands for a name that is missing.
pub proof fn law_port_reaches_pod(
    service: Service,
    pod: Pod,
    sets: Seq<ReplicaSet>,
    k: int,
    number: i32,
    key: Seq<char>,
)
    requires
        service.spec is Some,
        service.spec->0.ports is Some,
        0 <= k < service.spec->0.ports->0@.len(),
        service.spec->0.selector is Some,
        service.spec->0.selector->0@.contains_key(key),
        pod.spec is Some,
        pod.metadata.labels is Some,
        forall|key: Seq<char>| #[trigger]
            service.spec->0.selector->0@.contains_key(key)
                ==> pod.metadata.labels->0@.contains_key(key) && pod.metadata.labels->0@[key]@
                == service.spec->0.selector->0@[key]@,
        unbindable_target(service.spec->0.ports->0@[k], pod.spec->0) == Some(number),
    ensures
        namespace_probes(seq![service], seq![pod], sets).contains(
            (PortProbeView {
                service_name: match service.metadata.name {
                    Some(name) => name@,
                    None => "<unnamed>"@,
                },
                pod_name: match pod.metadata.name {
                    Some(name) => name@,
                    None => "<unnamed>"@,
                },
                port: number,
                protocol: match service.spec->0.ports->0@[k].protocol {
                    Some(protocol) => protocol@,
                    None => "TCP"@,
                },
                owner_kind: owner_of(pod, sets).0,
                owner_name: owner_of(pod, sets).1,
            }),
        ),
{
    let probe = PortProbeView {
        service_name: match service.metadata.name {
            Some(name) => name@,
            None => "<unnamed>"@,
        },
        pod_name: match pod.metadata.name {
            Some(name) => name@,
            None => "<unnamed>"@,
        },
        port: number,
        protocol: match service.spec->0.ports->0@[k].protocol {
            Some(protocol) => protocol@,
            None => "TCP"@,
        },
        owner_kind: owner_of(pod, sets).0,
        owner_name: owner_of(pod, sets).1,
    };
    law_every_port_probed(seq![service], seq![pod], sets, probe);
    assert(sent_as(seq![service][0], k, seq![pod][0], sets, probe));
}

/// A service without a selector, or with an empty one, has no probes; neither
/// has a pod without labels, or one that lacks a label of the selector or has
/// another text there.
pub proof fn law_no_selection_no_probes(
    service: Service,
    pod: Pod,
    sets: Seq<ReplicaSet>,
    key: Seq<char>,
)
    requires
        service.spec matches Some(spec) ==> {
            ||| spec.selector is None
            ||| spec.selector->0@ == Map::<Seq<char>, String>::empty()
            ||| pod.metadata.labels is None
            ||| spec.selector->0@.contains_key(key) && !pod.metadata.labels->0@.contains_key(key)
            ||| spec.selector->0@.contains_key(key) && pod.metadata.labels->0@[key]@
                != spec.selector->0@[key]@
        },
    ensures
        namespace_probes(seq![service], seq![pod], sets).len() == 0,
{
    let probes = namespace_probes(seq![service], seq![pod], sets);
    if probes.len() > 0 {
        let probe = probes[0];
        assert(probes.contains(probe));
        law_every_port_probed(seq![service], seq![pod], sets, probe);
        let (i, j, k) = choose|i: int, j: int, k: int|
            0 <= i < 1 && 0 <= j < 1 && #[trigger] sent_as(
                seq![service][i],
                k,
                seq![pod][j],
                sets,
                probe,
            );
        assert(sent_as(service, k, pod, sets, probe));
    }
}

/// Every probe of a service and a pod names both of them and the owner of the
/// pod, or what stands for a name that is missing, and it has the target and the
/// protocol of a port of the service which the pod may not bind.
pub proof fn law_probe_names(service: Service, pod: Pod, sets: Seq<ReplicaSet>, a: int)
    requires
        0 <= a < namespace_probes(seq![service], seq![pod], sets).len(),
    ensures
        ({
            let probe = namespace_probes(seq![service], seq![pod], sets)[a];
            &&& probe.service_name == match service.metadata.name {
                Some(name) => name@,
                None => "<unnamed>"@,
            }
            &&& probe.pod_name == match pod.metadata.name {
                Some(name) => name@,
                None => "<unnamed>"@,
            }
            &&& probe.owner_kind == owner_of(pod, sets).0
            &&& probe.owner_name == owner_of(pod, sets).1
            &&& exists|k: int|
                0 <= k < service.spec->0.ports->0@.len() && unbindable_target(
                    #[trigger] service.spec->0.ports->0@[k],
                    pod.spec->0,
                ) == Some(probe.port) && probe.protocol == (
                match service.spec->0.ports->0@[k].protocol {
                    Some(protocol) => protocol@,
                    None => "TCP"@,
                })
        }),
{
    let probes = namespace_probes(seq![service], seq![pod], sets);
    let probe = probes[a];
    assert(probes.contains(probe));
    law_every_port_probed(seq![service], seq![pod], sets, probe);
    let (i, j, k) = choose|i: int, j: int, k: int|
        0 <= i < 1 && 0 <= j < 1 && #[trigger] sent_as(
            seq![service][i],
            k,
            seq![pod][j],
            sets,
            probe,
        );
    assert(sent_as(service, k, pod, sets, probe));
    assert(unbindable_target(service.spec->0.ports->0@[k], pod.spec->0) == Some(probe.port));
}


} // verus!
