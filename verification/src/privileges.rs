//! Ports below 1024 that a pod is sent to but may not bind.
use crate::objects::{
    copy_name_or, Container, ContainerPort, IntOrString, OwnerReference, Pod, PodSecurityContext,
    PodSpec, ReplicaSet, SecurityContext, ServicePort, Sysctl,
};
#[allow(unused_imports)]
use crate::objects::{all_containers, listed, name_or};
#[allow(unused_imports)]
use crate::search::{first, held, lemma_first_at, lemma_first_concat, lemma_first_none};
#[allow(unused_imports)]
use crate::text::{lowered, parsed_i32, trimmed};
use crate::text::{lower, parse_i32, same, trim};
use vstd::prelude::*;

verus! {

/// Whether a container runs privileged.
pub open spec fn is_privileged(context: Option<SecurityContext>) -> bool {
    context matches Some(context) && context.privileged == Some(true)
}

/// The capabilities that a container adds.
pub open spec fn added_capabilities(context: Option<SecurityContext>) -> Seq<String> {
    match context {
        Some(context) => match context.capabilities {
            Some(capabilities) => listed(capabilities.add),
            None => Seq::empty(),
        },
        None => Seq::empty(),
    }
}

/// Whether a capability lets its holder bind every port.
pub open spec fn binds_every_port(capability: Seq<char>) -> bool {
    capability == "NET_BIND_SERVICE"@ || capability == "ALL"@
}

/// Whether a container adds a capability that lets it bind every port.
pub open spec fn adds_bind_capability(context: Option<SecurityContext>) -> bool {
    exists|i: int|
        0 <= i < added_capabilities(context).len() && binds_every_port(
            (#[trigger] added_capabilities(context)[i])@,
        )
}

/// The user that a container runs as: what the container says, or else what
/// its pod says.
pub open spec fn effective_user(
    pod: Option<PodSecurityContext>,
    container: Option<SecurityContext>,
) -> Option<i64> {
    match container {
        Some(SecurityContext { run_as_user: Some(user), .. }) => Some(user),
        _ => match pod {
            Some(pod) => pod.run_as_user,
            None => None,
        },
    }
}

/// The kernel parameters that a pod sets.
pub open spec fn sysctls_of(pod: Option<PodSecurityContext>) -> Seq<Sysctl> {
    match pod {
        Some(pod) => listed(pod.sysctls),
        None => Seq::empty(),
    }
}

/// Whether a kernel parameter opens `port` to every user: it is the first
/// port that needs no privilege, and not above `port`.
pub open spec fn opens_port(sysctl: Sysctl, port: i32) -> bool {
    &&& sysctl.name@ == "net.ipv4.ip_unprivileged_port_start"@
    &&& parsed_i32(trimmed(sysctl.value@)) matches Some(threshold) && threshold <= port
}

/// Whether one of the kernel parameters opens `port` to every user.
pub open spec fn sysctls_open_port(sysctls: Seq<Sysctl>, port: i32) -> bool {
    exists|i: int| 0 <= i < sysctls.len() && opens_port(#[trigger] sysctls[i], port)
}

/// Whether a container may bind `port`, taken as a port that needs a privilege.
pub open spec fn may_bind(
    pod: Option<PodSecurityContext>,
    container: Option<SecurityContext>,
    port: i32,
) -> bool {
    ||| is_privileged(container)
    ||| adds_bind_capability(container)
    ||| effective_user(pod, container) == Some(0i64)
    ||| sysctls_open_port(sysctls_of(pod), port)
}

/// Whether one of the capabilities lets its holder bind every port.
fn any_binds_every_port(added: &Vec<String>) -> (found: bool)
    ensures
        found == exists|i: int| 0 <= i < added.len() && binds_every_port((#[trigger] added@[i])@),
{
    let mut i: usize = 0;
    while i < added.len()
        invariant
            i <= added.len(),
            forall|j: int| 0 <= j < i ==> !binds_every_port((#[trigger] added@[j])@),
        decreases added.len() - i,
    {
        if same(added[i].as_str(), "NET_BIND_SERVICE") || same(added[i].as_str(), "ALL") {
            assert(binds_every_port(added@[i as int]@));
            return true;
        }
        i += 1;
    }
    false
}

/// Whether one of the kernel parameters opens `port` to every user.
fn any_opens_port(sysctls: &Vec<Sysctl>, port: i32) -> (found: bool)
    ensures
        found == sysctls_open_port(sysctls@, port),
{
    let mut i: usize = 0;
    while i < sysctls.len()
        invariant
            i <= sysctls.len(),
            forall|j: int| 0 <= j < i ==> !opens_port(#[trigger] sysctls@[j], port),
        decreases sysctls.len() - i,
    {
        if same(sysctls[i].name.as_str(), "net.ipv4.ip_unprivileged_port_start") {
            if let Some(threshold) = parse_i32(trim(sysctls[i].value.as_str())) {
                if threshold <= port {
                    assert(opens_port(sysctls@[i as int], port));
                    return true;
                }
            }
        }
        i += 1;
    }
    false
}

/// Whether a container with these security settings may bind `port`, for a
/// port below 1024: it is privileged, adds a fitting capability, runs as
/// root, or its pod lowers the first port that needs no privilege.
pub fn can_bind_privileged_port(
    pod_sc: Option<&PodSecurityContext>,
    container_sc: Option<&SecurityContext>,
    port: i32,
) -> (can_bind: bool)
    ensures
        can_bind == may_bind(held(pod_sc), held(container_sc), port),
{
    let mut user: Option<i64> = None;
    if let Some(context) = container_sc {
        if let Some(true) = context.privileged {
            return true;
        }
        if let Some(capabilities) = &context.capabilities {
            if let Some(added) = &capabilities.add {
                if any_binds_every_port(added) {
                    assert(added_capabilities(held(container_sc)) == added@);
                    return true;
                }
            }
        }
        user = context.run_as_user;
    }
    assert(!adds_bind_capability(held(container_sc)));
    if let (None, Some(context)) = (user, pod_sc) {
        user = context.run_as_user;
    }
    if let Some(0) = user {
        return true;
    }
    match pod_sc {
        Some(context) => match &context.sysctls {
            Some(sysctls) => any_opens_port(sysctls, port),
            None => false,
        },
        None => false,
    }
}

/// A container that may bind a port may bind every port above it.
pub proof fn law_may_bind_upwards(
    pod: Option<PodSecurityContext>,
    container: Option<SecurityContext>,
    port: i32,
    above: i32,
)
    requires
        may_bind(pod, container, port),
        port <= above,
    ensures
        may_bind(pod, container, above),
{
    if sysctls_open_port(sysctls_of(pod), port) {
        let i = choose|i: int|
            0 <= i < sysctls_of(pod).len() && opens_port(#[trigger] sysctls_of(pod)[i], port);
        assert(opens_port(sysctls_of(pod)[i], above));
    }
}

/// Whether a container declares `port`.
pub open spec fn declares(container: Container, port: i32) -> bool {
    exists|i: int|
        0 <= i < listed(container.ports).len() && (#[trigger] listed(
            container.ports,
        )[i]).container_port == port
}

/// The first container that declares `port`, regular containers before init
/// containers.
pub open spec fn declaring_container(spec: PodSpec, port: i32) -> Option<Container> {
    first(all_containers(spec), |container: Container| declares(container, port))
}

/// Whether a container declares `port`.
fn container_declares(container: &Container, port: i32) -> (found: bool)
    ensures
        found == declares(*container, port),
{
    if let Some(ports) = &container.ports {
        let mut i: usize = 0;
        while i < ports.len()
            invariant
                i <= ports.len(),
                container.ports == Some(*ports),
                forall|j: int| 0 <= j < i ==> (#[trigger] ports@[j]).container_port != port,
            decreases ports.len() - i,
        {
            if ports[i].container_port == port {
                assert(listed(container.ports)[i as int].container_port == port);
                return true;
            }
            i += 1;
        }
    }
    false
}

/// The first container of a list that declares `port`.
fn declaring_in(containers: &Vec<Container>, port: i32) -> (found: Option<&Container>)
    ensures
        held(found) == first(containers@, |container: Container| declares(container, port)),
{
    let ghost wanted = |container: Container| declares(container, port);
    let mut i: usize = 0;
    while i < containers.len()
        invariant
            i <= containers.len(),
            wanted == (|container: Container| declares(container, port)),
            forall|j: int| 0 <= j < i ==> !wanted(#[trigger] containers@[j]),
        decreases containers.len() - i,
    {
        if container_declares(&containers[i], port) {
            proof {
                lemma_first_at(containers@, wanted, i as int);
            }
            return Some(&containers[i]);
        }
        i += 1;
    }
    proof {
        lemma_first_none(containers@, wanted);
    }
    None
}

/// Finds the container of a pod, regular or init, that declares `port`.
pub fn container_for_port(pod_spec: &PodSpec, port: i32) -> (found: Option<&Container>)
    ensures
        held(found) == declaring_container(*pod_spec, port),
{
    let ghost wanted = |container: Container| declares(container, port);
    proof {
        lemma_first_concat(pod_spec.containers@, listed(pod_spec.init_containers), wanted);
        lemma_first_none(Seq::<Container>::empty(), wanted);
    }
    let regular = declaring_in(&pod_spec.containers, port);
    if regular.is_some() {
        return regular;
    }
    match &pod_spec.init_containers {
        Some(init) => declaring_in(init, port),
        None => None,
    }
}

/// Whether a port of a container is named `name`.
pub open spec fn port_named(port: ContainerPort, name: Seq<char>) -> bool {
    port.name matches Some(given) && given@ == name
}

/// The number of the first port of a container that is named `name`.
pub open spec fn named_port(container: Container, name: Seq<char>) -> Option<i32> {
    match first(listed(container.ports), |port: ContainerPort| port_named(port, name)) {
        Some(port) => Some(port.container_port),
        None => None,
    }
}

/// The first container with a port named `name`.
pub open spec fn naming_container(spec: PodSpec, name: Seq<char>) -> Option<Container> {
    first(all_containers(spec), |container: Container| named_port(container, name) is Some)
}

/// The number of the first port of a container that is named `name`.
fn find_named_port(container: &Container, name: &str) -> (found: Option<i32>)
    ensures
        found == named_port(*container, name@),
{
    let ghost wanted = |port: ContainerPort| port_named(port, name@);
    if let Some(ports) = &container.ports {
        let mut i: usize = 0;
        while i < ports.len()
            invariant
                i <= ports.len(),
                container.ports == Some(*ports),
                wanted == (|port: ContainerPort| port_named(port, name@)),
                forall|j: int| 0 <= j < i ==> !wanted(#[trigger] ports@[j]),
            decreases ports.len() - i,
        {
            if let Some(given) = &ports[i].name {
                if same(given.as_str(), name) {
                    proof {
                        lemma_first_at(ports@, wanted, i as int);
                    }
                    return Some(ports[i].container_port);
                }
            }
            i += 1;
        }
    }
    proof {
        lemma_first_none(listed(container.ports), wanted);
    }
    None
}

/// The first container of a list with a port named `name`, with that port.
fn naming_in<'a>(containers: &'a Vec<Container>, name: &str) -> (found: Option<
    (i32, &'a Container),
>)
    ensures
        match found {
            Some((port, container)) => named_port(*container, name@) == Some(port) && first(
                containers@,
                |container: Container| named_port(container, name@) is Some,
            ) == Some(*container),
            None => first(
                containers@,
                |container: Container| named_port(container, name@) is Some,
            ) is None,
        },
{
    let ghost wanted = |container: Container| named_port(container, name@) is Some;
    let mut i: usize = 0;
    while i < containers.len()
        invariant
            i <= containers.len(),
            wanted == (|container: Container| named_port(container, name@) is Some),
            forall|j: int| 0 <= j < i ==> !wanted(#[trigger] containers@[j]),
        decreases containers.len() - i,
    {
        if let Some(port) = find_named_port(&containers[i], name) {
            proof {
                lemma_first_at(containers@, wanted, i as int);
            }
            return Some((port, &containers[i]));
        }
        i += 1;
    }
    proof {
        lemma_first_none(containers@, wanted);
    }
    None
}

/// The port that a service port sends to in a pod, and the container that
/// declares it. A target that is a name which no container declares is none.
pub open spec fn target(sp: ServicePort, spec: PodSpec) -> Option<(i32, Option<Container>)> {
    match sp.target_port {
        Some(IntOrString::Int(number)) => Some((number, declaring_container(spec, number))),
        Some(IntOrString::Name(name)) => match naming_container(spec, name@) {
            Some(container) => Some((named_port(container, name@)->0, Some(container))),
            None => None,
        },
        None => Some((sp.port, declaring_container(spec, sp.port))),
    }
}

/// The security settings of a container that may be absent.
pub open spec fn security_of(container: Option<Container>) -> Option<SecurityContext> {
    match container {
        Some(container) => container.security_context,
        None => None,
    }
}

/// The port below 1024 that a service port sends to in a pod which may not
/// bind it.
pub open spec fn unbindable_target(sp: ServicePort, spec: PodSpec) -> Option<i32> {
    match target(sp, spec) {
        Some((port, container)) => if port < 1024 && !may_bind(
            spec.security_context,
            security_of(container),
            port,
        ) {
            Some(port)
        } else {
            None
        },
        None => None,
    }
}

/// The port below 1024 that a service port sends to in a pod which may not
/// bind it, if there is one.
pub fn resolve_target_port(sp: &ServicePort, pod_spec: &PodSpec) -> (resolved: Option<i32>)
    ensures
        resolved == unbindable_target(*sp, *pod_spec),
{
    let (port, container): (i32, Option<&Container>) = match &sp.target_port {
        Some(IntOrString::Int(number)) => (*number, container_for_port(pod_spec, *number)),
        Some(IntOrString::Name(name)) => {
            let ghost wanted = |container: Container| named_port(container, name@) is Some;
            proof {
                lemma_first_concat(pod_spec.containers@, listed(pod_spec.init_containers), wanted);
                lemma_first_none(Seq::<Container>::empty(), wanted);
            }
            match naming_in(&pod_spec.containers, name.as_str()) {
                Some((port, container)) => (port, Some(container)),
                None => match &pod_spec.init_containers {
                    Some(init) => match naming_in(init, name.as_str()) {
                        Some((port, container)) => (port, Some(container)),
                        None => {
                            return None;
                        },
                    },
                    None => {
                        return None;
                    },
                },
            }
        },
        None => (sp.port, container_for_port(pod_spec, sp.port)),
    };
    if port >= 1024 {
        return None;
    }
    let container_sc: Option<&SecurityContext> = match container {
        Some(container) => container.security_context.as_ref(),
        None => None,
    };
    if can_bind_privileged_port(pod_spec.security_context.as_ref(), container_sc, port) {
        None
    } else {
        Some(port)
    }
}

/// The owner that manages an object, if there is one.
pub open spec fn controller(references: Option<Vec<OwnerReference>>) -> Option<OwnerReference> {
    first(
        listed(references),
        |reference: OwnerReference| reference.controller == Some(true),
    )
}

/// The owner that manages an object, if there is one.
fn find_controller(references: &Option<Vec<OwnerReference>>) -> (found: Option<&OwnerReference>)
    ensures
        held(found) == controller(*references),
{
    let ghost wanted = |reference: OwnerReference| reference.controller == Some(true);
    if let Some(list) = references {
        let mut i: usize = 0;
        while i < list.len()
            invariant
                i <= list.len(),
                *references == Some(*list),
                wanted == (|reference: OwnerReference| reference.controller == Some(true)),
                forall|j: int| 0 <= j < i ==> !wanted(#[trigger] list@[j]),
            decreases list.len() - i,
        {
            if let Some(true) = list[i].controller {
                proof {
                    lemma_first_at(list@, wanted, i as int);
                }
                return Some(&list[i]);
            }
            i += 1;
        }
    }
    proof {
        lemma_first_none(listed(*references), wanted);
    }
    None
}

/// Whether a replica set is named `name`.
pub open spec fn set_named(set: ReplicaSet, name: Seq<char>) -> bool {
    set.metadata.name matches Some(given) && given@ == name
}

/// The first replica set named `name`.
fn find_replica_set<'a>(sets: &'a Vec<ReplicaSet>, name: &str) -> (found: Option<&'a ReplicaSet>)
    ensures
        held(found) == first(sets@, |set: ReplicaSet| set_named(set, name@)),
{
    let ghost wanted = |set: ReplicaSet| set_named(set, name@);
    let mut i: usize = 0;
    while i < sets.len()
        invariant
            i <= sets.len(),
            wanted == (|set: ReplicaSet| set_named(set, name@)),
            forall|j: int| 0 <= j < i ==> !wanted(#[trigger] sets@[j]),
        decreases sets.len() - i,
    {
        if let Some(given) = &sets[i].metadata.name {
            if same(given.as_str(), name) {
                proof {
                    lemma_first_at(sets@, wanted, i as int);
                }
                return Some(&sets[i]);
            }
        }
        i += 1;
    }
    proof {
        lemma_first_none(sets@, wanted);
    }
    None
}

/// The kind and the name of the workload that owns a replica set, or of the
/// replica set itself where nothing known owns it.
pub open spec fn owner_above(name: Seq<char>, sets: Seq<ReplicaSet>) -> (Seq<char>, Seq<char>) {
    match first(sets, |set: ReplicaSet| set_named(set, name)) {
        Some(set) => match controller(set.metadata.owner_references) {
            Some(owner) => (lowered(owner.kind@), owner.name@),
            None => ("replicaset"@, name),
        },
        None => ("replicaset"@, name),
    }
}

/// The kind, in lower case, and the name of the workload that owns a pod, or
/// of the pod itself where nothing manages it.
pub open spec fn owner_of(pod: Pod, sets: Seq<ReplicaSet>) -> (Seq<char>, Seq<char>) {
    match controller(pod.metadata.owner_references) {
        Some(owner) => if owner.kind@ == "ReplicaSet"@ {
            owner_above(owner.name@, sets)
        } else {
            (lowered(owner.kind@), owner.name@)
        },
        None => ("pod"@, name_or(pod.metadata.name, "<unnamed>"@)),
    }
}

/// The top level workload that owns a pod, as its kind in lower case and its
/// name. Replica sets are resolved one level further where possible.
pub fn owner_workload_for_pod(pod: &Pod, replicasets: &Vec<ReplicaSet>) -> (owner: (
    String,
    String,
))
    ensures
        owner.deep_view() == owner_of(*pod, replicasets@),
{
    let owner = match find_controller(&pod.metadata.owner_references) {
        Some(owner) => owner,
        None => {
            return ("pod".to_owned(), copy_name_or(&pod.metadata.name, "<unnamed>"));
        },
    };
    if same(owner.kind.as_str(), "ReplicaSet") {
        if let Some(set) = find_replica_set(replicasets, owner.name.as_str()) {
            if let Some(above) = find_controller(&set.metadata.owner_references) {
                return (lower(above.kind.as_str()), above.name.clone());
            }
        }
        return ("replicaset".to_owned(), owner.name.clone());
    }
    (lower(owner.kind.as_str()), owner.name.clone())
}

/// A container may bind a privileged port exactly where it is privileged, where
/// it adds `NET_BIND_SERVICE` or `ALL` at any place, where it runs as user 0 by
/// its own word or else by that of its pod, or where its pod sets the first
/// port that needs no privilege to the port or below.
pub proof fn law_may_bind(
    pod: Option<PodSecurityContext>,
    container: Option<SecurityContext>,
    port: i32,
)
    ensures
        may_bind(pod, container, port) <==> {
            ||| container is Some && container->0.privileged == Some(true)
            ||| container is Some && container->0.capabilities is Some
                && container->0.capabilities->0.add is Some && exists|i: int|
                0 <= i < container->0.capabilities->0.add->0@.len() && ((
                #[trigger] container->0.capabilities->0.add->0@[i])@ == "NET_BIND_SERVICE"@
                    || container->0.capabilities->0.add->0@[i]@ == "ALL"@)
            ||| container is Some && container->0.run_as_user == Some(0i64)
            ||| (container is None || container->0.run_as_user is None) && pod is Some
                && pod->0.run_as_user == Some(0i64)
            ||| pod is Some && pod->0.sysctls is Some && exists|i: int|
                0 <= i < pod->0.sysctls->0@.len() && (#[trigger] pod->0.sysctls->0@[i]).name@
                    == "net.ipv4.ip_unprivileged_port_start"@ && (parsed_i32(
                    trimmed(pod->0.sysctls->0@[i].value@),
                ) matches Some(threshold) && threshold <= port)
        },
{
    let added = added_capabilities(container);
    if adds_bind_capability(container) {
        let i = choose|i: int| 0 <= i < added.len() && binds_every_port((#[trigger] added[i])@);
        assert(container->0.capabilities->0.add->0@[i] == added[i]);
    }
    if container is Some && container->0.capabilities is Some
        && container->0.capabilities->0.add is Some {
        assert forall|i: int|
            0 <= i < container->0.capabilities->0.add->0@.len() && ((
            #[trigger] container->0.capabilities->0.add->0@[i])@ == "NET_BIND_SERVICE"@
                || container->0.capabilities->0.add->0@[i]@ == "ALL"@) implies may_bind(
            pod,
            container,
            port,
        ) by {
            assert(binds_every_port(added[i]@));
        }
    }
    let sysctls = sysctls_of(pod);
    if sysctls_open_port(sysctls, port) {
        let i = choose|i: int| 0 <= i < sysctls.len() && opens_port(#[trigger] sysctls[i], port);
        assert(pod->0.sysctls->0@[i] == sysctls[i]);
    }
    if pod is Some && pod->0.sysctls is Some {
        assert forall|i: int|
            0 <= i < pod->0.sysctls->0@.len() && (#[trigger] pod->0.sysctls->0@[i]).name@
                == "net.ipv4.ip_unprivileged_port_start"@ && (parsed_i32(
                trimmed(pod->0.sysctls->0@[i].value@),
            ) matches Some(threshold) && threshold <= port) implies may_bind(
            pod,
            container,
            port,
        ) by {
            assert(opens_port(sysctls[i], port));
        }
    }
}

/// The containers of a pod are its regular containers and behind them its init
/// containers.
pub open spec fn in_turn(spec: PodSpec, all: Seq<Container>) -> bool {
    all == spec.containers@ + match spec.init_containers {
        Some(init) => init@,
        None => Seq::empty(),
    }
}

/// A port of a service that sends to a number does so whatever its own port and
/// its protocol are, and one that names no target sends to its own port.
pub proof fn law_target_number(sp: ServicePort, other: ServicePort, spec: PodSpec, number: i32)
    requires
        sp.target_port == Some(IntOrString::Int(number)),
        other.target_port == sp.target_port || (other.target_port is None && other.port == number),
    ensures
        unbindable_target(sp, spec) == unbindable_target(other, spec),
{
}

/// Where a service port sends to a number, the first container that declares
/// that number decides: the port is reported exactly where it is below 1024 and
/// that container may not bind it.
pub proof fn law_declaring_container_decides(
    sp: ServicePort,
    spec: PodSpec,
    number: i32,
    all: Seq<Container>,
    at: int,
    k: int,
)
    requires
        sp.target_port == Some(IntOrString::Int(number)),
        in_turn(spec, all),
        0 <= at < all.len(),
        forall|i: int, j: int|
            0 <= i < at && all[i].ports is Some && 0 <= j < all[i].ports->0@.len() ==> (
            #[trigger] all[i].ports->0@[j]).container_port != number,
        all[at].ports is Some,
        0 <= k < all[at].ports->0@.len(),
        all[at].ports->0@[k].container_port == number,
    ensures
        declaring_container(spec, number) == Some(all[at]),
        unbindable_target(sp, spec) == if number < 1024 && !may_bind(
            spec.security_context,
            all[at].security_context,
            number,
        ) {
            Some(number)
        } else {
            None
        },
{
    let wanted = |container: Container| declares(container, number);
    assert(all =~= all_containers(spec));
    assert forall|i: int| 0 <= i < at implies !wanted(#[trigger] all[i]) by {
        if declares(all[i], number) {
            let ports = listed(all[i].ports);
            let j = choose|j: int|
                0 <= j < ports.len() && (#[trigger] ports[j]).container_port == number;
            assert(all[i].ports->0@[j].container_port == number);
        }
    }
    assert(listed(all[at].ports)[k].container_port == number);
    assert(wanted(all[at]));
    lemma_first_at(all, wanted, at);
}

/// Where a service port sends to a number that no container declares, the pod
/// alone decides whether the port may be bound.
pub proof fn law_undeclared_port(
    sp: ServicePort,
    spec: PodSpec,
    number: i32,
    all: Seq<Container>,
    at: int,
)
    requires
        sp.target_port == Some(IntOrString::Int(number)),
        in_turn(spec, all),
        at == all.len(),
        forall|i: int, j: int|
            0 <= i < at && all[i].ports is Some && 0 <= j < all[i].ports->0@.len() ==> (
            #[trigger] all[i].ports->0@[j]).container_port != number,
    ensures
        declaring_container(spec, number) is None,
        unbindable_target(sp, spec) == if number < 1024 && !may_bind(
            spec.security_context,
            None,
            number,
        ) {
            Some(number)
        } else {
            None
        },
{
    let wanted = |container: Container| declares(container, number);
    assert(all =~= all_containers(spec));
    assert forall|i: int| 0 <= i < all.len() implies !wanted(#[trigger] all[i]) by {
        if declares(all[i], number) {
            let ports = listed(all[i].ports);
            let j = choose|j: int|
                0 <= j < ports.len() && (#[trigger] ports[j]).container_port == number;
            assert(all[i].ports->0@[j].container_port == number);
        }
    }
    lemma_first_none(all, wanted);
}

/// No container before `at` has a port of the given name.
proof fn lemma_unnamed_before(all: Seq<Container>, name: Seq<char>, at: int)
    requires
        0 <= at <= all.len(),
        forall|i: int, j: int|
            0 <= i < at && all[i].ports is Some && 0 <= j < all[i].ports->0@.len() ==> !((
            #[trigger] all[i].ports->0@[j]).name matches Some(given) && given@ == name),
    ensures
        forall|i: int| 0 <= i < at ==> named_port(#[trigger] all[i], name) is None,
{
    assert forall|i: int| 0 <= i < at implies named_port(#[trigger] all[i], name) is None by {
        let ports = listed(all[i].ports);
        let wanted = |port: ContainerPort| port_named(port, name);
        assert forall|j: int| 0 <= j < ports.len() implies !wanted(#[trigger] ports[j]) by {
            assert(all[i].ports->0@[j] == ports[j]);
        }
        lemma_first_none(ports, wanted);
    }
}

/// Where a service port sends to a name, the first container that has a port of
/// that name decides, by the first port of that name in it: the port is
/// reported exactly where it is below 1024 and that container may not bind it.
pub proof fn law_naming_container_decides(
    sp: ServicePort,
    spec: PodSpec,
    name: String,
    all: Seq<Container>,
    at: int,
    k: int,
)
    requires
        sp.target_port == Some(IntOrString::Name(name)),
        in_turn(spec, all),
        0 <= at < all.len(),
        forall|i: int, j: int|
            0 <= i < at && all[i].ports is Some && 0 <= j < all[i].ports->0@.len() ==> !((
            #[trigger] all[i].ports->0@[j]).name matches Some(given) && given@ == name@),
        all[at].ports is Some,
        0 <= k < all[at].ports->0@.len(),
        all[at].ports->0@[k].name matches Some(given) && given@ == name@,
        forall|j: int|
            0 <= j < k ==> !((#[trigger] all[at].ports->0@[j]).name matches Some(given) && given@
                == name@),
    ensures
        unbindable_target(sp, spec) == if all[at].ports->0@[k].container_port < 1024 && !may_bind(
            spec.security_context,
            all[at].security_context,
            all[at].ports->0@[k].container_port,
        ) {
            Some(all[at].ports->0@[k].container_port)
        } else {
            None
        },
{
    let ports = listed(all[at].ports);
    let named = |port: ContainerPort| port_named(port, name@);
    let wanted = |container: Container| named_port(container, name@) is Some;
    assert(all =~= all_containers(spec));
    lemma_unnamed_before(all, name@, at);
    assert forall|j: int| 0 <= j < k implies !named(#[trigger] ports[j]) by {
        assert(all[at].ports->0@[j] == ports[j]);
    }
    lemma_first_at(ports, named, k);
    lemma_first_at(all, wanted, at);
}

/// A service port that sends to a name which no container declares is not
/// reported.
pub proof fn law_unknown_name(sp: ServicePort, spec: PodSpec, name: String, all: Seq<Container>)
    requires
        sp.target_port == Some(IntOrString::Name(name)),
        in_turn(spec, all),
        forall|i: int, j: int|
            0 <= i < all.len() && all[i].ports is Some && 0 <= j < all[i].ports->0@.len() ==> !((
            #[trigger] all[i].ports->0@[j]).name matches Some(given) && given@ == name@),
    ensures
        unbindable_target(sp, spec) is None,
{
    assert(all =~= all_containers(spec));
    lemma_unnamed_before(all, name@, all.len() as int);
    lemma_first_none(all, |container: Container| named_port(container, name@) is Some);
}

/// A pod that no owner controls is its own workload.
pub proof fn law_own_workload(pod: Pod, sets: Seq<ReplicaSet>)
    requires
        pod.metadata.owner_references matches Some(references) ==> forall|i: int|
            0 <= i < references@.len() ==> (#[trigger] references@[i]).controller != Some(true),
    ensures
        owner_of(pod, sets).0 == "pod"@,
        owner_of(pod, sets).1 == match pod.metadata.name {
            Some(name) => name@,
            None => "<unnamed>"@,
        },
{
    lemma_first_none(
        listed(pod.metadata.owner_references),
        |reference: OwnerReference| reference.controller == Some(true),
    );
}

/// A pod whose first controlling owner is not a replica set belongs to that
/// owner, whose kind is given in lower case.
pub proof fn law_direct_owner(pod: Pod, sets: Seq<ReplicaSet>, at: int)
    requires
        pod.metadata.owner_references is Some,
        0 <= at < pod.metadata.owner_references->0@.len(),
        pod.metadata.owner_references->0@[at].controller == Some(true),
        forall|i: int|
            0 <= i < at ==> (#[trigger] pod.metadata.owner_references->0@[i]).controller != Some(
                true,
            ),
        pod.metadata.owner_references->0@[at].kind@ != "ReplicaSet"@,
    ensures
        owner_of(pod, sets).0 == lowered(pod.metadata.owner_references->0@[at].kind@),
        owner_of(pod, sets).1 == pod.metadata.owner_references->0@[at].name@,
{
    lemma_first_at(
        listed(pod.metadata.owner_references),
        |reference: OwnerReference| reference.controller == Some(true),
        at,
    );
}

/// A pod whose first controlling owner is a replica set belongs to the first
/// controlling owner of the first replica set of that name, whose kind is given
/// in lower case.
pub proof fn law_owner_above_replica_set(
    pod: Pod,
    sets: Seq<ReplicaSet>,
    at: int,
    s: int,
    r: int,
)
    requires
        pod.metadata.owner_references is Some,
        0 <= at < pod.metadata.owner_references->0@.len(),
        pod.metadata.owner_references->0@[at].controller == Some(true),
        forall|i: int|
            0 <= i < at ==> (#[trigger] pod.metadata.owner_references->0@[i]).controller != Some(
                true,
            ),
        pod.metadata.owner_references->0@[at].kind@ == "ReplicaSet"@,
        0 <= s < sets.len(),
        sets[s].metadata.name matches Some(name) && name@
            == pod.metadata.owner_references->0@[at].name@,
        forall|i: int|
            0 <= i < s ==> !((#[trigger] sets[i]).metadata.name matches Some(name) && name@
                == pod.metadata.owner_references->0@[at].name@),
        sets[s].metadata.owner_references is Some,
        0 <= r < sets[s].metadata.owner_references->0@.len(),
        sets[s].metadata.owner_references->0@[r].controller == Some(true),
        forall|i: int|
            0 <= i < r ==> (#[trigger] sets[s].metadata.owner_references->0@[i]).controller != Some(
                true,
            ),
    ensures
        owner_of(pod, sets).0 == lowered(sets[s].metadata.owner_references->0@[r].kind@),
        owner_of(pod, sets).1 == sets[s].metadata.owner_references->0@[r].name@,
{
    let controls = |reference: OwnerReference| reference.controller == Some(true);
    let name = pod.metadata.owner_references->0@[at].name@;
    lemma_first_at(listed(pod.metadata.owner_references), controls, at);
    lemma_first_at(sets, |set: ReplicaSet| set_named(set, name), s);
    lemma_first_at(listed(sets[s].metadata.owner_references), controls, r);
}

/// A pod whose first controlling owner is a replica set belongs to that replica
/// set where none of that name is known, or where nothing controls the first of
/// that name.
pub proof fn law_replica_set_owns(pod: Pod, sets: Seq<ReplicaSet>, at: int, s: int)
    requires
        pod.metadata.owner_references is Some,
        0 <= at < pod.metadata.owner_references->0@.len(),
        pod.metadata.owner_references->0@[at].controller == Some(true),
        forall|i: int|
            0 <= i < at ==> (#[trigger] pod.metadata.owner_references->0@[i]).controller != Some(
                true,
            ),
        pod.metadata.owner_references->0@[at].kind@ == "ReplicaSet"@,
        0 <= s <= sets.len(),
        forall|i: int|
            0 <= i < s ==> !((#[trigger] sets[i]).metadata.name matches Some(name) && name@
                == pod.metadata.owner_references->0@[at].name@),
        s < sets.len() ==> (sets[s].metadata.name matches Some(name) && name@
            == pod.metadata.owner_references->0@[at].name@),
        s < sets.len() ==> (sets[s].metadata.owner_references matches Some(references) ==> forall|
            i: int,
        |
            0 <= i < references@.len() ==> (#[trigger] references@[i]).controller != Some(true)),
    ensures
        owner_of(pod, sets).0 == "replicaset"@,
        owner_of(pod, sets).1 == pod.metadata.owner_references->0@[at].name@,
{
    let controls = |reference: OwnerReference| reference.controller == Some(true);
    let name = pod.metadata.owner_references->0@[at].name@;
    let named = |set: ReplicaSet| set_named(set, name);
    lemma_first_at(listed(pod.metadata.owner_references), controls, at);
    if s < sets.len() {
        lemma_first_at(sets, named, s);
        lemma_first_none(listed(sets[s].metadata.owner_references), controls);
    } else {
        lemma_first_none(sets, named);
    }
}


/// A service port that sends to a number is not reported where the first
/// container that declares the number is privileged, adds `NET_BIND_SERVICE` or
/// `ALL`, or runs as user 0, whatever the port of the service itself is.
pub proof fn law_able_container_not_reported(
    sp: ServicePort,
    spec: PodSpec,
    number: i32,
    all: Seq<Container>,
    at: int,
    k: int,
    context: SecurityContext,
)
    requires
        sp.target_port == Some(IntOrString::Int(number)),
        in_turn(spec, all),
        0 <= at < all.len(),
        forall|i: int, j: int|
            0 <= i < at && all[i].ports is Some && 0 <= j < all[i].ports->0@.len() ==> (
            #[trigger] all[i].ports->0@[j]).container_port != number,
        all[at].ports is Some,
        0 <= k < all[at].ports->0@.len(),
        all[at].ports->0@[k].container_port == number,
        all[at].security_context == Some(context),
        context.privileged == Some(true) || context.run_as_user == Some(0i64) || (
        context.capabilities is Some && context.capabilities->0.add is Some && exists|c: int|
            0 <= c < context.capabilities->0.add->0@.len() && ((
            #[trigger] context.capabilities->0.add->0@[c])@ == "NET_BIND_SERVICE"@
                || context.capabilities->0.add->0@[c]@ == "ALL"@)),
    ensures
        unbindable_target(sp, spec) is None,
{
    law_declaring_container_decides(sp, spec, number, all, at, k);
    law_may_bind(spec.security_context, Some(context), number);
}


} // verus!
