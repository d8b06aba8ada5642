use lorn::objects::{
    Capabilities, Container, ContainerPort, IntOrString, ObjectMeta, OwnerReference, Pod,
    PodSecurityContext, PodSpec, ReplicaSet, SecurityContext, ServicePort, Sysctl,
};
use lorn::privileges::{
    can_bind_privileged_port, container_for_port, owner_workload_for_pod, resolve_target_port,
};

fn plain() -> SecurityContext {
    SecurityContext { privileged: None, capabilities: None, run_as_user: None }
}

fn adding(capabilities: &[&str]) -> SecurityContext {
    SecurityContext {
        capabilities: Some(Capabilities {
            add: Some(capabilities.iter().map(|c| c.to_string()).collect()),
        }),
        ..plain()
    }
}

fn user(id: i64) -> SecurityContext {
    SecurityContext { run_as_user: Some(id), ..plain() }
}

fn pod_user(id: i64) -> PodSecurityContext {
    PodSecurityContext { run_as_user: Some(id), sysctls: None }
}

fn sysctl(name: &str, value: &str) -> PodSecurityContext {
    PodSecurityContext {
        run_as_user: None,
        sysctls: Some(vec![Sysctl { name: name.to_string(), value: value.to_string() }]),
    }
}

fn container(image: &str, ports: &[(i32, Option<&str>)]) -> Container {
    Container {
        image: Some(image.to_string()),
        ports: Some(
            ports
                .iter()
                .map(|(port, name)| ContainerPort {
                    container_port: *port,
                    name: name.map(str::to_string),
                })
                .collect(),
        ),
        security_context: None,
    }
}

fn spec(containers: Vec<Container>, init: Option<Vec<Container>>) -> PodSpec {
    PodSpec { containers, init_containers: init, volumes: None, security_context: None }
}

fn service_port(port: i32, target_port: Option<IntOrString>) -> ServicePort {
    ServicePort { port, target_port, protocol: None }
}

fn owner(kind: &str, name: &str, controller: Option<bool>) -> OwnerReference {
    OwnerReference { kind: kind.to_string(), name: name.to_string(), controller }
}

fn meta(name: Option<&str>, owners: Option<Vec<OwnerReference>>) -> ObjectMeta {
    ObjectMeta {
        name: name.map(str::to_string),
        namespace: None,
        labels: None,
        owner_references: owners,
    }
}

fn pair(kind: &str, name: &str) -> (String, String) {
    (kind.to_string(), name.to_string())
}

#[test]
fn privileged_containers_bind_every_port() {
    assert!(!can_bind_privileged_port(None, None, 80));
    let yes = SecurityContext { privileged: Some(true), ..plain() };
    let no = SecurityContext { privileged: Some(false), ..plain() };
    assert!(can_bind_privileged_port(None, Some(&yes), 80));
    assert!(!can_bind_privileged_port(None, Some(&no), 80));
}

#[test]
fn two_capabilities_bind_every_port() {
    assert!(can_bind_privileged_port(None, Some(&adding(&["CHOWN", "NET_BIND_SERVICE"])), 80));
    assert!(can_bind_privileged_port(None, Some(&adding(&["ALL"])), 80));
    assert!(!can_bind_privileged_port(None, Some(&adding(&["NET_ADMIN", "all"])), 80));
    assert!(!can_bind_privileged_port(None, Some(&adding(&[])), 80));
}

#[test]
fn the_container_says_before_the_pod_who_runs() {
    assert!(can_bind_privileged_port(None, Some(&user(0)), 80));
    assert!(can_bind_privileged_port(Some(&pod_user(0)), None, 80));
    assert!(can_bind_privileged_port(Some(&pod_user(0)), Some(&plain()), 80));
    assert!(!can_bind_privileged_port(Some(&pod_user(0)), Some(&user(1000)), 80));
    assert!(can_bind_privileged_port(Some(&pod_user(1000)), Some(&user(0)), 80));
}

#[test]
fn a_kernel_parameter_lowers_the_first_free_port() {
    let start = "net.ipv4.ip_unprivileged_port_start";
    assert!(can_bind_privileged_port(Some(&sysctl(start, "80")), None, 80));
    assert!(can_bind_privileged_port(Some(&sysctl(start, " 0\n")), None, 80));
    assert!(!can_bind_privileged_port(Some(&sysctl(start, "81")), None, 80));
    assert!(!can_bind_privileged_port(Some(&sysctl(start, "eighty")), None, 80));
    assert!(!can_bind_privileged_port(Some(&sysctl("net.core.somaxconn", "0")), None, 80));
}

#[test]
fn what_binds_a_port_binds_those_above() {
    let context = sysctl("net.ipv4.ip_unprivileged_port_start", "400");
    let first = (0..1024).find(|port| can_bind_privileged_port(Some(&context), None, *port));
    assert_eq!(first, Some(400));
    assert!((400..1024).all(|port| can_bind_privileged_port(Some(&context), None, port)));
}

#[test]
fn regular_containers_come_before_init_containers() {
    let pod = spec(
        vec![container("a", &[(80, None)]), container("b", &[(81, None), (80, None)])],
        Some(vec![container("i", &[(81, None), (82, None)])]),
    );
    let image = |port: i32| container_for_port(&pod, port).and_then(|c| c.image.clone());
    assert_eq!(image(80).as_deref(), Some("a"));
    assert_eq!(image(81).as_deref(), Some("b"));
    assert_eq!(image(82).as_deref(), Some("i"));
    assert_eq!(image(83), None);
}

#[test]
fn targets_are_numbers_names_or_the_port_itself() {
    let pod = spec(
        vec![container("a", &[(8080, Some("web")), (443, Some("tls"))])],
        Some(vec![container("i", &[(53, Some("dns")), (54, Some("tls"))])]),
    );
    let named = |name: &str| Some(IntOrString::Name(name.to_string()));
    assert_eq!(resolve_target_port(&service_port(80, None), &pod), Some(80));
    assert_eq!(resolve_target_port(&service_port(1023, None), &pod), Some(1023));
    assert_eq!(resolve_target_port(&service_port(1024, None), &pod), None);
    assert_eq!(resolve_target_port(&service_port(80, Some(IntOrString::Int(81))), &pod), Some(81));
    assert_eq!(resolve_target_port(&service_port(80, Some(IntOrString::Int(8080))), &pod), None);
    assert_eq!(resolve_target_port(&service_port(80, named("web")), &pod), None);
    assert_eq!(resolve_target_port(&service_port(80, named("tls")), &pod), Some(443));
    assert_eq!(resolve_target_port(&service_port(80, named("dns")), &pod), Some(53));
    assert_eq!(resolve_target_port(&service_port(80, named("none")), &pod), None);
}

#[test]
fn the_declaring_container_decides_whether_it_may_bind() {
    let mut root = container("root", &[(80, Some("web"))]);
    root.security_context = Some(user(0));
    let pod = spec(vec![root, container("other", &[(81, None)])], None);
    assert_eq!(resolve_target_port(&service_port(80, None), &pod), None);
    let named = Some(IntOrString::Name("web".to_string()));
    assert_eq!(resolve_target_port(&service_port(9, named), &pod), None);
    assert_eq!(resolve_target_port(&service_port(81, None), &pod), Some(81));
    let mut rooted = spec(vec![container("a", &[])], None);
    rooted.security_context = Some(pod_user(0));
    assert_eq!(resolve_target_port(&service_port(80, None), &rooted), None);
}

#[test]
fn a_pod_without_controller_owns_itself() {
    let pod = Pod { metadata: meta(Some("p"), None), spec: None };
    assert_eq!(owner_workload_for_pod(&pod, &vec![]), pair("pod", "p"));
    let shared = vec![owner("Node", "n", None), owner("Node", "m", Some(false))];
    let pod = Pod { metadata: meta(None, Some(shared)), spec: None };
    assert_eq!(owner_workload_for_pod(&pod, &vec![]), pair("pod", "<unnamed>"));
}

#[test]
fn replica_sets_are_resolved_one_level_further() {
    let owners = vec![owner("Node", "n", None), owner("ReplicaSet", "web-1", Some(true))];
    let pod = Pod { metadata: meta(Some("p"), Some(owners)), spec: None };
    let deployed = vec![owner("Deployment", "web", Some(true))];
    let sets = vec![
        ReplicaSet { metadata: meta(Some("other"), None) },
        ReplicaSet { metadata: meta(Some("web-1"), Some(deployed)) },
    ];
    assert_eq!(owner_workload_for_pod(&pod, &sets), pair("deployment", "web"));
    assert_eq!(owner_workload_for_pod(&pod, &vec![]), pair("replicaset", "web-1"));
    let loose = vec![ReplicaSet { metadata: meta(Some("web-1"), None) }];
    assert_eq!(owner_workload_for_pod(&pod, &loose), pair("replicaset", "web-1"));
}

#[test]
fn other_controllers_are_named_in_lower_case() {
    let owners = vec![owner("StatefulSet", "Db", Some(true))];
    let pod = Pod { metadata: meta(Some("p"), Some(owners)), spec: None };
    assert_eq!(owner_workload_for_pod(&pod, &vec![]), pair("statefulset", "Db"));
}
