use lorn::error::{KubeError, LornError};
use lorn::objects::{
    IntOrString, ObjectMeta, Pod, PodSpec, Service, ServicePort, ServiceSpec,
};
use lorn::probes::{
    confirm_bound_port, find_privileged_service_pods, find_privileged_service_pods_in_ns,
    privileged_targets, probes_in_ns, state_of_error, PortBindState, ProbeAction, ProbeEvent,
    Probed, WATCH_SECONDS,
};
use lorn::string_map::StringMap;

fn labels(pairs: &[(&str, &str)]) -> StringMap<String> {
    let mut map = StringMap::new();
    for (key, value) in pairs {
        map = map.with(key.to_string(), value.to_string());
    }
    map
}

fn meta(name: Option<&str>, labels: Option<StringMap<String>>) -> ObjectMeta {
    ObjectMeta { name: name.map(str::to_string), namespace: None, labels, owner_references: None }
}

fn spec() -> PodSpec {
    PodSpec { containers: vec![], init_containers: None, volumes: None, security_context: None }
}

fn port(number: i32, protocol: Option<&str>) -> ServicePort {
    ServicePort { port: number, target_port: None, protocol: protocol.map(str::to_string) }
}

fn pod(name: Option<&str>, pairs: &[(&str, &str)]) -> Pod {
    Pod { metadata: meta(name, Some(labels(pairs))), spec: Some(spec()) }
}

fn service(
    name: Option<&str>,
    selector: Option<StringMap<String>>,
    ports: Option<Vec<ServicePort>>,
) -> Service {
    Service { metadata: meta(name, None), spec: Some(ServiceSpec { selector, ports }) }
}

fn requested(protocol: &str, port: i32) -> ProbeAction {
    confirm_bound_port(&ProbeEvent::Requested { protocol: protocol.to_string(), port })
}

fn concluded(event: ProbeEvent) -> Option<PortBindState> {
    match confirm_bound_port(&event) {
        ProbeAction::Conclude(state) => Some(state),
        ProbeAction::Forward { .. } => None,
    }
}

#[test]
fn states_have_words() {
    assert_eq!(PortBindState::Bound.to_string(), "bound");
    assert_eq!(PortBindState::Unbound.to_string(), "unbound");
    assert_eq!(PortBindState::Unknown.to_string(), "unknown");
}

#[test]
fn only_tcp_ports_are_probed() {
    assert!(matches!(requested("TCP", 80), ProbeAction::Forward { port: 80, seconds: 5 }));
    assert!(matches!(requested("tcp", 65_535), ProbeAction::Forward { port: 65_535, .. }));
    assert!(matches!(requested("tcp", 0), ProbeAction::Forward { port: 0, .. }));
    assert_eq!(WATCH_SECONDS, 5);
    assert!(matches!(requested("UDP", 53), ProbeAction::Conclude(PortBindState::Unknown)));
    assert!(matches!(requested("TCP", -1), ProbeAction::Conclude(PortBindState::Unknown)));
    assert!(matches!(requested("TCP", 65_536), ProbeAction::Conclude(PortBindState::Unknown)));
}

#[test]
fn only_a_refusal_shows_that_nothing_is_bound() {
    let refused = "dial tcp4 127.0.0.1:80: connect: Connection Refused".to_string();
    assert_eq!(concluded(ProbeEvent::Reported(refused)), Some(PortBindState::Unbound));
    let accented = "\u{c9}CHEC: CONNECTION REFUSED".to_string();
    assert_eq!(concluded(ProbeEvent::Reported(accented)), Some(PortBindState::Unbound));
    let other = "error forwarding port 80".to_string();
    assert_eq!(concluded(ProbeEvent::Reported(other)), Some(PortBindState::Unknown));
    assert_eq!(concluded(ProbeEvent::ForwardFailed), Some(PortBindState::Unknown));
    assert_eq!(concluded(ProbeEvent::ErrorsUnavailable), Some(PortBindState::Unknown));
    assert_eq!(concluded(ProbeEvent::Closed), Some(PortBindState::Bound));
    assert_eq!(concluded(ProbeEvent::TimedOut), Some(PortBindState::Bound));
}

#[test]
fn errors_are_read_in_lower_case() {
    assert_eq!(state_of_error("x connection refused y"), PortBindState::Unbound);
    assert_eq!(state_of_error("Connection Refused"), PortBindState::Unknown);
    assert_eq!(state_of_error("connection  refused"), PortBindState::Unknown);
}

#[test]
fn targets_come_once_and_in_order() {
    let ports = vec![
        port(443, None),
        port(80, Some("UDP")),
        port(80, Some("TCP")),
        port(8080, None),
        ServicePort { port: 9000, target_port: Some(IntOrString::Int(443)), protocol: None },
        port(53, Some("UDP")),
    ];
    let row = privileged_targets(&ports, &spec());
    let seen: Vec<(i32, &str)> = row.iter().map(|(n, p)| (*n, p.as_str())).collect();
    assert_eq!(seen, [(53, "UDP"), (80, "TCP"), (80, "UDP"), (443, "TCP")]);
}

#[test]
fn services_probe_the_pods_that_they_select() {
    let services = vec![
        service(Some("web"), Some(labels(&[("app", "web")])), Some(vec![port(80, None)])),
        service(None, Some(labels(&[("app", "dns")])), Some(vec![port(53, Some("UDP"))])),
        service(Some("all"), Some(labels(&[])), Some(vec![port(1, None)])),
        service(Some("headless"), None, Some(vec![port(2, None)])),
        service(Some("portless"), Some(labels(&[("app", "web")])), None),
        Service { metadata: meta(Some("external"), None), spec: None },
    ];
    let pods = vec![
        pod(Some("web-0"), &[("app", "web"), ("zone", "a")]),
        pod(None, &[("app", "dns")]),
        pod(Some("other"), &[("app", "other")]),
        Pod { metadata: meta(Some("bare"), None), spec: Some(spec()) },
        Pod { metadata: meta(Some("pending"), Some(labels(&[("app", "web")]))), spec: None },
        pod(Some("web-1"), &[("app", "web")]),
    ];
    let probes = probes_in_ns(Ok(services), Ok(pods), Ok(vec![])).unwrap();
    let seen: Vec<(&str, &str, i32, &str, &str, &str)> = probes
        .iter()
        .map(|p| {
            (
                p.service_name.as_str(),
                p.pod_name.as_str(),
                p.port,
                p.protocol.as_str(),
                p.owner_kind.as_str(),
                p.owner_name.as_str(),
            )
        })
        .collect();
    assert_eq!(
        seen,
        [
            ("web", "web-0", 80, "TCP", "pod", "web-0"),
            ("web", "web-1", 80, "TCP", "pod", "web-1"),
            ("<unnamed>", "<unnamed>", 53, "UDP", "pod", "<unnamed>"),
        ]
    );
}

fn denied() -> KubeError {
    KubeError::Api { code: 403, text: "denied".to_string() }
}

fn is_denied<T>(outcome: Result<T, LornError>) -> bool {
    matches!(outcome, Err(LornError::Kube(KubeError::Api { code: 403, .. })))
}

fn probed() -> Probed {
    let services = vec![service(
        Some("web"),
        Some(labels(&[("app", "web")])),
        Some(vec![port(80, None), port(81, None), port(82, None)]),
    )];
    let pods = vec![pod(Some("web-0"), &[("app", "web")])];
    let states = [PortBindState::Bound, PortBindState::Unbound, PortBindState::Unknown];
    let probes = probes_in_ns(Ok(services), Ok(pods), Ok(vec![]))?;
    Ok(probes.into_iter().zip(states).collect())
}

fn found(namespaces: &[&str]) -> Vec<(String, i32, PortBindState)> {
    let namespaces = namespaces.iter().map(|ns| (ns.to_string(), probed())).collect();
    let hits = find_privileged_service_pods(namespaces).unwrap();
    hits.into_iter().map(|hit| (hit.namespace, hit.port, hit.bind_state)).collect()
}

#[test]
fn unbound_ports_are_left_out() {
    let hits = find_privileged_service_pods_in_ns("prod", probed()).unwrap();
    let seen: Vec<(&str, i32, PortBindState)> =
        hits.iter().map(|h| (h.namespace.as_str(), h.port, h.bind_state)).collect();
    assert_eq!(
        seen,
        [("prod", 80, PortBindState::Bound), ("prod", 82, PortBindState::Unknown)]
    );
}

#[test]
fn ports_of_namespaces_follow_one_another() {
    assert!(found(&[]).is_empty());
    assert_eq!(
        found(&["prod"]),
        [
            ("prod".to_string(), 80, PortBindState::Bound),
            ("prod".to_string(), 82, PortBindState::Unknown),
        ]
    );
    assert_eq!(found(&["a", "b", "a"]), [found(&["a", "b"]), found(&["a"])].concat());
}

#[test]
fn any_failed_list_fails_the_probes_of_a_namespace() {
    let late = || KubeError::Other { text: "late".to_string() };
    assert!(is_denied(probes_in_ns(Err(denied()), Err(late()), Err(late()))));
    assert!(is_denied(probes_in_ns(Ok(vec![]), Err(denied()), Err(late()))));
    assert!(is_denied(probes_in_ns(Ok(vec![]), Ok(vec![]), Err(denied()))));
    assert!(probes_in_ns(Ok(vec![]), Ok(vec![]), Ok(vec![])).unwrap().is_empty());
}

#[test]
fn one_failed_namespace_fails_the_search_for_ports() {
    let failed = || Err(LornError::Kube(denied()));
    assert!(is_denied(find_privileged_service_pods_in_ns("a", failed())));
    let namespaces = vec![
        ("a".to_string(), probed()),
        ("b".to_string(), failed()),
        ("c".to_string(), Err(LornError::InferConfig("late".to_string()))),
    ];
    assert!(is_denied(find_privileged_service_pods(namespaces)));
}
