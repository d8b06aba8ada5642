use lorn::error::{KubeError, LornError};
use lorn::images::{
    bitnami_images_in_pod_spec, find_bitnami_images, find_bitnami_images_in_ns, is_bitnami_image,
};
use lorn::objects::{
    Container, Deployment, DeploymentSpec, Job, JobSpec, ObjectMeta, Pod, PodSpec, PodTemplateSpec,
    StatefulSet, StatefulSetSpec, Workloads,
};

fn meta(name: Option<&str>) -> ObjectMeta {
    ObjectMeta {
        name: name.map(str::to_string),
        namespace: None,
        labels: None,
        owner_references: None,
    }
}

fn container(image: Option<&str>) -> Container {
    Container { image: image.map(str::to_string), ports: None, security_context: None }
}

fn spec(containers: &[Option<&str>], init: Option<&[Option<&str>]>) -> PodSpec {
    PodSpec {
        containers: containers.iter().map(|i| container(*i)).collect(),
        init_containers: init.map(|list| list.iter().map(|i| container(*i)).collect()),
        volumes: None,
        security_context: None,
    }
}

fn template(image: &str) -> PodTemplateSpec {
    PodTemplateSpec { spec: Some(spec(&[Some(image)], None)) }
}

fn workloads() -> Workloads {
    Workloads {
        pods: vec![
            Pod { metadata: meta(Some("empty")), spec: None },
            Pod { metadata: meta(None), spec: Some(spec(&[Some("bitnami/redis")], None)) },
        ],
        stateful_sets: vec![StatefulSet {
            metadata: meta(Some("db")),
            spec: Some(StatefulSetSpec {
                template: template("docker.io/bitnami/postgresql:16"),
                volume_claim_templates: None,
            }),
        }],
        deployments: vec![
            Deployment { metadata: meta(Some("gone")), spec: None },
            Deployment {
                metadata: meta(Some("web")),
                spec: Some(DeploymentSpec { template: template("bitnami/nginx") }),
            },
        ],
        jobs: vec![Job {
            metadata: meta(Some("load")),
            spec: Some(JobSpec { template: template("bitnami/kubectl") }),
        }],
    }
}

#[test]
fn bitnami_images_are_told_by_their_prefix() {
    assert!(is_bitnami_image("bitnami/redis:7"));
    assert!(is_bitnami_image("docker.io/bitnami/redis"));
    assert!(is_bitnami_image("bitnami/"));
    assert!(!is_bitnami_image("bitnami"));
    assert!(!is_bitnami_image("redis"));
    assert!(!is_bitnami_image("quay.io/bitnami/redis"));
    assert!(!is_bitnami_image("bitnamilegacy/redis"));
    assert!(!is_bitnami_image(""));
}

#[test]
fn paths_count_every_container() {
    let pod = spec(
        &[Some("redis"), Some("bitnami/redis"), None],
        Some(&[None, Some("docker.io/bitnami/os-shell")]),
    );
    let hits = bitnami_images_in_pod_spec(&pod);
    assert_eq!(
        hits,
        vec![
            ("spec.containers[1]".to_string(), "bitnami/redis".to_string()),
            ("spec.initContainers[1]".to_string(), "docker.io/bitnami/os-shell".to_string()),
        ]
    );
    assert!(bitnami_images_in_pod_spec(&spec(&[None], None)).is_empty());
}

#[test]
fn paths_have_several_digits_where_needed() {
    let mut images: Vec<Option<&str>> = vec![None; 12];
    images[10] = Some("bitnami/a");
    let hits = bitnami_images_in_pod_spec(&spec(&images, None));
    assert_eq!(hits[0].0, "spec.containers[10]");
}

#[test]
fn a_namespace_is_searched_kind_by_kind() {
    let hits = find_bitnami_images_in_ns("prod", Ok(workloads())).unwrap();
    let seen: Vec<(&str, &str, &str, &str)> = hits
        .iter()
        .map(|h| (h.kind, h.name.as_str(), h.container_path.as_str(), h.image.as_str()))
        .collect();
    assert_eq!(
        seen,
        [
            ("pod", "prod/<unnamed>", "spec.containers[0]", "bitnami/redis"),
            ("statefulset", "prod/db", "spec.containers[0]", "docker.io/bitnami/postgresql:16"),
            ("deployment", "prod/web", "spec.containers[0]", "bitnami/nginx"),
            ("job", "prod/load", "spec.containers[0]", "bitnami/kubectl"),
        ]
    );
}

fn denied() -> LornError {
    LornError::Kube(KubeError::Api { code: 403, text: "denied".to_string() })
}

fn found(namespaces: &[&str]) -> Vec<String> {
    let namespaces = namespaces.iter().map(|ns| (ns.to_string(), Ok(workloads()))).collect();
    let hits = find_bitnami_images(namespaces).unwrap();
    hits.into_iter().map(|hit| format!("{} {}", hit.kind, hit.name)).collect()
}

#[test]
fn namespaces_follow_one_another() {
    assert!(found(&[]).is_empty());
    assert_eq!(
        found(&["a"]),
        ["pod a/<unnamed>", "statefulset a/db", "deployment a/web", "job a/load"]
    );
    assert_eq!(found(&["a", "b", "a"]), [found(&["a"]), found(&["b", "a"])].concat());
    assert_eq!(found(&["a", "a"]), [found(&["a"]), found(&["a"])].concat());
}

#[test]
fn one_failed_namespace_fails_the_search_for_images() {
    let alone = find_bitnami_images_in_ns("a", Err(denied()));
    assert!(matches!(alone, Err(LornError::Kube(KubeError::Api { code: 403, .. }))));
    let namespaces = vec![
        ("a".to_string(), Ok(workloads())),
        ("b".to_string(), Err(denied())),
        ("c".to_string(), Err(LornError::InferConfig("late".to_string()))),
        ("d".to_string(), Ok(workloads())),
    ];
    let whole = find_bitnami_images(namespaces);
    assert!(matches!(whole, Err(LornError::Kube(KubeError::Api { code: 403, .. }))));
}
