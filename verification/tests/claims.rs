use lorn::claims::{describe_claim, find_orphaned_pvcs, pvc_in_use, pvc_names_from_volumes};
use lorn::error::{KubeError, LornError};
use lorn::objects::{
    Deployment, DeploymentSpec, Job, JobSpec, ObjectMeta, PersistentVolumeClaim,
    PersistentVolumeClaimSpec, PersistentVolumeClaimVolumeSource, Pod, PodSpec, PodTemplateSpec,
    StatefulSet, StatefulSetSpec, Volume, Workloads,
};

fn meta(name: Option<&str>, namespace: Option<&str>) -> ObjectMeta {
    ObjectMeta {
        name: name.map(str::to_string),
        namespace: namespace.map(str::to_string),
        labels: None,
        owner_references: None,
    }
}

fn volume(claim: Option<&str>) -> Volume {
    Volume {
        persistent_volume_claim: claim
            .map(|name| PersistentVolumeClaimVolumeSource { claim_name: name.to_string() }),
    }
}

fn spec(volumes: Option<Vec<Volume>>) -> PodSpec {
    PodSpec { containers: vec![], init_containers: None, volumes, security_context: None }
}

fn template(claim: &str) -> PodTemplateSpec {
    PodTemplateSpec { spec: Some(spec(Some(vec![volume(None), volume(Some(claim))]))) }
}

fn empty() -> Workloads {
    Workloads { pods: vec![], stateful_sets: vec![], deployments: vec![], jobs: vec![] }
}

fn claim(
    name: Option<&str>,
    ns: Option<&str>,
    spec: Option<Option<&str>>,
) -> PersistentVolumeClaim {
    PersistentVolumeClaim {
        metadata: meta(name, ns),
        spec: spec.map(|v| PersistentVolumeClaimSpec { volume_name: v.map(str::to_string) }),
    }
}

#[test]
fn names_come_from_all_volume_lists() {
    let first = vec![volume(Some("a")), volume(None)];
    let second = vec![volume(Some("b")), volume(Some("a"))];
    let names = pvc_names_from_volumes(&vec![Some(&first), None, Some(&second)]);
    assert_eq!(names.len(), 2);
    assert!(names.contains("a"));
    assert!(names.contains("b"));
    assert!(!names.contains("c"));
    assert!(pvc_names_from_volumes(&vec![]).is_empty());
}

fn uses(workloads: Workloads, name: &str) -> bool {
    match pvc_in_use(Ok(workloads), name) {
        Ok(in_use) => in_use,
        Err(error) => panic!("{}", error.to_string()),
    }
}

fn mounting(name: &str) -> Workloads {
    let mut workloads = empty();
    workloads.pods.push(Pod { metadata: meta(None, None), spec: None });
    workloads.pods.push(Pod {
        metadata: meta(Some("p"), None),
        spec: Some(spec(Some(vec![volume(Some(name))]))),
    });
    workloads
}

fn denied() -> LornError {
    LornError::Kube(KubeError::Api { code: 403, text: "denied".to_string() })
}

fn deployed() -> Workloads {
    let mut workloads = empty();
    workloads.deployments.push(Deployment { metadata: meta(None, None), spec: None });
    workloads.deployments.push(Deployment {
        metadata: meta(None, None),
        spec: Some(DeploymentSpec { template: template("data") }),
    });
    workloads
}

fn run_as_job() -> Workloads {
    let mut workloads = empty();
    workloads.jobs.push(Job {
        metadata: meta(None, None),
        spec: Some(JobSpec { template: PodTemplateSpec { spec: None } }),
    });
    workloads.jobs.push(Job {
        metadata: meta(None, None),
        spec: Some(JobSpec { template: template("data") }),
    });
    workloads
}

fn run_as_set() -> Workloads {
    let mut workloads = empty();
    workloads.stateful_sets.push(StatefulSet { metadata: meta(None, None), spec: None });
    workloads.stateful_sets.push(StatefulSet {
        metadata: meta(None, None),
        spec: Some(StatefulSetSpec {
            template: template("mounted"),
            volume_claim_templates: Some(vec![
                claim(None, None, None),
                claim(Some("data"), None, None),
            ]),
        }),
    });
    workloads
}

#[test]
fn each_kind_of_workload_uses_claims() {
    assert!(!uses(empty(), "data"));
    assert!(uses(mounting("data"), "data"));
    assert!(!uses(mounting("data"), "other"));
    assert!(uses(deployed(), "data"));
    assert!(!uses(deployed(), "other"));
    assert!(uses(run_as_job(), "data"));
    assert!(!uses(run_as_job(), "other"));
}

#[test]
fn a_stateful_set_uses_claims_by_its_claim_templates_only() {
    assert!(uses(run_as_set(), "data"));
    assert!(!uses(run_as_set(), "mounted"));
}

#[test]
fn unknown_workloads_leave_the_use_open() {
    assert!(matches!(
        pvc_in_use(Err(denied()), "data"),
        Err(LornError::Kube(KubeError::Api { code: 403, .. }))
    ));
}

#[test]
fn claims_without_names_get_placeholders() {
    let full = describe_claim(&claim(Some("data"), Some("prod"), Some(Some("pv-1"))));
    assert_eq!(full, ("prod".to_string(), "data".to_string(), "pv-1".to_string()));
    let bare = describe_claim(&claim(None, None, None));
    assert_eq!(bare, ("default".to_string(), "<unnamed>".to_string(), "<unbound>".to_string()));
    assert_eq!(describe_claim(&claim(None, None, Some(None))).2, "<unbound>");
}

#[test]
fn only_claims_without_use_are_orphans() {
    let checks = vec![
        (claim(Some("old"), Some("a"), None), Ok(mounting("used"))),
        (claim(Some("used"), Some("a"), Some(Some("pv-1"))), Ok(mounting("used"))),
        (claim(Some("used"), Some("b"), Some(Some("pv-2"))), Ok(mounting("other"))),
        (claim(None, None, None), Ok(empty())),
        (claim(None, None, None), Ok(mounting("<unnamed>"))),
    ];
    let orphan =
        |ns: &str, name: &str, pv: &str| (ns.to_string(), name.to_string(), pv.to_string());
    assert_eq!(
        find_orphaned_pvcs(Ok(checks)).unwrap(),
        [
            orphan("a", "old", "<unbound>"),
            orphan("b", "used", "pv-2"),
            orphan("default", "<unnamed>", "<unbound>"),
        ]
    );
    assert!(find_orphaned_pvcs(Ok(vec![])).unwrap().is_empty());
}

#[test]
fn one_failed_list_fails_the_search_for_orphans() {
    let checks = vec![
        (claim(Some("old"), Some("a"), None), Ok(empty())),
        (claim(Some("new"), Some("b"), None), Err(denied())),
        (claim(Some("last"), Some("c"), None), Err(LornError::InferConfig("late".to_string()))),
    ];
    assert!(matches!(
        find_orphaned_pvcs(Ok(checks)),
        Err(LornError::Kube(KubeError::Api { code: 403, .. }))
    ));
    let broken = KubeError::Other { text: "eof".to_string() };
    assert!(matches!(
        find_orphaned_pvcs(Err(broken)),
        Err(LornError::Kube(KubeError::Other { .. }))
    ));
}
