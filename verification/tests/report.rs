use lorn::error::{KubeError, LornError};
use lorn::images::BitnamiHit;
use lorn::objects::{Namespace, ObjectMeta};
use lorn::probes::{PortBindState, PrivilegedServicePod};
use lorn::report::{
    default_level, exit_code, gather_findings, list_namespace_names, namespaces_to_check, run,
    Findings,
};
use lorn::snapshots::CsiNoSnapshot;

fn text(s: &str) -> String {
    s.to_string()
}

fn clean() -> Findings {
    Findings {
        orphaned_pvcs: vec![],
        bitnami_hits: vec![],
        csi_no_snapshot: vec![],
        privileged_service_pods: vec![],
    }
}

fn findings() -> Findings {
    Findings {
        orphaned_pvcs: vec![(text("prod"), text("data"), text("pv-1"))],
        bitnami_hits: vec![BitnamiHit {
            kind: "pod",
            name: text("prod/web"),
            container_path: text("spec.containers[0]"),
            image: text("bitnami/nginx"),
        }],
        csi_no_snapshot: vec![
            CsiNoSnapshot {
                driver: text("a.csi"),
                pvs: vec![text("v1"), text("v2")],
                crd_missing: false,
            },
            CsiNoSnapshot { driver: text("b.csi"), pvs: vec![text("v3")], crd_missing: true },
        ],
        privileged_service_pods: vec![PrivilegedServicePod {
            namespace: text("prod"),
            pod_name: text("web-0"),
            service_name: text("web"),
            port: 80,
            protocol: text("TCP"),
            bind_state: PortBindState::Unknown,
            owner_kind: text("deployment"),
            owner_name: text("web"),
        }],
    }
}

#[test]
fn every_finding_has_its_line() {
    let report = run(false, Ok(findings())).unwrap();
    assert_eq!(
        report.lines,
        [
            "orphaned pvc prod/data pv pv-1",
            "pod prod/web spec.containers[0].image bitnami/nginx",
            "csi a.csi has no snapshot crd for pv v1",
            "csi a.csi has no snapshot crd for pv v2",
            "b.csi missing snapshot capability for pv v3",
            "pod prod/web-0 service web targetPort 80/TCP state unknown owner deployment web",
        ]
    );
    assert!(report.found);
    assert_eq!(exit_code(&Ok(report)), 1);
}

#[test]
fn a_clean_cluster_is_silent() {
    let report = run(false, Ok(clean())).unwrap();
    assert!(report.lines.is_empty());
    assert!(!report.found);
    assert_eq!(exit_code(&Ok(report)), 0);
}

#[test]
fn skipped_namespaces_count_as_a_finding() {
    let report = run(true, Ok(clean())).unwrap();
    assert!(report.lines.is_empty());
    assert!(report.found);
    assert_eq!(exit_code(&Ok(report)), 1);
}

#[test]
fn a_failed_run_ends_with_a_failure() {
    let outcome = run(false, Err(LornError::InferConfig(text("none"))));
    assert!(matches!(&outcome, Err(LornError::InferConfig(reason)) if reason == "none"));
    assert_eq!(exit_code(&outcome), 1);
}

#[test]
fn findings_are_gathered_from_every_check() {
    let all = findings();
    let gathered = gather_findings(
        Ok(all.orphaned_pvcs),
        Ok(all.bitnami_hits),
        Ok(all.csi_no_snapshot),
        Ok(all.privileged_service_pods),
    );
    assert_eq!(run(false, gathered).unwrap().lines, run(false, Ok(findings())).unwrap().lines);
}

#[test]
fn one_failed_check_fails_the_run() {
    let failed = || LornError::KubeConfig(text("failed"));
    let late = || LornError::InferConfig(text("late"));
    let outcomes = [
        gather_findings(Err(failed()), Ok(vec![]), Err(late()), Ok(vec![])),
        gather_findings(Ok(vec![]), Err(failed()), Ok(vec![]), Err(late())),
        gather_findings(Ok(vec![]), Ok(vec![]), Err(failed()), Err(late())),
        gather_findings(Ok(vec![]), Ok(vec![]), Ok(vec![]), Err(failed())),
    ];
    for outcome in outcomes {
        assert!(matches!(run(false, outcome), Err(LornError::KubeConfig(_))));
    }
}

#[test]
fn namespaces_without_name_are_the_default() {
    let namespace = |name: Option<&str>| Namespace {
        metadata: ObjectMeta {
            name: name.map(text),
            namespace: None,
            labels: None,
            owner_references: None,
        },
    };
    let names = list_namespace_names(Ok(vec![namespace(Some("prod")), namespace(None)]));
    assert_eq!(names.unwrap(), ["prod", "default"]);
    let denied = KubeError::Api { code: 403, text: text("denied") };
    assert!(matches!(
        list_namespace_names(Err(denied)),
        Err(LornError::Kube(KubeError::Api { code: 403, .. }))
    ));
}

#[test]
fn namespaces_that_cannot_be_listed_are_skipped() {
    let (names, skipped) = namespaces_to_check(Ok(vec![text("a")]));
    assert_eq!(names, ["a"]);
    assert!(skipped.is_none());
    let (names, skipped) = namespaces_to_check(Err(LornError::KubeConfig(text("x"))));
    assert!(names.is_empty());
    assert!(matches!(skipped, Some(LornError::KubeConfig(_))));
}

#[test]
fn more_detail_lowers_the_log_level() {
    assert_eq!(default_level(0), "info");
    assert_eq!(default_level(1), "debug");
    assert_eq!(default_level(2), "trace");
    assert_eq!(default_level(u8::MAX), "trace");
}
