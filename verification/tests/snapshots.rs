use lorn::error::{KubeError, LornError};
use lorn::objects::{
    CsiPersistentVolumeSource, DynamicData, DynamicObject, FieldValue, ObjectMeta,
    PersistentVolume, PersistentVolumeSpec,
};
use lorn::snapshots::find_csi_no_snapshot;
use lorn::string_map::StringMap;

fn pv(name: Option<&str>, driver: Option<&str>) -> PersistentVolume {
    PersistentVolume {
        metadata: ObjectMeta {
            name: name.map(str::to_string),
            namespace: None,
            labels: None,
            owner_references: None,
        },
        spec: Some(PersistentVolumeSpec {
            csi: driver.map(|d| CsiPersistentVolumeSource { driver: d.to_string() }),
        }),
    }
}

fn class(driver: &str) -> DynamicObject {
    DynamicObject {
        data: DynamicData::Object(
            StringMap::new()
                .with("deletionPolicy".to_string(), FieldValue::Text("Delete".to_string()))
                .with("driver".to_string(), FieldValue::Text(driver.to_string())),
        ),
    }
}

fn api_error(code: u16) -> KubeError {
    KubeError::Api { code, text: format!("status {code}") }
}

fn volumes() -> Vec<PersistentVolume> {
    vec![
        pv(Some("v3"), Some("ebs.csi.aws.com")),
        pv(Some("v1"), Some("csi.san.synology.com")),
        pv(None, Some("ebs.csi.aws.com")),
        pv(Some("local"), None),
        pv(Some("v2"), Some("ebs.csi.aws.com")),
        pv(Some("v2"), Some("ebs.csi.aws.com")),
    ]
}

#[test]
fn drivers_without_a_class_are_reported_in_order() {
    let report = find_csi_no_snapshot(Ok(volumes()), Ok(vec![])).unwrap();
    assert_eq!(report.len(), 2);
    assert_eq!(report[0].driver, "csi.san.synology.com");
    assert_eq!(report[0].pvs, ["v1"]);
    assert_eq!(report[1].driver, "ebs.csi.aws.com");
    assert_eq!(report[1].pvs, ["<unnamed>", "v2", "v2", "v3"]);
    assert!(report.iter().all(|group| !group.crd_missing));
}

#[test]
fn drivers_with_a_class_are_left_out() {
    let odd = DynamicObject { data: DynamicData::Other };
    let wrong = DynamicObject {
        data: DynamicData::Object(StringMap::new().with("driver".to_string(), FieldValue::Other)),
    };
    let classes = vec![odd, wrong, class("ebs.csi.aws.com")];
    let report = find_csi_no_snapshot(Ok(volumes()), Ok(classes)).unwrap();
    assert_eq!(report.len(), 1);
    assert_eq!(report[0].driver, "csi.san.synology.com");
    let all = vec![class("csi.san.synology.com"), class("ebs.csi.aws.com")];
    assert!(find_csi_no_snapshot(Ok(volumes()), Ok(all)).unwrap().is_empty());
}

#[test]
fn a_missing_definition_counts_for_every_driver() {
    let report = find_csi_no_snapshot(Ok(volumes()), Err(api_error(404))).unwrap();
    assert_eq!(report.len(), 2);
    assert!(report.iter().all(|group| group.crd_missing));
}

#[test]
fn other_failures_are_handed_on() {
    let denied = find_csi_no_snapshot(Ok(volumes()), Err(api_error(403)));
    assert!(matches!(denied, Err(LornError::Kube(KubeError::Api { code: 403, .. }))));
    let broken = find_csi_no_snapshot(Ok(volumes()), Err(KubeError::Other { text: "eof".into() }));
    assert!(matches!(broken, Err(LornError::Kube(KubeError::Other { .. }))));
    let volumes_first = find_csi_no_snapshot(Err(api_error(500)), Err(api_error(404)));
    assert!(matches!(volumes_first, Err(LornError::Kube(KubeError::Api { code: 500, .. }))));
}
