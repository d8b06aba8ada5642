//! Storage drivers whose volumes cannot be snapshotted.
use crate::error::{KubeError, LornError};
#[allow(unused_imports)]
use crate::objects::name_or;
use crate::objects::{copy_name_or, DynamicData, DynamicObject, FieldValue, PersistentVolume};
#[allow(unused_imports)]
use crate::outcome::viewed;
#[allow(unused_imports)]
use crate::search::lemma_filter_holds;
use crate::sorted::insert_in_order;
#[allow(unused_imports)]
use crate::sorted::{in_order, law_in_order};
#[allow(unused_imports)]
use crate::string_map::StringMap;
#[allow(unused_imports)]
use crate::text::{
    lemma_precedes_asymmetric, lemma_precedes_total, lemma_precedes_transitive, precedes,
};
use crate::text::{comes_before, same};
use vstd::prelude::*;
#[allow(unused_imports)]
use vstd::seq_lib::to_multiset_contains;
#[allow(unused_imports)]
use vstd::string::*;

verus! {

/// A driver that serves volumes and has no snapshot class.
#[derive(Debug)]
pub struct CsiNoSnapshot {
    /// The name of the driver, such as `ebs.csi.aws.com`.
    pub driver: String,
    /// The volumes that use the driver.
    pub pvs: Vec<String>,
    /// Whether the cluster does not know snapshot classes at all.
    pub crd_missing: bool,
}

/// A driver that serves volumes and has no snapshot class, as text.
pub ghost struct CsiNoSnapshotView {
    pub driver: Seq<char>,
    pub pvs: Seq<Seq<char>>,
    pub crd_missing: bool,
}

impl DeepView for CsiNoSnapshot {
    type V = CsiNoSnapshotView;

    open spec fn deep_view(&self) -> CsiNoSnapshotView {
        CsiNoSnapshotView {
            driver: self.driver@,
            pvs: self.pvs.deep_view(),
            crd_missing: self.crd_missing,
        }
    }
}

/// The driver that a snapshot class is for: the text in its field `driver`.
pub open spec fn class_driver(class: DynamicObject) -> Option<Seq<char>> {
    match class.data {
        DynamicData::Object(fields) => if fields@.contains_key("driver"@) {
            match fields@["driver"@] {
                FieldValue::Text(driver) => Some(driver@),
                FieldValue::Other => None,
            }
        } else {
            None
        },
        DynamicData::Other => None,
    }
}

/// Whether one of the snapshot classes is for `driver`.
pub open spec fn has_class(classes: Seq<DynamicObject>, driver: Seq<char>) -> bool {
    exists|i: int| 0 <= i < classes.len() && class_driver(#[trigger] classes[i]) == Some(driver)
}

/// Whether `driver` cannot snapshot: there are no snapshot classes in the
/// cluster (`None`), or none of them is for the driver.
pub open spec fn cannot_snapshot(classes: Option<Seq<DynamicObject>>, driver: Seq<char>) -> bool {
    match classes {
        Some(classes) => !has_class(classes, driver),
        None => true,
    }
}

/// The driver that serves a volume, if it is served through one.
pub open spec fn volume_driver(pv: PersistentVolume) -> Option<Seq<char>> {
    match pv.spec {
        Some(spec) => match spec.csi {
            Some(csi) => Some(csi.driver@),
            None => None,
        },
        None => None,
    }
}

/// The name of a volume.
pub open spec fn volume_name(pv: PersistentVolume) -> Seq<char> {
    name_or(pv.metadata.name, "<unnamed>"@)
}

/// The names of the volumes that `driver` serves.
pub open spec fn volumes_of(pvs: Seq<PersistentVolume>, driver: Seq<char>) -> Seq<Seq<char>> {
    pvs.filter(|pv: PersistentVolume| volume_driver(pv) == Some(driver)).map_values(
        |pv: PersistentVolume| volume_name(pv),
    )
}

/// Whether `report` names exactly the drivers that serve volumes and cannot
/// snapshot: in the order of their names, each once, and each with the names
/// of all its volumes in order.
pub open spec fn reports_drivers(
    report: Seq<CsiNoSnapshotView>,
    pvs: Seq<PersistentVolume>,
    classes: Option<Seq<DynamicObject>>,
) -> bool {
    &&& forall|i: int, j: int|
        0 <= i < j < report.len() ==> precedes(
            #[trigger] report[i].driver,
            #[trigger] report[j].driver,
        )
    &&& forall|i: int|
        0 <= i < report.len() ==> {
            let group = #[trigger] report[i];
            &&& cannot_snapshot(classes, group.driver)
            &&& group.pvs.len() > 0
            &&& in_order(group.pvs)
            &&& group.pvs.to_multiset() == volumes_of(pvs, group.driver).to_multiset()
            &&& group.crd_missing == (classes is None)
        }
    &&& forall|k: int|
        0 <= k < pvs.len() ==> match volume_driver(#[trigger] pvs[k]) {
            Some(driver) => cannot_snapshot(classes, driver) ==> exists|i: int|
                0 <= i < report.len() && #[trigger] report[i].driver == driver,
            None => true,
        }
}

/// One more volume joins the volumes of its own driver only.
proof fn lemma_volumes_of_push(
    pvs: Seq<PersistentVolume>,
    pv: PersistentVolume,
    driver: Seq<char>,
)
    ensures
        volume_driver(pv) == Some(driver) ==> volumes_of(pvs.push(pv), driver) == volumes_of(
            pvs,
            driver,
        ).push(volume_name(pv)),
        volume_driver(pv) != Some(driver) ==> volumes_of(pvs.push(pv), driver) == volumes_of(
            pvs,
            driver,
        ),
{
    let serves = |pv: PersistentVolume| volume_driver(pv) == Some(driver);
    pvs.lemma_filter_push(pv, serves);
    assert(volumes_of(pvs.push(pv), driver) =~= if volume_driver(pv) == Some(driver) {
        volumes_of(pvs, driver).push(volume_name(pv))
    } else {
        volumes_of(pvs, driver)
    });
}

/// A driver that serves none of the volumes has none.
proof fn lemma_no_volumes(pvs: Seq<PersistentVolume>, driver: Seq<char>)
    requires
        forall|k: int| 0 <= k < pvs.len() ==> volume_driver(#[trigger] pvs[k]) != Some(driver),
    ensures
        volumes_of(pvs, driver).len() == 0,
    decreases pvs.len(),
{
    if pvs.len() > 0 {
        let rest = pvs.drop_last();
        assert forall|k: int| 0 <= k < rest.len() implies volume_driver(#[trigger] rest[k]) != Some(
            driver,
        ) by {
            assert(rest[k] == pvs[k]);
        }
        lemma_no_volumes(rest, driver);
        assert(rest.push(pvs.last()) =~= pvs);
        lemma_volumes_of_push(rest, pvs.last(), driver);
    } else {
        assert(pvs =~= Seq::<PersistentVolume>::empty());
        reveal(Seq::filter);
    }
}

/// Adds a volume to the group of its driver.
fn add_volume(
    report: Vec<CsiNoSnapshot>,
    driver: &str,
    name: String,
    crd_missing: bool,
    Ghost(pvs): Ghost<Seq<PersistentVolume>>,
    Ghost(pv): Ghost<PersistentVolume>,
    Ghost(classes): Ghost<Option<Seq<DynamicObject>>>,
) -> (longer: Vec<CsiNoSnapshot>)
    requires
        reports_drivers(report.deep_view(), pvs, classes),
        volume_driver(pv) == Some(driver@),
        volume_name(pv) == name@,
        cannot_snapshot(classes, driver@),
        crd_missing == (classes is None),
    ensures
        reports_drivers(longer.deep_view(), pvs.push(pv), classes),
{
    let mut longer = report;
    let ghost before = longer.deep_view();
    let mut i: usize = 0;
    while i < longer.len() && comes_before(longer[i].driver.as_str(), driver)
        invariant
            i <= longer.len(),
            longer.deep_view() == before,
            forall|j: int| 0 <= j < i ==> precedes(#[trigger] before[j].driver, driver@),
        decreases longer.len() - i,
    {
        assert(before[i as int].driver == longer@[i as int].driver@);
        i += 1;
    }
    proof {
        assert(i < before.len() ==> before[i as int].driver == longer@[i as int].driver@);
        lemma_precedes_asymmetric(driver@, driver@);
        assert forall|j: int| 0 <= j < before.len() && j != i implies {
            &&& (j < i ==> precedes(#[trigger] before[j].driver, driver@))
            &&& (j > i ==> precedes(driver@, before[j].driver))
        } by {
            if j > i {
                lemma_precedes_total(driver@, before[i as int].driver);
                if driver@ != before[i as int].driver {
                    lemma_precedes_transitive(
                        driver@,
                        before[i as int].driver,
                        before[j].driver,
                    );
                }
            }
        }
        if i < before.len() {
            lemma_precedes_total(driver@, before[i as int].driver);
        }
        assert forall|d: Seq<char>| d != driver@ implies #[trigger] volumes_of(pvs.push(pv), d)
            == volumes_of(pvs, d) by {
            lemma_volumes_of_push(pvs, pv, d);
        }
        lemma_volumes_of_push(pvs, pv, driver@);
        volumes_of(pvs, driver@).to_multiset_ensures();
    }
    if i < longer.len() && same(longer[i].driver.as_str(), driver) {
        let group = longer.remove(i);
        let ghost old_group = group.deep_view();
        let CsiNoSnapshot { driver: known, pvs: names, crd_missing: missing } = group;
        let names = insert_in_order(names, name);
        let group = CsiNoSnapshot { driver: known, pvs: names, crd_missing: missing };
        longer.insert(i, group);
        proof {
            let after = longer.deep_view();
            assert(after =~= before.update(i as int, group.deep_view()));
            assert(before[i as int] == old_group);
            assert forall|k: int| 0 <= k < pvs.push(pv).len() implies match volume_driver(
                #[trigger] pvs.push(pv)[k],
            ) {
                Some(d) => cannot_snapshot(classes, d) ==> exists|g: int|
                    0 <= g < after.len() && #[trigger] after[g].driver == d,
                None => true,
            } by {
                if k == pvs.len() {
                    assert(after[i as int].driver == driver@);
                } else {
                    assert(pvs.push(pv)[k] == pvs[k]);
                    if let Some(d) = volume_driver(pvs[k]) {
                        if cannot_snapshot(classes, d) {
                            let g = choose|g: int|
                                0 <= g < before.len() && #[trigger] before[g].driver == d;
                            assert(after[g].driver == d);
                        }
                    }
                }
            }
        }
    } else {
        let mut names: Vec<String> = Vec::new();
        names.push(name);
        let group = CsiNoSnapshot { driver: driver.to_owned(), pvs: names, crd_missing };
        longer.insert(i, group);
        proof {
            let after = longer.deep_view();
            assert(after =~= before.insert(i as int, group.deep_view()));
            assert(group.deep_view().pvs =~= seq![name@]);
            assert forall|k: int| 0 <= k < pvs.len() implies volume_driver(#[trigger] pvs[k])
                != Some(driver@) by {
                if volume_driver(pvs[k]) == Some(driver@) {
                    let g = choose|g: int|
                        0 <= g < before.len() && #[trigger] before[g].driver == driver@;
                    assert(before[g].driver == driver@);
                }
            }
            lemma_no_volumes(pvs, driver@);
            assert(volumes_of(pvs.push(pv), driver@) =~= seq![name@]);
            assert forall|a: int| 0 <= a < after.len() && a != i implies after[a] == (if a < i {
                before[a]
            } else {
                before[a - 1]
            }) by {}
            assert forall|a: int, b: int| 0 <= a < b < after.len() implies precedes(
                #[trigger] after[a].driver,
                #[trigger] after[b].driver,
            ) by {
                let from_a = if a < i { a } else { a - 1 };
                let from_b = if b < i { b } else { b - 1 };
                if a != i {
                    assert(after[a] == before[from_a]);
                }
                if b != i {
                    assert(after[b] == before[from_b]);
                }
                if i < before.len() {
                    assert(precedes(driver@, before[i as int].driver));
                }
            }
            assert forall|k: int| 0 <= k < pvs.push(pv).len() implies match volume_driver(
                #[trigger] pvs.push(pv)[k],
            ) {
                Some(d) => cannot_snapshot(classes, d) ==> exists|g: int|
                    0 <= g < after.len() && #[trigger] after[g].driver == d,
                None => true,
            } by {
                if k == pvs.len() {
                    assert(after[i as int].driver == driver@);
                } else {
                    assert(pvs.push(pv)[k] == pvs[k]);
                    if let Some(d) = volume_driver(pvs[k]) {
                        if cannot_snapshot(classes, d) {
                            let g = choose|g: int|
                                0 <= g < before.len() && #[trigger] before[g].driver == d;
                            assert(after[if g < i { g } else { g + 1 }].driver == d);
                        }
                    }
                }
            }
        }
    }
    longer
}

/// The driver that a snapshot class is for.
fn driver_of(class: &DynamicObject) -> (driver: Option<&String>)
    ensures
        driver.deep_view() == class_driver(*class),
{
    match &class.data {
        DynamicData::Object(fields) => match fields.get("driver") {
            Some(FieldValue::Text(driver)) => Some(driver),
            _ => None,
        },
        DynamicData::Other => None,
    }
}

/// Whether one of the snapshot classes is for `driver`.
fn snapshot_capable(classes: &Vec<DynamicObject>, driver: &str) -> (capable: bool)
    ensures
        capable == has_class(classes@, driver@),
{
    let mut i: usize = 0;
    while i < classes.len()
        invariant
            i <= classes.len(),
            forall|j: int| 0 <= j < i ==> class_driver(#[trigger] classes@[j]) != Some(driver@),
        decreases classes.len() - i,
    {
        if let Some(named) = driver_of(&classes[i]) {
            if same(named.as_str(), driver) {
                assert(class_driver(classes@[i as int]) == Some(driver@));
                return true;
            }
        }
        i += 1;
    }
    false
}

/// The snapshot classes, if the cluster knows them.
pub open spec fn known_classes(classes: Option<Vec<DynamicObject>>) -> Option<
    Seq<DynamicObject>,
> {
    match classes {
        Some(classes) => Some(classes@),
        None => None,
    }
}

/// The drivers that serve volumes and cannot snapshot, where `classes` holds
/// the snapshot classes, or nothing where the cluster does not know them.
pub fn drivers_without_snapshots(
    pvs: &Vec<PersistentVolume>,
    classes: &Option<Vec<DynamicObject>>,
) -> (report: Vec<CsiNoSnapshot>)
    ensures
        reports_drivers(report.deep_view(), pvs@, known_classes(*classes)),
{
    let ghost known = known_classes(*classes);
    let mut report: Vec<CsiNoSnapshot> = Vec::new();
    let mut i: usize = 0;
    while i < pvs.len()
        invariant
            i <= pvs.len(),
            known == known_classes(*classes),
            reports_drivers(report.deep_view(), pvs@.take(i as int), known),
        decreases pvs.len() - i,
    {
        let pv = &pvs[i];
        let ghost earlier = pvs@.take(i as int);
        let mut lacking: Option<&String> = None;
        if let Some(spec) = &pv.spec {
            if let Some(csi) = &spec.csi {
                let capable = match classes {
                    Some(classes) => snapshot_capable(classes, csi.driver.as_str()),
                    None => false,
                };
                if !capable {
                    lacking = Some(&csi.driver);
                }
            }
        }
        match lacking {
            Some(driver) => {
                let name = copy_name_or(&pv.metadata.name, "<unnamed>");
                report = add_volume(
                    report,
                    driver.as_str(),
                    name,
                    classes.is_none(),
                    Ghost(earlier),
                    Ghost(*pv),
                    Ghost(known),
                );
            },
            None => {
                proof {
                    lemma_skip_volume(report.deep_view(), earlier, *pv, known);
                }
            },
        }
        assert(pvs@.take(i + 1) =~= earlier.push(*pv));
        i += 1;
    }
    assert(pvs@.take(pvs.len() as int) =~= pvs@);
    report
}

/// A volume that no driver serves, or that a driver serves which can
/// snapshot, changes nothing in the report.
proof fn lemma_skip_volume(
    report: Seq<CsiNoSnapshotView>,
    pvs: Seq<PersistentVolume>,
    pv: PersistentVolume,
    classes: Option<Seq<DynamicObject>>,
)
    requires
        reports_drivers(report, pvs, classes),
        volume_driver(pv) matches Some(driver) ==> !cannot_snapshot(classes, driver),
    ensures
        reports_drivers(report, pvs.push(pv), classes),
{
    assert forall|i: int| 0 <= i < report.len() implies volumes_of(
        pvs.push(pv),
        (#[trigger] report[i]).driver,
    ) == volumes_of(pvs, report[i].driver) by {
        lemma_volumes_of_push(pvs, pv, report[i].driver);
    }
    assert forall|k: int| 0 <= k < pvs.push(pv).len() implies match volume_driver(
        #[trigger] pvs.push(pv)[k],
    ) {
        Some(driver) => cannot_snapshot(classes, driver) ==> exists|i: int|
            0 <= i < report.len() && #[trigger] report[i].driver == driver,
        None => true,
    } by {
        if k < pvs.len() {
            assert(pvs.push(pv)[k] == pvs[k]);
        }
    }
}

/// Whether `report` is what the answers of the server come to: the error of the
/// list of volumes, or else that of the list of classes, unless that error is
/// status 404, by which the server says that it does not know them.
pub open spec fn csi_reported(
    pvs: Result<Vec<PersistentVolume>, KubeError>,
    classes: Result<Vec<DynamicObject>, KubeError>,
    report: Result<Seq<CsiNoSnapshotView>, LornError>,
) -> bool {
    match (pvs, classes) {
        (Err(error), _) => report == Err::<Seq<CsiNoSnapshotView>, LornError>(
            LornError::Kube(error),
        ),
        (Ok(pvs), Ok(classes)) => report is Ok && reports_drivers(
            report->Ok_0,
            pvs@,
            Some(classes@),
        ),
        (Ok(pvs), Err(error)) => if error.status() == Some(404u16) {
            report is Ok && reports_drivers(report->Ok_0, pvs@, None)
        } else {
            report == Err::<Seq<CsiNoSnapshotView>, LornError>(LornError::Kube(error))
        },
    }
}

/// The drivers that serve volumes and cannot snapshot, from what the server
/// answered to the lists of volumes and of snapshot classes. A server that
/// does not know snapshot classes answers the second with status 404.
pub fn find_csi_no_snapshot(
    pvs: Result<Vec<PersistentVolume>, KubeError>,
    classes: Result<Vec<DynamicObject>, KubeError>,
) -> (report: Result<Vec<CsiNoSnapshot>, LornError>)
    ensures
        match (pvs, classes) {
            (Err(error), _) => report == Err::<Vec<CsiNoSnapshot>, LornError>(
                LornError::Kube(error),
            ),
            (Ok(pvs), Ok(classes)) => report is Ok && reports_drivers(
                report->Ok_0.deep_view(),
                pvs@,
                Some(classes@),
            ),
            (Ok(pvs), Err(error)) => if error.status() == Some(404u16) {
                report is Ok && reports_drivers(report->Ok_0.deep_view(), pvs@, None)
            } else {
                report == Err::<Vec<CsiNoSnapshot>, LornError>(LornError::Kube(error))
            },
        },
        csi_reported(pvs, classes, viewed(report)),
{
    let pvs = match pvs {
        Ok(pvs) => pvs,
        Err(error) => {
            return Err(LornError::Kube(error));
        },
    };
    let classes = match classes {
        Ok(classes) => Some(classes),
        Err(KubeError::Api { code: 404, .. }) => None,
        Err(error) => {
            return Err(LornError::Kube(error));
        },
    };
    Ok(drivers_without_snapshots(&pvs, &classes))
}

/// Every volume of a driver that cannot snapshot is reported under its
/// driver, and a driver that can snapshot is not reported.
pub proof fn law_volumes_reported(
    report: Seq<CsiNoSnapshotView>,
    pvs: Seq<PersistentVolume>,
    classes: Option<Seq<DynamicObject>>,
    k: int,
)
    requires
        reports_drivers(report, pvs, classes),
        0 <= k < pvs.len(),
        volume_driver(pvs[k]) is Some,
    ensures
        cannot_snapshot(classes, volume_driver(pvs[k])->0) ==> exists|i: int|
            0 <= i < report.len() && (#[trigger] report[i]).driver == volume_driver(pvs[k])->0
                && report[i].pvs.contains(volume_name(pvs[k])),
        !cannot_snapshot(classes, volume_driver(pvs[k])->0) ==> forall|i: int|
            0 <= i < report.len() ==> (#[trigger] report[i]).driver != volume_driver(pvs[k])->0,
{
    let driver = volume_driver(pvs[k])->0;
    if cannot_snapshot(classes, driver) {
        let i = choose|i: int| 0 <= i < report.len() && #[trigger] report[i].driver == driver;
        let group = report[i];
        let serves = |pv: PersistentVolume| volume_driver(pv) == Some(driver);
        let name = volume_name(pvs[k]);
        let served = pvs.filter(serves);
        assert(pvs.contains(pvs[k]));
        lemma_filter_holds(pvs, serves, pvs[k]);
        let j = choose|j: int| 0 <= j < served.len() && served[j] == pvs[k];
        assert(volumes_of(pvs, driver)[j] == name);
        assert(volumes_of(pvs, driver).contains(name));
        to_multiset_contains(volumes_of(pvs, driver), name);
        to_multiset_contains(group.pvs, name);
        assert(report[i].pvs.contains(name));
    }
}

/// Every name that is reported under a driver is that of a volume which the
/// driver serves, and the driver cannot snapshot.
pub proof fn law_only_volumes_reported(
    report: Seq<CsiNoSnapshotView>,
    pvs: Seq<PersistentVolume>,
    classes: Option<Seq<DynamicObject>>,
    i: int,
    name: Seq<char>,
)
    requires
        reports_drivers(report, pvs, classes),
        0 <= i < report.len(),
        report[i].pvs.contains(name),
    ensures
        cannot_snapshot(classes, report[i].driver),
        exists|k: int|
            0 <= k < pvs.len() && volume_driver(#[trigger] pvs[k]) == Some(report[i].driver)
                && volume_name(pvs[k]) == name,
{
    let driver = report[i].driver;
    let serves = |pv: PersistentVolume| volume_driver(pv) == Some(driver);
    let served = pvs.filter(serves);
    let names = volumes_of(pvs, driver);
    to_multiset_contains(report[i].pvs, name);
    to_multiset_contains(names, name);
    let j = choose|j: int| 0 <= j < names.len() && names[j] == name;
    assert(served.contains(served[j]));
    lemma_filter_holds(pvs, serves, served[j]);
    let k = choose|k: int| 0 <= k < pvs.len() && pvs[k] == served[j];
    assert(volume_driver(pvs[k]) == Some(driver));
}

/// A reported driver serves a volume.
proof fn lemma_reported_serves(
    report: Seq<CsiNoSnapshotView>,
    pvs: Seq<PersistentVolume>,
    classes: Option<Seq<DynamicObject>>,
    i: int,
)
    requires
        reports_drivers(report, pvs, classes),
        0 <= i < report.len(),
    ensures
        exists|k: int|
            0 <= k < pvs.len() && volume_driver(#[trigger] pvs[k]) == Some(report[i].driver),
{
    let driver = report[i].driver;
    if forall|k: int| 0 <= k < pvs.len() ==> volume_driver(#[trigger] pvs[k]) != Some(driver) {
        lemma_no_volumes(pvs, driver);
        volumes_of(pvs, driver).to_multiset_ensures();
        report[i].pvs.to_multiset_ensures();
    }
}

/// A driver that one report names the other names too.
proof fn lemma_same_drivers(
    left: Seq<CsiNoSnapshotView>,
    right: Seq<CsiNoSnapshotView>,
    pvs: Seq<PersistentVolume>,
    classes: Option<Seq<DynamicObject>>,
    i: int,
) -> (j: int)
    requires
        reports_drivers(left, pvs, classes),
        reports_drivers(right, pvs, classes),
        0 <= i < left.len(),
    ensures
        0 <= j < right.len(),
        right[j].driver == left[i].driver,
{
    lemma_reported_serves(left, pvs, classes, i);
    let k = choose|k: int|
        0 <= k < pvs.len() && volume_driver(#[trigger] pvs[k]) == Some(left[i].driver);
    assert(cannot_snapshot(classes, left[i].driver));
    choose|j: int| 0 <= j < right.len() && #[trigger] right[j].driver == left[i].driver
}

/// Two reports name the same driver at the same place.
proof fn lemma_same_place(
    left: Seq<CsiNoSnapshotView>,
    right: Seq<CsiNoSnapshotView>,
    pvs: Seq<PersistentVolume>,
    classes: Option<Seq<DynamicObject>>,
    i: int,
)
    requires
        reports_drivers(left, pvs, classes),
        reports_drivers(right, pvs, classes),
        0 <= i < left.len(),
    ensures
        i < right.len(),
        right[i].driver == left[i].driver,
    decreases i,
{
    let j = lemma_same_drivers(left, right, pvs, classes, i);
    if j < i {
        lemma_same_place(left, right, pvs, classes, j);
        lemma_precedes_asymmetric(left[j].driver, left[i].driver);
    } else if j > i {
        let h = lemma_same_drivers(right, left, pvs, classes, i);
        lemma_precedes_asymmetric(right[i].driver, right[j].driver);
        if h < i {
            lemma_same_place(left, right, pvs, classes, h);
            lemma_precedes_asymmetric(right[h].driver, right[i].driver);
        } else if h > i {
            lemma_precedes_asymmetric(left[i].driver, left[h].driver);
        }
    }
}

/// Two rows in order with the same texts are the same row.
proof fn lemma_order_unique(left: Seq<Seq<char>>, right: Seq<Seq<char>>)
    requires
        in_order(left),
        in_order(right),
        left.to_multiset() == right.to_multiset(),
    ensures
        left == right,
{
    let leq = |a: Seq<char>, b: Seq<char>| !precedes(b, a);
    assert forall|a: Seq<char>| #[trigger] leq(a, a) by {
        lemma_precedes_asymmetric(a, a);
    }
    assert forall|a: Seq<char>, b: Seq<char>| #[trigger] leq(a, b) && #[trigger] leq(b, a) implies a
        == b by {
        lemma_precedes_total(a, b);
    }
    assert forall|a: Seq<char>, b: Seq<char>, c: Seq<char>| #[trigger]
        leq(a, b) && #[trigger] leq(b, c) implies leq(a, c) by {
        lemma_precedes_total(a, b);
        lemma_precedes_total(b, c);
        lemma_precedes_asymmetric(a, c);
        if a != b && b != c {
            lemma_precedes_transitive(a, b, c);
        }
    }
    assert forall|a: Seq<char>, b: Seq<char>| #[trigger] leq(a, b) || leq(b, a) by {
        lemma_precedes_asymmetric(a, b);
    }
    assert(vstd::relations::sorted_by(left, leq)) by {
        assert forall|i: int, j: int| 0 <= i < j < left.len() implies #[trigger] leq(
            left[i],
            left[j],
        ) by {}
    }
    assert(vstd::relations::sorted_by(right, leq)) by {
        assert forall|i: int, j: int| 0 <= i < j < right.len() implies #[trigger] leq(
            right[i],
            right[j],
        ) by {}
    }
    vstd::seq_lib::lemma_sorted_unique(left, right, leq);
}

/// Volumes and snapshot classes determine the report.
pub proof fn law_one_report(
    left: Seq<CsiNoSnapshotView>,
    right: Seq<CsiNoSnapshotView>,
    pvs: Seq<PersistentVolume>,
    classes: Option<Seq<DynamicObject>>,
)
    requires
        reports_drivers(left, pvs, classes),
        reports_drivers(right, pvs, classes),
    ensures
        left == right,
{
    if left.len() > 0 {
        lemma_same_place(left, right, pvs, classes, left.len() - 1);
    }
    if right.len() > 0 {
        lemma_same_place(right, left, pvs, classes, right.len() - 1);
    }
    assert forall|i: int| 0 <= i < left.len() implies left[i] == right[i] by {
        lemma_same_place(left, right, pvs, classes, i);
        lemma_order_unique(left[i].pvs, right[i].pvs);
    }
    assert(left =~= right);
}

/// A snapshot class counts for the driver that its field `driver` names,
/// whatever its other fields are: that driver is not reported, and a class with
/// the same text there counts for the same driver.
pub proof fn law_class_counts(
    report: Seq<CsiNoSnapshotView>,
    pvs: Seq<PersistentVolume>,
    classes: Seq<DynamicObject>,
    c: int,
    fields: StringMap<FieldValue>,
    driver: String,
)
    requires
        reports_drivers(report, pvs, Some(classes)),
        0 <= c < classes.len(),
        classes[c].data == DynamicData::Object(fields),
        fields@.contains_key("driver"@),
        fields@["driver"@] == FieldValue::Text(driver),
    ensures
        forall|i: int| 0 <= i < report.len() ==> (#[trigger] report[i]).driver != driver@,
{
    assert(class_driver(classes[c]) == Some(driver@));
    assert(has_class(classes, driver@));
}

/// Every volume that a driver serves is reported under its driver where the
/// cluster does not know snapshot classes, or where the field `driver` of no
/// class holds the driver's name.
pub proof fn law_volume_without_class(
    report: Seq<CsiNoSnapshotView>,
    pvs: Seq<PersistentVolume>,
    classes: Option<Seq<DynamicObject>>,
    k: int,
)
    requires
        reports_drivers(report, pvs, classes),
        0 <= k < pvs.len(),
        pvs[k].spec is Some,
        pvs[k].spec->0.csi is Some,
        classes matches Some(classes) ==> forall|c: int|
            0 <= c < classes.len() ==> !((#[trigger] classes[c]).data matches DynamicData::Object(
                fields,
            ) && fields@.contains_key("driver"@) && (fields@["driver"@] matches FieldValue::Text(
                text,
            ) && text@ == pvs[k].spec->0.csi->0.driver@)),
    ensures
        exists|i: int|
            0 <= i < report.len() && (#[trigger] report[i]).driver
                == pvs[k].spec->0.csi->0.driver@ && report[i].pvs.contains(
                match pvs[k].metadata.name {
                    Some(name) => name@,
                    None => "<unnamed>"@,
                },
            ),
{
    let driver = pvs[k].spec->0.csi->0.driver@;
    assert(volume_driver(pvs[k]) == Some(driver));
    if let Some(classes) = classes {
        if has_class(classes, driver) {
            let c = choose|c: int|
                0 <= c < classes.len() && class_driver(#[trigger] classes[c]) == Some(driver);
            assert(classes[c].data is Object);
            assert(false);
        }
    }
    assert(cannot_snapshot(classes, driver));
    law_volumes_reported(report, pvs, classes, k);
}

/// The names of volumes of a driver, counted in the volumes themselves.
proof fn lemma_volumes_counted(pvs: Seq<PersistentVolume>, driver: Seq<char>, name: Seq<char>)
    ensures
        volumes_of(pvs, driver).to_multiset().count(name) == pvs.filter(
            |pv: PersistentVolume|
                {
                    &&& pv.spec is Some
                    &&& pv.spec->0.csi is Some
                    &&& pv.spec->0.csi->0.driver@ == driver
                    &&& name == match pv.metadata.name {
                        Some(name) => name@,
                        None => "<unnamed>"@,
                    }
                },
        ).len(),
    decreases pvs.len(),
{
    let wanted = |pv: PersistentVolume|
        {
            &&& pv.spec is Some
            &&& pv.spec->0.csi is Some
            &&& pv.spec->0.csi->0.driver@ == driver
            &&& name == match pv.metadata.name {
                Some(name) => name@,
                None => "<unnamed>"@,
            }
        };
    if pvs.len() == 0 {
        lemma_no_volumes(pvs, driver);
        reveal(Seq::filter);
        assert(pvs.filter(wanted) =~= Seq::empty());
        volumes_of(pvs, driver).to_multiset_ensures();
    } else {
        let rest = pvs.drop_last();
        let pv = pvs.last();
        lemma_volumes_counted(rest, driver, name);
        assert(rest.push(pv) =~= pvs);
        lemma_volumes_of_push(rest, pv, driver);
        rest.lemma_filter_push(pv, wanted);
        volumes_of(rest, driver).to_multiset_ensures();
        assert(volume_driver(pv) == Some(driver) <==> pv.spec is Some && pv.spec->0.csi is Some
            && pv.spec->0.csi->0.driver@ == driver);
    }
}

/// Under a reported driver each name stands as often as volumes of that name
/// are served by the driver.
pub proof fn law_volumes_counted(
    report: Seq<CsiNoSnapshotView>,
    pvs: Seq<PersistentVolume>,
    classes: Option<Seq<DynamicObject>>,
    i: int,
    name: Seq<char>,
)
    requires
        reports_drivers(report, pvs, classes),
        0 <= i < report.len(),
    ensures
        report[i].pvs.to_multiset().count(name) == pvs.filter(
            |pv: PersistentVolume|
                {
                    &&& pv.spec is Some
                    &&& pv.spec->0.csi is Some
                    &&& pv.spec->0.csi->0.driver@ == report[i].driver
                    &&& name == match pv.metadata.name {
                        Some(name) => name@,
                        None => "<unnamed>"@,
                    }
                },
        ).len(),
{
    let driver = report[i].driver;
    lemma_volumes_counted(pvs, driver, name);
}

/// The report is in the order of the drivers, each of them once and with at
/// least one volume; the volumes of each are in order; and each says whether
/// the cluster does not know snapshot classes.
pub proof fn law_report_in_order(
    report: Seq<CsiNoSnapshotView>,
    pvs: Seq<PersistentVolume>,
    classes: Option<Seq<DynamicObject>>,
    i: int,
    j: int,
)
    requires
        reports_drivers(report, pvs, classes),
        0 <= i < report.len(),
        0 <= j < report.len(),
    ensures
        i < j ==> precedes(report[i].driver, report[j].driver) && report[i].driver
            != report[j].driver,
        report[i].pvs.len() > 0,
        forall|a: int, b: int|
            0 <= a < b < report[i].pvs.len() ==> #[trigger] report[i].pvs[a]
                == #[trigger] report[i].pvs[b] || precedes(report[i].pvs[a], report[i].pvs[b]),
        report[i].crd_missing <==> classes is None,
{
    law_in_order(report[i].pvs);
    lemma_precedes_asymmetric(report[i].driver, report[j].driver);
}

/// The snapshot classes are known exactly where they are given.
pub proof fn law_known_classes(classes: Vec<DynamicObject>)
    ensures
        known_classes(Some(classes)) == Some(classes@),
        known_classes(None) is None,
{
}

/// A report is seen in contracts with the fields that it has.
pub proof fn law_report_fields(group: CsiNoSnapshot, i: int)
    ensures
        group.deep_view().driver == group.driver@,
        group.deep_view().crd_missing == group.crd_missing,
        group.deep_view().pvs.len() == group.pvs@.len(),
        0 <= i < group.pvs@.len() ==> group.deep_view().pvs[i] == group.pvs@[i]@,
{
}


/// A failed list of volumes fails the whole, whatever came of the classes. A
/// failed list of classes fails the whole too, unless the server answered it
/// with status 404: then no driver can snapshot.
pub proof fn law_failed_lists(
    pvs: Vec<PersistentVolume>,
    classes: Result<Vec<DynamicObject>, KubeError>,
    error: KubeError,
    code: u16,
    text: String,
    report: Result<Seq<CsiNoSnapshotView>, LornError>,
)
    ensures
        csi_reported(Err(error), classes, report) ==> report == Err::<
            Seq<CsiNoSnapshotView>,
            LornError,
        >(LornError::Kube(error)),
        csi_reported(Ok(pvs), classes, report) && classes is Ok ==> report is Ok && reports_drivers(
            report->Ok_0,
            pvs@,
            Some(classes->Ok_0@),
        ),
        csi_reported(Ok(pvs), Err((KubeError::Api { code, text })), report) && code == 404
            ==> report is Ok && reports_drivers(report->Ok_0, pvs@, None),
        csi_reported(Ok(pvs), Err((KubeError::Api { code, text })), report) && code != 404
            ==> report == Err::<Seq<CsiNoSnapshotView>, LornError>(
            LornError::Kube((KubeError::Api { code, text })),
        ),
        csi_reported(Ok(pvs), Err((KubeError::Other { text })), report) ==> report == Err::<
            Seq<CsiNoSnapshotView>,
            LornError,
        >(LornError::Kube((KubeError::Other { text }))),
{
}


} // verus!
