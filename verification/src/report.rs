//! What a run prints and how it ends.
use crate::claims::Claim;
use crate::error::{KubeError, LornError};
use crate::images::BitnamiHit;
#[allow(unused_imports)]
use crate::images::BitnamiHitView;
#[allow(unused_imports)]
use crate::objects::name_or;
use crate::objects::{copy_name_or, Namespace};
#[allow(unused_imports)]
use crate::outcome::viewed;
use crate::probes::PrivilegedServicePod;
#[allow(unused_imports)]
use crate::probes::{PortBindState, PrivilegedServicePodView};
use crate::snapshots::CsiNoSnapshot;
#[allow(unused_imports)]
use crate::snapshots::CsiNoSnapshotView;
#[allow(unused_imports)]
use crate::text::signed_decimal;
use crate::text::signed_decimal_text;
use vstd::prelude::*;
#[allow(unused_imports)]
use vstd::string::*;

verus! {

/// The name of the log level for a number of requests for more detail: `info`
/// without any, `debug` for one, `trace` for more.
pub open spec fn level_name(verbose: u8) -> Seq<char> {
    if verbose == 0 {
        "info"@
    } else if verbose == 1 {
        "debug"@
    } else {
        "trace"@
    }
}

/// The log level for a number of requests for more detail.
pub fn default_level(verbose: u8) -> (level: &'static str)
    ensures
        level@ == level_name(verbose),
{
    match verbose {
        0 => "info",
        1 => "debug",
        _ => "trace",
    }
}

/// The names of namespaces; one without a name is the default namespace.
pub open spec fn namespace_names(namespaces: Seq<Namespace>) -> Seq<Seq<char>> {
    namespaces.map_values(|namespace: Namespace| name_or(namespace.metadata.name, "default"@))
}

/// The names of namespaces, or the error that they could not be listed for.
pub open spec fn names_outcome(namespaces: Result<Vec<Namespace>, KubeError>) -> Result<
    Seq<Seq<char>>,
    LornError,
> {
    match namespaces {
        Ok(namespaces) => Ok(namespace_names(namespaces@)),
        Err(error) => Err(LornError::Kube(error)),
    }
}

/// The names of all namespaces, from what the server answered to their list.
pub fn list_namespace_names(namespaces: Result<Vec<Namespace>, KubeError>) -> (names: Result<
    Vec<String>,
    LornError,
>)
    ensures
        viewed(names) == names_outcome(namespaces),
{
    let namespaces = match namespaces {
        Ok(namespaces) => namespaces,
        Err(error) => {
            return Err(LornError::Kube(error));
        },
    };
    let ghost expected = namespace_names(namespaces@);
    let mut names: Vec<String> = Vec::new();
    let mut i: usize = 0;
    while i < namespaces.len()
        invariant
            i <= namespaces.len(),
            names.len() == i,
            expected == namespace_names(namespaces@),
            forall|j: int| 0 <= j < i ==> (#[trigger] names@[j])@ == expected[j],
        decreases namespaces.len() - i,
    {
        names.push(copy_name_or(&namespaces[i].metadata.name, "default"));
        i += 1;
    }
    assert(names.deep_view() =~= expected);
    Ok(names)
}

/// Whether `names` are the namespaces to check, and `skipped` the reason why
/// there are none.
pub open spec fn is_scope_of(
    listed: Result<Vec<String>, LornError>,
    names: Seq<String>,
    skipped: Option<LornError>,
) -> bool {
    match listed {
        Ok(all) => names == all@ && skipped is None,
        Err(error) => names.len() == 0 && skipped == Some(error),
    }
}

/// The namespaces to check. Where they could not be listed there are none,
/// and the reason is handed on: the checks of whole clusters still run.
pub fn namespaces_to_check(listed: Result<Vec<String>, LornError>) -> (scope: (
    Vec<String>,
    Option<LornError>,
))
    ensures
        match listed {
            Ok(names) => scope == (names, None::<LornError>),
            Err(error) => scope.0@.len() == 0 && scope.1 == Some(error),
        },
        is_scope_of(listed, scope.0@, scope.1),
{
    match listed {
        Ok(names) => (names, None),
        Err(error) => (Vec::new(), Some(error)),
    }
}

/// What the checks found.
#[derive(Debug)]
pub struct Findings {
    pub orphaned_pvcs: Vec<Claim>,
    pub bitnami_hits: Vec<BitnamiHit>,
    pub csi_no_snapshot: Vec<CsiNoSnapshot>,
    pub privileged_service_pods: Vec<PrivilegedServicePod>,
}

/// What a run prints, and whether it found anything.
#[derive(Debug)]
pub struct RunReport {
    pub lines: Vec<String>,
    pub found: bool,
}

/// The line for a claim that nothing uses.
pub open spec fn claim_line(claim: (Seq<char>, Seq<char>, Seq<char>)) -> Seq<char> {
    "orphaned pvc "@ + claim.0 + "/"@ + claim.1 + " pv "@ + claim.2
}

/// The line for a container that runs a Bitnami image.
pub open spec fn image_line(hit: BitnamiHitView) -> Seq<char> {
    hit.kind + " "@ + hit.name + " "@ + hit.container_path + ".image "@ + hit.image
}

/// The line for a volume that cannot be snapshotted.
pub open spec fn volume_line(driver: Seq<char>, crd_missing: bool, pv: Seq<char>) -> Seq<char> {
    if crd_missing {
        driver + " missing snapshot capability for pv "@ + pv
    } else {
        "csi "@ + driver + " has no snapshot crd for pv "@ + pv
    }
}

/// The lines for a driver without snapshots, one for each of its volumes.
pub open spec fn driver_lines(group: CsiNoSnapshotView) -> Seq<Seq<char>> {
    group.pvs.map_values(|pv: Seq<char>| volume_line(group.driver, group.crd_missing, pv))
}

/// The line for a privileged port.
pub open spec fn port_line(hit: PrivilegedServicePodView) -> Seq<char> {
    "pod "@ + hit.namespace + "/"@ + hit.probe.pod_name + " service "@ + hit.probe.service_name
        + " targetPort "@ + signed_decimal(hit.probe.port as int) + "/"@ + hit.probe.protocol
        + " state "@ + hit.bind_state.word() + " owner "@ + hit.probe.owner_kind + " "@
        + hit.probe.owner_name
}

/// The lines for unused claims.
pub open spec fn claim_lines(claims: Seq<(Seq<char>, Seq<char>, Seq<char>)>) -> Seq<Seq<char>> {
    claims.map_values(|claim: (Seq<char>, Seq<char>, Seq<char>)| claim_line(claim))
}

/// The lines for containers that run Bitnami images.
pub open spec fn image_lines(hits: Seq<BitnamiHitView>) -> Seq<Seq<char>> {
    hits.map_values(|hit: BitnamiHitView| image_line(hit))
}

/// The lines for drivers without snapshots.
pub open spec fn snapshot_lines(groups: Seq<CsiNoSnapshotView>) -> Seq<Seq<char>> {
    groups.flat_map(|group: CsiNoSnapshotView| driver_lines(group))
}

/// The lines for privileged ports.
pub open spec fn port_lines(hits: Seq<PrivilegedServicePodView>) -> Seq<Seq<char>> {
    hits.map_values(|hit: PrivilegedServicePodView| port_line(hit))
}

/// All lines of a run: unused claims, Bitnami images, drivers without
/// snapshots, privileged ports.
pub open spec fn finding_lines(findings: Findings) -> Seq<Seq<char>> {
    claim_lines(findings.orphaned_pvcs.deep_view()) + image_lines(
        findings.bitnami_hits.deep_view(),
    ) + snapshot_lines(findings.csi_no_snapshot.deep_view()) + port_lines(
        findings.privileged_service_pods.deep_view(),
    )
}

/// Adds the lines for unused claims.
fn print_claims(lines: Vec<String>, claims: &Vec<Claim>) -> (longer: Vec<String>)
    ensures
        longer.deep_view() == lines.deep_view() + claim_lines(claims.deep_view()),
{
    let ghost start = lines.deep_view();
    let ghost all = claim_lines(claims.deep_view());
    let mut longer = lines;
    let mut i: usize = 0;
    assert(longer.deep_view() =~= start + all.take(0));
    while i < claims.len()
        invariant
            i <= claims.len(),
            all == claim_lines(claims.deep_view()),
            longer.deep_view() == start + all.take(i as int),
        decreases claims.len() - i,
    {
        let ghost before = longer.deep_view();
        let (ns, pvc_name, pv_name) = &claims[i];
        let line = "orphaned pvc ".to_owned().concat(ns.as_str()).concat("/").concat(
            pvc_name.as_str(),
        ).concat(" pv ").concat(pv_name.as_str());
        longer.push(line);
        proof {
            assert(claims.deep_view()[i as int] == (ns@, pvc_name@, pv_name@));
            assert(longer.deep_view() =~= before.push(line@));
            assert(all.take(i + 1) =~= all.take(i as int).push(all[i as int]));
            assert(longer.deep_view() =~= start + all.take(i + 1));
        }
        i += 1;
    }
    assert(all.take(claims.len() as int) =~= all);
    longer
}

/// Adds the lines for containers that run Bitnami images.
fn print_images(lines: Vec<String>, hits: &Vec<BitnamiHit>) -> (longer: Vec<String>)
    ensures
        longer.deep_view() == lines.deep_view() + image_lines(hits.deep_view()),
{
    let ghost start = lines.deep_view();
    let ghost all = image_lines(hits.deep_view());
    let mut longer = lines;
    let mut i: usize = 0;
    assert(longer.deep_view() =~= start + all.take(0));
    while i < hits.len()
        invariant
            i <= hits.len(),
            all == image_lines(hits.deep_view()),
            longer.deep_view() == start + all.take(i as int),
        decreases hits.len() - i,
    {
        let ghost before = longer.deep_view();
        let hit = &hits[i];
        let line = hit.kind.to_owned().concat(" ").concat(hit.name.as_str()).concat(" ").concat(
            hit.container_path.as_str(),
        ).concat(".image ").concat(hit.image.as_str());
        longer.push(line);
        proof {
            assert(hits.deep_view()[i as int] == hit.deep_view());
            assert(longer.deep_view() =~= before.push(line@));
            assert(all.take(i + 1) =~= all.take(i as int).push(all[i as int]));
            assert(longer.deep_view() =~= start + all.take(i + 1));
        }
        i += 1;
    }
    assert(all.take(hits.len() as int) =~= all);
    longer
}

/// Adds the lines for one driver without snapshots.
fn print_driver(lines: Vec<String>, group: &CsiNoSnapshot) -> (longer: Vec<String>)
    ensures
        longer.deep_view() == lines.deep_view() + driver_lines(group.deep_view()),
{
    let ghost start = lines.deep_view();
    let ghost all = driver_lines(group.deep_view());
    let mut longer = lines;
    let mut i: usize = 0;
    assert(longer.deep_view() =~= start + all.take(0));
    while i < group.pvs.len()
        invariant
            i <= group.pvs.len(),
            all == driver_lines(group.deep_view()),
            longer.deep_view() == start + all.take(i as int),
        decreases group.pvs.len() - i,
    {
        let ghost before = longer.deep_view();
        let pv = group.pvs[i].as_str();
        let line = if group.crd_missing {
            group.driver.clone().concat(" missing snapshot capability for pv ").concat(pv)
        } else {
            "csi ".to_owned().concat(group.driver.as_str()).concat(
                " has no snapshot crd for pv ",
            ).concat(pv)
        };
        longer.push(line);
        proof {
            assert(group.deep_view().pvs[i as int] == group.pvs@[i as int]@);
            assert(longer.deep_view() =~= before.push(line@));
            assert(all.take(i + 1) =~= all.take(i as int).push(all[i as int]));
            assert(longer.deep_view() =~= start + all.take(i + 1));
        }
        i += 1;
    }
    assert(all.take(group.pvs.len() as int) =~= all);
    longer
}

/// Adds the lines for drivers without snapshots.
fn print_drivers(lines: Vec<String>, groups: &Vec<CsiNoSnapshot>) -> (longer: Vec<String>)
    ensures
        longer.deep_view() == lines.deep_view() + snapshot_lines(groups.deep_view()),
{
    let ghost start = lines.deep_view();
    let ghost all = groups.deep_view();
    let ghost each = |group: CsiNoSnapshotView| driver_lines(group);
    let mut longer = lines;
    let mut i: usize = 0;
    assert(longer.deep_view() =~= start + all.take(0).flat_map(each));
    while i < groups.len()
        invariant
            i <= groups.len(),
            all == groups.deep_view(),
            each == (|group: CsiNoSnapshotView| driver_lines(group)),
            longer.deep_view() == start + all.take(i as int).flat_map(each),
        decreases groups.len() - i,
    {
        let ghost before = longer.deep_view();
        longer = print_driver(longer, &groups[i]);
        proof {
            assert(all[i as int] == groups@[i as int].deep_view());
            all.lemma_flat_map_take_append(each, i as int);
            assert(longer.deep_view() =~= start + all.take(i + 1).flat_map(each));
        }
        i += 1;
    }
    assert(all.take(groups.len() as int) =~= all);
    longer
}

/// Adds the lines for privileged ports.
fn print_ports(lines: Vec<String>, hits: &Vec<PrivilegedServicePod>) -> (longer: Vec<String>)
    ensures
        longer.deep_view() == lines.deep_view() + port_lines(hits.deep_view()),
{
    let ghost start = lines.deep_view();
    let ghost all = port_lines(hits.deep_view());
    let mut longer = lines;
    let mut i: usize = 0;
    assert(longer.deep_view() =~= start + all.take(0));
    while i < hits.len()
        invariant
            i <= hits.len(),
            all == port_lines(hits.deep_view()),
            longer.deep_view() == start + all.take(i as int),
        decreases hits.len() - i,
    {
        let ghost before = longer.deep_view();
        let hit = &hits[i];
        let line = "pod ".to_owned().concat(hit.namespace.as_str()).concat("/").concat(
            hit.pod_name.as_str(),
        ).concat(" service ").concat(hit.service_name.as_str()).concat(" targetPort ").concat(
            signed_decimal_text(hit.port).as_str(),
        ).concat("/").concat(hit.protocol.as_str()).concat(" state ").concat(
            hit.bind_state.to_string().as_str(),
        ).concat(" owner ").concat(hit.owner_kind.as_str()).concat(" ").concat(
            hit.owner_name.as_str(),
        );
        longer.push(line);
        proof {
            assert(hits.deep_view()[i as int] == hit.deep_view());
            assert(longer.deep_view() =~= before.push(line@));
            assert(all.take(i + 1) =~= all.take(i as int).push(all[i as int]));
            assert(longer.deep_view() =~= start + all.take(i + 1));
        }
        i += 1;
    }
    assert(all.take(hits.len() as int) =~= all);
    longer
}

/// What the checks found together: what each of them found where all came to
/// an end, or else the error of the first that failed.
pub open spec fn findings_outcome(
    orphaned_pvcs: Result<Vec<Claim>, LornError>,
    bitnami_hits: Result<Vec<BitnamiHit>, LornError>,
    csi_no_snapshot: Result<Vec<CsiNoSnapshot>, LornError>,
    privileged_service_pods: Result<Vec<PrivilegedServicePod>, LornError>,
) -> Result<Findings, LornError> {
    match (orphaned_pvcs, bitnami_hits, csi_no_snapshot, privileged_service_pods) {
        (
            Ok(orphaned_pvcs),
            Ok(bitnami_hits),
            Ok(csi_no_snapshot),
            Ok(privileged_service_pods),
        ) => Ok(Findings { orphaned_pvcs, bitnami_hits, csi_no_snapshot, privileged_service_pods }),
        (Err(error), _, _, _) => Err(error),
        (_, Err(error), _, _) => Err(error),
        (_, _, Err(error), _) => Err(error),
        (_, _, _, Err(error)) => Err(error),
    }
}

/// What the checks found together.
pub fn gather_findings(
    orphaned_pvcs: Result<Vec<Claim>, LornError>,
    bitnami_hits: Result<Vec<BitnamiHit>, LornError>,
    csi_no_snapshot: Result<Vec<CsiNoSnapshot>, LornError>,
    privileged_service_pods: Result<Vec<PrivilegedServicePod>, LornError>,
) -> (findings: Result<Findings, LornError>)
    ensures
        findings == findings_outcome(
            orphaned_pvcs,
            bitnami_hits,
            csi_no_snapshot,
            privileged_service_pods,
        ),
{
    match (orphaned_pvcs, bitnami_hits, csi_no_snapshot, privileged_service_pods) {
        (
            Ok(orphaned_pvcs),
            Ok(bitnami_hits),
            Ok(csi_no_snapshot),
            Ok(privileged_service_pods),
        ) => Ok(Findings { orphaned_pvcs, bitnami_hits, csi_no_snapshot, privileged_service_pods }),
        (Err(error), _, _, _) => Err(error),
        (_, Err(error), _, _) => Err(error),
        (_, _, Err(error), _) => Err(error),
        (_, _, _, Err(error)) => Err(error),
    }
}

/// Whether a run with the given findings ends with `outcome`.
pub open spec fn ends_with(
    namespaces_skipped: bool,
    findings: Result<Findings, LornError>,
    outcome: Result<RunReport, LornError>,
) -> bool {
    match (findings, outcome) {
        (Ok(findings), Ok(report)) => {
            &&& report.lines.deep_view() == finding_lines(findings)
            &&& report.found == (namespaces_skipped || finding_lines(findings).len() > 0)
        },
        (Err(error), Err(own)) => own == error,
        _ => false,
    }
}

/// What a run prints. It has found something where it prints a line, and
/// also where the namespaces could not be listed. Where a check failed the run
/// fails with its error and prints nothing.
pub fn run(namespaces_skipped: bool, findings: Result<Findings, LornError>) -> (outcome: Result<
    RunReport,
    LornError,
>)
    ensures
        match findings {
            Ok(findings) => {
                &&& outcome is Ok
                &&& outcome->Ok_0.lines.deep_view() == finding_lines(findings)
                &&& outcome->Ok_0.found == (namespaces_skipped || finding_lines(findings).len()
                    > 0)
            },
            Err(error) => outcome == Err::<RunReport, LornError>(error),
        },
        ends_with(namespaces_skipped, findings, outcome),
{
    let findings = match findings {
        Ok(findings) => findings,
        Err(error) => {
            return Err(error);
        },
    };
    let lines: Vec<String> = Vec::new();
    assert(lines.deep_view() =~= Seq::empty());
    let lines = print_claims(lines, &findings.orphaned_pvcs);
    let lines = print_images(lines, &findings.bitnami_hits);
    let lines = print_drivers(lines, &findings.csi_no_snapshot);
    let lines = print_ports(lines, &findings.privileged_service_pods);
    assert(lines.deep_view() =~= finding_lines(findings));
    let found = namespaces_skipped || lines.len() > 0;
    Ok(RunReport { lines, found })
}

/// The status that the program ends with.
pub open spec fn exit_status(outcome: Result<RunReport, LornError>) -> int {
    match outcome {
        Ok(report) => if report.found {
            1
        } else {
            0
        },
        Err(_) => 1,
    }
}

/// The status that the program ends with: failure where the run failed or
/// found something.
pub fn exit_code(outcome: &Result<RunReport, LornError>) -> (code: i32)
    ensures
        code == if outcome is Ok && !outcome->Ok_0.found {
            0i32
        } else {
            1
        },
        code == exit_status(*outcome),
{
    match outcome {
        Ok(report) => if report.found {
            1
        } else {
            0
        },
        Err(_) => 1,
    }
}

/// A group with a volume gives a line.
proof fn lemma_snapshot_lines(groups: Seq<CsiNoSnapshotView>)
    requires
        forall|i: int| 0 <= i < groups.len() ==> (#[trigger] groups[i]).pvs.len() > 0,
    ensures
        snapshot_lines(groups).len() == 0 <==> groups.len() == 0,
{
    let each = |group: CsiNoSnapshotView| driver_lines(group);
    if groups.len() > 0 {
        let rest = groups.drop_last();
        rest.lemma_flat_map_push(each, groups.last());
        assert(rest.push(groups.last()) =~= groups);
        assert(groups[groups.len() - 1].pvs.len() > 0);
    } else {
        assert(groups =~= Seq::empty());
        assert(snapshot_lines(groups) =~= Seq::empty());
    }
}

/// A run prints nothing exactly where the checks found nothing, given that
/// every reported driver serves a volume.
pub proof fn law_silent_only_when_clean(findings: Findings)
    requires
        forall|i: int|
            0 <= i < findings.csi_no_snapshot.deep_view().len() ==> (
            #[trigger] findings.csi_no_snapshot.deep_view()[i]).pvs.len() > 0,
    ensures
        finding_lines(findings).len() == 0 <==> {
            &&& findings.orphaned_pvcs@.len() == 0
            &&& findings.bitnami_hits@.len() == 0
            &&& findings.csi_no_snapshot@.len() == 0
            &&& findings.privileged_service_pods@.len() == 0
        },
{
    lemma_snapshot_lines(findings.csi_no_snapshot.deep_view());
}

/// Without a request for detail the level is `info`, with one it is `debug`,
/// and with more it is `trace`, however many there are.
pub proof fn law_levels(verbose: u8)
    ensures
        verbose < 1 ==> level_name(verbose) == "info"@,
        verbose == 1 ==> level_name(verbose) == "debug"@,
        verbose > 1 ==> level_name(verbose) == "trace"@,
{
}

/// There is a name for every namespace, in order: its own, or `default`; where
/// the namespaces could not be listed there is the error of their list.
pub proof fn law_every_namespace_named(namespaces: Vec<Namespace>, i: int, error: KubeError)
    ensures
        names_outcome(Ok(namespaces)) is Ok,
        names_outcome(Ok(namespaces))->Ok_0.len() == namespaces@.len(),
        0 <= i < namespaces@.len() ==> names_outcome(Ok(namespaces))->Ok_0[i] == (
        match namespaces@[i].metadata.name {
            Some(name) => name@,
            None => "default"@,
        }),
        names_outcome(Err(error)) == Err::<Seq<Seq<char>>, LornError>(LornError::Kube(error)),
{
}

/// The volumes of reported drivers, driver by driver.
pub open spec fn reported_volumes(groups: Seq<CsiNoSnapshot>) -> Seq<String> {
    groups.map_values(|group: CsiNoSnapshot| group.pvs@).flatten()
}

/// There is a line for each volume of each driver, driver by driver.
proof fn lemma_volume_line(
    groups: Seq<CsiNoSnapshot>,
    views: Seq<CsiNoSnapshotView>,
    g: int,
    k: int,
)
    requires
        views.len() == groups.len(),
        forall|i: int| 0 <= i < groups.len() ==> #[trigger] views[i] == groups[i].deep_view(),
    ensures
        snapshot_lines(views).len() == reported_volumes(groups).len(),
        0 <= g < groups.len() && 0 <= k < groups[g].pvs@.len() ==> {
            let at = reported_volumes(groups.take(g)).len() + k;
            &&& at < snapshot_lines(views).len()
            &&& snapshot_lines(views)[at] == volume_line(
                groups[g].driver@,
                groups[g].crd_missing,
                groups[g].pvs@[k]@,
            )
        },
    decreases groups.len(),
{
    let each = |group: CsiNoSnapshotView| driver_lines(group);
    let pvs = |group: CsiNoSnapshot| group.pvs@;
    if groups.len() == 0 {
        assert(views.flat_map(each) =~= Seq::empty());
        assert(groups.map_values(pvs).flatten() =~= Seq::empty());
    } else {
        let rest = groups.drop_last();
        let last = groups.last();
        let seen = views.drop_last();
        assert forall|i: int| 0 <= i < rest.len() implies #[trigger] seen[i]
            == rest[i].deep_view() by {
            assert(seen[i] == views[i]);
        }
        lemma_volume_line(rest, seen, g, k);
        seen.lemma_flat_map_push(each, views.last());
        assert(seen.push(views.last()) =~= views);
        assert(views.last() == last.deep_view());
        assert(groups.map_values(pvs) =~= rest.map_values(pvs).push(last.pvs@));
        rest.map_values(pvs).lemma_flatten_push(last.pvs@);
        if 0 <= g < rest.len() {
            assert(groups.take(g) =~= rest.take(g));
            assert(rest[g] == groups[g]);
        } else if g == rest.len() {
            assert(groups.take(g) =~= rest);
        }
    }
}

/// A run prints one line for each unused claim, each Bitnami hit, each volume
/// of a reported driver and each privileged port.
pub proof fn law_line_count(findings: Findings)
    ensures
        finding_lines(findings).len() == findings.orphaned_pvcs@.len()
            + findings.bitnami_hits@.len() + reported_volumes(findings.csi_no_snapshot@).len()
            + findings.privileged_service_pods@.len(),
{
    lemma_volume_line(
        findings.csi_no_snapshot@,
        findings.csi_no_snapshot.deep_view(),
        -1,
        -1,
    );
}

/// The first lines are those of the unused claims, in order, each with the
/// namespace, the name and the volume of its claim.
pub proof fn law_claim_lines(findings: Findings, i: int)
    requires
        0 <= i < findings.orphaned_pvcs@.len(),
    ensures
        finding_lines(findings)[i] == "orphaned pvc "@ + findings.orphaned_pvcs@[i].0@ + "/"@
            + findings.orphaned_pvcs@[i].1@ + " pv "@ + findings.orphaned_pvcs@[i].2@,
{
}

/// Behind the claims stand the lines of the Bitnami hits, in order, each with
/// the kind, the resource, the container and the image of its hit.
pub proof fn law_image_lines(findings: Findings, i: int)
    requires
        0 <= i < findings.bitnami_hits@.len(),
    ensures
        finding_lines(findings)[findings.orphaned_pvcs@.len() + i]
            == findings.bitnami_hits@[i].kind@ + " "@ + findings.bitnami_hits@[i].name@ + " "@
            + findings.bitnami_hits@[i].container_path@ + ".image "@
            + findings.bitnami_hits@[i].image@,
{
}

/// Behind the images stand the lines of the volumes, driver by driver and
/// volume by volume, each with its driver and in words that say whether the
/// cluster knows snapshot classes.
pub proof fn law_volume_lines(findings: Findings, g: int, k: int)
    requires
        0 <= g < findings.csi_no_snapshot@.len(),
        0 <= k < findings.csi_no_snapshot@[g].pvs@.len(),
    ensures
        finding_lines(findings)[findings.orphaned_pvcs@.len() + findings.bitnami_hits@.len()
            + reported_volumes(findings.csi_no_snapshot@.take(g)).len() + k]
            == if findings.csi_no_snapshot@[g].crd_missing {
            findings.csi_no_snapshot@[g].driver@ + " missing snapshot capability for pv "@
                + findings.csi_no_snapshot@[g].pvs@[k]@
        } else {
            "csi "@ + findings.csi_no_snapshot@[g].driver@ + " has no snapshot crd for pv "@
                + findings.csi_no_snapshot@[g].pvs@[k]@
        },
{
    lemma_volume_line(findings.csi_no_snapshot@, findings.csi_no_snapshot.deep_view(), g, k);
}

/// Behind the volumes stand the lines of the privileged ports, in order, each
/// with the namespace, the pod, the service, the port, the protocol, the state
/// and the owner of its hit.
pub proof fn law_port_lines(findings: Findings, i: int)
    requires
        0 <= i < findings.privileged_service_pods@.len(),
    ensures
        finding_lines(findings)[findings.orphaned_pvcs@.len() + findings.bitnami_hits@.len()
            + reported_volumes(findings.csi_no_snapshot@).len() + i] == "pod "@
            + findings.privileged_service_pods@[i].namespace@ + "/"@
            + findings.privileged_service_pods@[i].pod_name@ + " service "@
            + findings.privileged_service_pods@[i].service_name@ + " targetPort "@ + signed_decimal(
            findings.privileged_service_pods@[i].port as int,
        ) + "/"@ + findings.privileged_service_pods@[i].protocol@ + " state "@ + (
        match findings.privileged_service_pods@[i].bind_state {
            PortBindState::Bound => "bound"@,
            PortBindState::Unbound => "unbound"@,
            PortBindState::Unknown => "unknown"@,
        }) + " owner "@ + findings.privileged_service_pods@[i].owner_kind@ + " "@
            + findings.privileged_service_pods@[i].owner_name@,
{
    lemma_volume_line(
        findings.csi_no_snapshot@,
        findings.csi_no_snapshot.deep_view(),
        -1,
        -1,
    );
    assert(findings.privileged_service_pods.deep_view()[i]
        == findings.privileged_service_pods@[i].deep_view());
}

/// The findings of a run are what its four checks found; where a check failed
/// the error is that of the first that did.
pub proof fn law_findings_need_every_check(
    orphaned_pvcs: Result<Vec<Claim>, LornError>,
    bitnami_hits: Result<Vec<BitnamiHit>, LornError>,
    csi_no_snapshot: Result<Vec<CsiNoSnapshot>, LornError>,
    privileged_service_pods: Result<Vec<PrivilegedServicePod>, LornError>,
    whole: Result<Findings, LornError>,
)
    requires
        whole == findings_outcome(
            orphaned_pvcs,
            bitnami_hits,
            csi_no_snapshot,
            privileged_service_pods,
        ),
    ensures
        whole is Ok <==> orphaned_pvcs is Ok && bitnami_hits is Ok && csi_no_snapshot is Ok
            && privileged_service_pods is Ok,
        whole matches Ok(findings) ==> {
            &&& orphaned_pvcs == Ok::<Vec<Claim>, LornError>(findings.orphaned_pvcs)
            &&& bitnami_hits == Ok::<Vec<BitnamiHit>, LornError>(findings.bitnami_hits)
            &&& csi_no_snapshot == Ok::<Vec<CsiNoSnapshot>, LornError>(findings.csi_no_snapshot)
            &&& privileged_service_pods == Ok::<Vec<PrivilegedServicePod>, LornError>(
                findings.privileged_service_pods,
            )
        },
        whole matches Err(error) ==> error == if orphaned_pvcs is Err {
            orphaned_pvcs->Err_0
        } else if bitnami_hits is Err {
            bitnami_hits->Err_0
        } else if csi_no_snapshot is Err {
            csi_no_snapshot->Err_0
        } else {
            privileged_service_pods->Err_0
        },
{
}


/// All namespaces that could be listed are checked, in order and without a
/// reason to skip any; otherwise none is, and the reason is the failure.
pub proof fn law_scope(
    listed: Result<Vec<String>, LornError>,
    names: Seq<String>,
    skipped: Option<LornError>,
)
    requires
        is_scope_of(listed, names, skipped),
    ensures
        skipped is None <==> listed is Ok,
        listed matches Ok(all) ==> names == all@,
        listed matches Err(error) ==> skipped == Some(error) && names =~= Seq::empty(),
{
}

/// A run fails exactly where a check failed, and with its error. Otherwise it
/// prints the lines of its findings, and it has found something exactly where
/// it prints a line or namespaces were skipped.
pub proof fn law_run(
    namespaces_skipped: bool,
    findings: Result<Findings, LornError>,
    outcome: Result<RunReport, LornError>,
    i: int,
)
    requires
        ends_with(namespaces_skipped, findings, outcome),
    ensures
        outcome is Err <==> findings is Err,
        outcome matches Err(error) ==> findings->Err_0 == error,
        outcome matches Ok(report) ==> {
            &&& report.lines@.len() == finding_lines(findings->Ok_0).len()
            &&& 0 <= i < report.lines@.len() ==> report.lines@[i]@ == finding_lines(
                findings->Ok_0,
            )[i]
            &&& report.found <==> namespaces_skipped || report.lines@.len() > 0
        },
{
    if let Ok(report) = outcome {
        assert(report.lines.deep_view().len() == report.lines@.len());
        assert(0 <= i < report.lines@.len() ==> report.lines.deep_view()[i] == report.lines@[i]@);
    }
}

/// The program ends with status 0 exactly where the run came to an end and
/// found nothing, and with status 1 otherwise.
pub proof fn law_exit_status(lines: Vec<String>, found: bool, error: LornError)
    ensures
        exit_status(Ok((RunReport { lines, found: false }))) == 0,
        exit_status(Ok((RunReport { lines, found: true }))) == 1,
        exit_status(Err(error)) == 1,
{
}

/// A run that succeeds ends with status 0 exactly where no check found
/// anything and no namespace was skipped.
pub proof fn law_status_of_findings(
    namespaces_skipped: bool,
    findings: Findings,
    outcome: Result<RunReport, LornError>,
)
    requires
        ends_with(namespaces_skipped, Ok(findings), outcome),
    ensures
        exit_status(outcome) == 0 <==> {
            &&& !namespaces_skipped
            &&& findings.orphaned_pvcs@.len() == 0
            &&& findings.bitnami_hits@.len() == 0
            &&& reported_volumes(findings.csi_no_snapshot@).len() == 0
            &&& findings.privileged_service_pods@.len() == 0
        },
{
    law_line_count(findings);
}


} // verus!
