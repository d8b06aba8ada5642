//! Persistent volume claims that no workload uses.
use crate::error::{KubeError, LornError};
use crate::objects::{
    copy_name_or, Deployment, Job, PersistentVolumeClaim, Pod, PodSpec, StatefulSet, Volume,
    Workloads,
};
#[allow(unused_imports)]
use crate::objects::{deployment_pod_spec, job_pod_spec, listed, name_or};
#[allow(unused_imports)]
use crate::outcome::viewed;
#[allow(unused_imports)]
use crate::search::{
    first, lemma_filter_holds, lemma_first, lemma_first_at, lemma_first_concat, lemma_first_none,
};
use crate::text::same;
use vstd::hash_set::StringHashSet;
use vstd::prelude::*;

verus! {

/// The claim that a volume is backed by, if there is one.
pub open spec fn claim_of(volume: Volume) -> Option<Seq<char>> {
    match volume.persistent_volume_claim {
        Some(source) => Some(source.claim_name@),
        None => None,
    }
}

/// Whether one of the volumes is backed by the claim `name`.
pub open spec fn claimed(volumes: Seq<Volume>, name: Seq<char>) -> bool {
    exists|i: int| 0 <= i < volumes.len() && claim_of(#[trigger] volumes[i]) == Some(name)
}

/// The volumes of a list that may be absent.
pub open spec fn volumes_in(list: Option<&Vec<Volume>>) -> Seq<Volume> {
    match list {
        Some(volumes) => volumes@,
        None => Seq::empty(),
    }
}

/// Whether a volume in one of the lists is backed by the claim `name`.
pub open spec fn claimed_in(lists: Seq<Option<&Vec<Volume>>>, name: Seq<char>) -> bool {
    exists|i: int| 0 <= i < lists.len() && claimed(volumes_in(#[trigger] lists[i]), name)
}

/// The claims that the volumes of the given lists are backed by.
pub fn pvc_names_from_volumes(lists: &Vec<Option<&Vec<Volume>>>) -> (names: StringHashSet)
    ensures
        forall|name: Seq<char>| #[trigger] names@.contains(name) <==> claimed_in(lists@, name),
{
    let mut names = StringHashSet::new();
    let mut i: usize = 0;
    while i < lists.len()
        invariant
            i <= lists.len(),
            forall|name: Seq<char>| #[trigger]
                names@.contains(name) <==> claimed_in(lists@.take(i as int), name),
        decreases lists.len() - i,
    {
        let ghost earlier = names@;
        if let Some(volumes) = lists[i] {
            let mut j: usize = 0;
            while j < volumes.len()
                invariant
                    j <= volumes.len(),
                    forall|name: Seq<char>| #[trigger]
                        names@.contains(name) <==> earlier.contains(name) || claimed(
                            volumes@.take(j as int),
                            name,
                        ),
                decreases volumes.len() - j,
            {
                let ghost shorter = volumes@.take(j as int);
                let ghost longer = volumes@.take(j + 1);
                if let Some(source) = &volumes[j].persistent_volume_claim {
                    names.insert(source.claim_name.clone());
                }
                proof {
                    assert(longer =~= shorter.push(volumes@[j as int]));
                    lemma_claimed_push(shorter, volumes@[j as int]);
                }
                j += 1;
            }
            assert(volumes@.take(volumes.len() as int) =~= volumes@);
        }
        proof {
            assert(lists@.take(i + 1) =~= lists@.take(i as int).push(lists@[i as int]));
            lemma_claimed_in_push(lists@.take(i as int), lists@[i as int]);
        }
        i += 1;
    }
    assert(lists@.take(lists.len() as int) =~= lists@);
    names
}

/// One more volume adds the claim that it is backed by.
proof fn lemma_claimed_push(volumes: Seq<Volume>, volume: Volume)
    ensures
        forall|name: Seq<char>| #[trigger]
            claimed(volumes.push(volume), name) <==> claimed(volumes, name) || claim_of(volume)
                == Some(name),
{
    let longer = volumes.push(volume);
    assert forall|name: Seq<char>| #[trigger] claimed(longer, name) <==> claimed(volumes, name)
        || claim_of(volume) == Some(name) by {
        assert(longer[volumes.len() as int] == volume);
        if claimed(volumes, name) {
            let i = choose|i: int|
                0 <= i < volumes.len() && claim_of(#[trigger] volumes[i]) == Some(name);
            assert(longer[i] == volumes[i]);
        }
        if claimed(longer, name) {
            let i = choose|i: int|
                0 <= i < longer.len() && claim_of(#[trigger] longer[i]) == Some(name);
            assert(i < volumes.len() ==> longer[i] == volumes[i]);
        }
    }
}

/// One more list adds the claims of its volumes.
proof fn lemma_claimed_in_push(lists: Seq<Option<&Vec<Volume>>>, list: Option<&Vec<Volume>>)
    ensures
        forall|name: Seq<char>| #[trigger]
            claimed_in(lists.push(list), name) <==> claimed_in(lists, name) || claimed(
                volumes_in(list),
                name,
            ),
{
    let longer = lists.push(list);
    assert forall|name: Seq<char>| #[trigger] claimed_in(longer, name) <==> claimed_in(lists, name)
        || claimed(volumes_in(list), name) by {
        assert(longer[lists.len() as int] == list);
        if claimed_in(lists, name) {
            let i = choose|i: int|
                0 <= i < lists.len() && claimed(volumes_in(#[trigger] lists[i]), name);
            assert(longer[i] == lists[i]);
        }
        if claimed_in(longer, name) {
            let i = choose|i: int|
                0 <= i < longer.len() && claimed(volumes_in(#[trigger] longer[i]), name);
            assert(i < lists.len() ==> longer[i] == lists[i]);
        }
    }
}

/// The volumes of a pod spec that may be absent.
pub open spec fn pod_volumes(spec: Option<PodSpec>) -> Seq<Volume> {
    match spec {
        Some(spec) => listed(spec.volumes),
        None => Seq::empty(),
    }
}

/// The volumes of a pod spec that may be absent.
fn volume_list(spec: &Option<PodSpec>) -> (list: Option<&Vec<Volume>>)
    ensures
        volumes_in(list) == pod_volumes(*spec),
{
    match spec {
        Some(spec) => spec.volumes.as_ref(),
        None => None,
    }
}

/// Whether a pod mounts the claim `name`.
pub open spec fn used_by_pods(pods: Seq<Pod>, name: Seq<char>) -> bool {
    exists|i: int| 0 <= i < pods.len() && claimed(pod_volumes((#[trigger] pods[i]).spec), name)
}

/// Whether the pods of a deployment mount the claim `name`.
pub open spec fn used_by_deployments(deployments: Seq<Deployment>, name: Seq<char>) -> bool {
    exists|i: int|
        0 <= i < deployments.len() && claimed(
            pod_volumes(deployment_pod_spec(#[trigger] deployments[i])),
            name,
        )
}

/// Whether the pods of a job mount the claim `name`.
pub open spec fn used_by_jobs(jobs: Seq<Job>, name: Seq<char>) -> bool {
    exists|i: int|
        0 <= i < jobs.len() && claimed(pod_volumes(job_pod_spec(#[trigger] jobs[i])), name)
}

/// Whether one of the claim templates is named `name`.
pub open spec fn template_named(templates: Seq<PersistentVolumeClaim>, name: Seq<char>) -> bool {
    exists|i: int|
        0 <= i < templates.len() && ((#[trigger] templates[i]).metadata.name matches Some(given)
            && given@ == name)
}

/// The claim templates of a stateful set.
pub open spec fn claim_templates(set: StatefulSet) -> Seq<PersistentVolumeClaim> {
    match set.spec {
        Some(spec) => listed(spec.volume_claim_templates),
        None => Seq::empty(),
    }
}

/// Whether a stateful set has a claim template named `name`.
pub open spec fn used_by_sets(sets: Seq<StatefulSet>, name: Seq<char>) -> bool {
    exists|i: int|
        0 <= i < sets.len() && template_named(claim_templates(#[trigger] sets[i]), name)
}

/// Whether a workload uses the claim `name`: a pod, a deployment or a job by
/// its volumes, a stateful set by its claim templates.
pub open spec fn claim_in_use(workloads: Workloads, name: Seq<char>) -> bool {
    ||| used_by_pods(workloads.pods@, name)
    ||| used_by_sets(workloads.stateful_sets@, name)
    ||| used_by_deployments(workloads.deployments@, name)
    ||| used_by_jobs(workloads.jobs@, name)
}

/// Whether a pod mounts the claim `name`.
fn pods_use(pods: &Vec<Pod>, name: &str) -> (used: bool)
    ensures
        used == used_by_pods(pods@, name@),
{
    let mut lists: Vec<Option<&Vec<Volume>>> = Vec::new();
    let mut i: usize = 0;
    while i < pods.len()
        invariant
            i <= pods.len(),
            lists.len() == i,
            forall|j: int|
                0 <= j < i ==> volumes_in(#[trigger] lists@[j]) == pod_volumes(pods@[j].spec),
        decreases pods.len() - i,
    {
        lists.push(volume_list(&pods[i].spec));
        i += 1;
    }
    let names = pvc_names_from_volumes(&lists);
    proof {
        if used_by_pods(pods@, name@) {
            let j = choose|j: int|
                0 <= j < pods@.len() && claimed(pod_volumes((#[trigger] pods@[j]).spec), name@);
            assert(claimed(volumes_in(lists@[j]), name@));
        }
    }
    names.contains(name)
}

/// Whether the pods of a deployment mount the claim `name`.
fn deployments_use(deployments: &Vec<Deployment>, name: &str) -> (used: bool)
    ensures
        used == used_by_deployments(deployments@, name@),
{
    let mut lists: Vec<Option<&Vec<Volume>>> = Vec::new();
    let mut i: usize = 0;
    while i < deployments.len()
        invariant
            i <= deployments.len(),
            lists.len() == i,
            forall|j: int|
                0 <= j < i ==> volumes_in(#[trigger] lists@[j]) == pod_volumes(
                    deployment_pod_spec(deployments@[j]),
                ),
        decreases deployments.len() - i,
    {
        lists.push(
            match &deployments[i].spec {
                Some(spec) => volume_list(&spec.template.spec),
                None => None,
            },
        );
        i += 1;
    }
    let names = pvc_names_from_volumes(&lists);
    proof {
        if used_by_deployments(deployments@, name@) {
            let j = choose|j: int|
                0 <= j < deployments@.len() && claimed(
                    pod_volumes(deployment_pod_spec(#[trigger] deployments@[j])),
                    name@,
                );
            assert(claimed(volumes_in(lists@[j]), name@));
        }
    }
    names.contains(name)
}

/// Whether the pods of a job mount the claim `name`.
fn jobs_use(jobs: &Vec<Job>, name: &str) -> (used: bool)
    ensures
        used == used_by_jobs(jobs@, name@),
{
    let mut lists: Vec<Option<&Vec<Volume>>> = Vec::new();
    let mut i: usize = 0;
    while i < jobs.len()
        invariant
            i <= jobs.len(),
            lists.len() == i,
            forall|j: int|
                0 <= j < i ==> volumes_in(#[trigger] lists@[j]) == pod_volumes(
                    job_pod_spec(jobs@[j]),
                ),
        decreases jobs.len() - i,
    {
        lists.push(
            match &jobs[i].spec {
                Some(spec) => volume_list(&spec.template.spec),
                None => None,
            },
        );
        i += 1;
    }
    let names = pvc_names_from_volumes(&lists);
    proof {
        if used_by_jobs(jobs@, name@) {
            let j = choose|j: int|
                0 <= j < jobs@.len() && claimed(
                    pod_volumes(job_pod_spec(#[trigger] jobs@[j])),
                    name@,
                );
            assert(claimed(volumes_in(lists@[j]), name@));
        }
    }
    names.contains(name)
}

/// Whether one of the claim templates is named `name`.
fn has_template(templates: &Vec<PersistentVolumeClaim>, name: &str) -> (found: bool)
    ensures
        found == template_named(templates@, name@),
{
    let mut i: usize = 0;
    while i < templates.len()
        invariant
            i <= templates.len(),
            forall|j: int|
                0 <= j < i ==> !((#[trigger] templates@[j]).metadata.name matches Some(given)
                    && given@ == name@),
        decreases templates.len() - i,
    {
        if let Some(given) = &templates[i].metadata.name {
            if same(given.as_str(), name) {
                assert(templates@[i as int].metadata.name is Some);
                return true;
            }
        }
        i += 1;
    }
    false
}

/// Whether a stateful set has a claim template named `name`.
fn sets_use(sets: &Vec<StatefulSet>, name: &str) -> (used: bool)
    ensures
        used == used_by_sets(sets@, name@),
{
    let mut i: usize = 0;
    while i < sets.len()
        invariant
            i <= sets.len(),
            forall|j: int|
                0 <= j < i ==> !template_named(claim_templates(#[trigger] sets@[j]), name@),
        decreases sets.len() - i,
    {
        if let Some(spec) = &sets[i].spec {
            if let Some(templates) = &spec.volume_claim_templates {
                if has_template(templates, name) {
                    assert(template_named(claim_templates(sets@[i as int]), name@));
                    return true;
                }
            }
        }
        i += 1;
    }
    false
}

/// Whether a workload of the claim's namespace uses the claim, or the error
/// that the workloads could not be listed for.
pub open spec fn use_outcome(workloads: Result<Workloads, LornError>, name: Seq<char>) -> Result<
    bool,
    LornError,
> {
    match workloads {
        Ok(workloads) => Ok(claim_in_use(workloads, name)),
        Err(error) => Err(error),
    }
}

/// Whether a workload of the claim's namespace uses the claim.
pub fn pvc_in_use(workloads: Result<Workloads, LornError>, pvc_name: &str) -> (in_use: Result<
    bool,
    LornError,
>)
    ensures
        in_use == use_outcome(workloads, pvc_name@),
{
    let workloads = match workloads {
        Ok(workloads) => workloads,
        Err(error) => {
            return Err(error);
        },
    };
    let pod_ref = pods_use(&workloads.pods, pvc_name);
    let sts_ref = sets_use(&workloads.stateful_sets, pvc_name);
    let deploy_ref = deployments_use(&workloads.deployments, pvc_name);
    let job_ref = jobs_use(&workloads.jobs, pvc_name);
    Ok(pod_ref || sts_ref || deploy_ref || job_ref)
}

/// A claim: its namespace, its name and the volume that it is bound to.
pub type Claim = (String, String, String);

/// The namespace of a claim, its name and the volume that it is bound to.
pub open spec fn claim_text(pvc: PersistentVolumeClaim) -> (Seq<char>, Seq<char>, Seq<char>) {
    (
        name_or(pvc.metadata.namespace, "default"@),
        name_or(pvc.metadata.name, "<unnamed>"@),
        match pvc.spec {
            Some(spec) => name_or(spec.volume_name, "<unbound>"@),
            None => "<unbound>"@,
        },
    )
}

/// The namespace of a claim, its name and the volume that it is bound to.
pub fn describe_claim(pvc: &PersistentVolumeClaim) -> (claim: Claim)
    ensures
        claim.deep_view() == claim_text(*pvc),
{
    let volume = match &pvc.spec {
        Some(spec) => copy_name_or(&spec.volume_name, "<unbound>"),
        None => "<unbound>".to_owned(),
    };
    (
        copy_name_or(&pvc.metadata.namespace, "default"),
        copy_name_or(&pvc.metadata.name, "<unnamed>"),
        volume,
    )
}

/// A claim, and the workloads of its namespace or why they could not be listed.
pub type ClaimCheck = (PersistentVolumeClaim, Result<Workloads, LornError>);

/// Whether the workloads of a claim's namespace are known, and none uses it.
pub open spec fn orphaned(check: ClaimCheck) -> bool {
    use_outcome(check.1, claim_text(check.0).1) == Ok::<bool, LornError>(false)
}

/// The claims that nothing uses, in the order in which they are given.
pub open spec fn unused(checks: Seq<ClaimCheck>) -> Seq<(Seq<char>, Seq<char>, Seq<char>)> {
    checks.filter(|check: ClaimCheck| orphaned(check)).map_values(
        |check: ClaimCheck| claim_text(check.0),
    )
}

/// The first claim whose workloads could not be listed, if there is one.
pub open spec fn unchecked(checks: Seq<ClaimCheck>) -> Option<ClaimCheck> {
    first(checks, |check: ClaimCheck| check.1 is Err)
}

/// The claims that nothing uses. The whole fails where the claims could not be
/// listed, or the workloads of one of them.
pub open spec fn orphans_outcome(claims: Result<Vec<ClaimCheck>, KubeError>) -> Result<
    Seq<(Seq<char>, Seq<char>, Seq<char>)>,
    LornError,
> {
    match claims {
        Ok(checks) => match unchecked(checks@) {
            Some(check) => Err(check.1->Err_0),
            None => Ok(unused(checks@)),
        },
        Err(error) => Err(LornError::Kube(error)),
    }
}

/// The claims that nothing uses, from what the server answered to the list of
/// all claims, each claim with the workloads of its namespace.
pub fn find_orphaned_pvcs(claims: Result<Vec<ClaimCheck>, KubeError>) -> (orphans: Result<
    Vec<Claim>,
    LornError,
>)
    ensures
        viewed(orphans) == orphans_outcome(claims),
{
    let checks = match claims {
        Ok(checks) => checks,
        Err(error) => {
            return Err(LornError::Kube(error));
        },
    };
    let ghost all = checks@;
    let ghost lost = |check: ClaimCheck| orphaned(check);
    let ghost failed = |check: ClaimCheck| check.1 is Err;
    let mut orphans: Vec<Claim> = Vec::new();
    proof {
        assert(all.take(0) =~= Seq::empty());
        reveal(Seq::filter);
        assert(orphans.deep_view() =~= unused(all.take(0)));
    }
    for check in it: checks
        invariant
            it.seq() == all,
            claims == Ok::<Vec<ClaimCheck>, KubeError>(checks),
            all == checks@,
            lost == (|check: ClaimCheck| orphaned(check)),
            failed == (|check: ClaimCheck| check.1 is Err),
            forall|j: int| 0 <= j < it.index() ==> !failed(#[trigger] all[j]),
            orphans.deep_view() == unused(all.take(it.index() as int)),
    {
        let ghost i = it.index() as int;
        let ghost before = orphans.deep_view();
        let ghost whole = check;
        assert(whole == all[i]);
        let (pvc, workloads) = check;
        let claim = describe_claim(&pvc);
        match pvc_in_use(workloads, claim.1.as_str()) {
            Ok(in_use) => {
                if !in_use {
                    orphans.push(claim);
                    assert(orphans.deep_view() =~= before.push(claim.deep_view()));
                }
            },
            Err(error) => {
                proof {
                    lemma_first_at(all, failed, i);
                }
                return Err(error);
            },
        }
        proof {
            let earlier = all.take(i);
            assert(all.take(i + 1) =~= earlier.push(whole));
            earlier.lemma_filter_push(whole, lost);
            assert(unused(all.take(i + 1)) =~= if orphaned(whole) {
                unused(earlier).push(claim_text(whole.0))
            } else {
                unused(earlier)
            });
        }
    }
    proof {
        lemma_first_none(all, failed);
        assert(all.take(all.len() as int) =~= all);
    }
    Ok(orphans)
}

/// A claim is reported exactly where no workload of its namespace uses it, and
/// nothing else is reported.
pub proof fn law_orphans_are_unused(
    checks: Seq<ClaimCheck>,
    claim: (Seq<char>, Seq<char>, Seq<char>),
)
    ensures
        unused(checks).contains(claim) <==> exists|i: int|
            0 <= i < checks.len() && claim_text((#[trigger] checks[i]).0) == claim && (
            checks[i].1 matches Ok(workloads) && !claim_in_use(workloads, claim.1)),
{
    let lost = |check: ClaimCheck| orphaned(check);
    let kept = checks.filter(lost);
    if unused(checks).contains(claim) {
        let k = choose|k: int| 0 <= k < unused(checks).len() && unused(checks)[k] == claim;
        lemma_filter_holds(checks, lost, kept[k]);
        assert(kept.contains(kept[k]));
        let i = choose|i: int| 0 <= i < checks.len() && checks[i] == kept[k];
        assert(claim_text(checks[i].0) == claim);
    }
    if exists|i: int|
        0 <= i < checks.len() && claim_text((#[trigger] checks[i]).0) == claim && orphaned(
            checks[i],
        ) {
        let i = choose|i: int|
            0 <= i < checks.len() && claim_text((#[trigger] checks[i]).0) == claim && orphaned(
                checks[i],
            );
        lemma_filter_holds(checks, lost, checks[i]);
        assert(checks.contains(checks[i]));
        let k = choose|k: int| 0 <= k < kept.len() && kept[k] == checks[i];
        assert(unused(checks)[k] == claim);
    }
}

/// The claims that nothing uses come out exactly where the claims could be
/// listed and the workloads of every claim's namespace too.
pub proof fn law_orphans_all_or_nothing(claims: Result<Vec<ClaimCheck>, KubeError>)
    ensures
        orphans_outcome(claims) is Ok <==> (claims matches Ok(checks) && forall|i: int|
            0 <= i < checks@.len() ==> (#[trigger] checks@[i]).1 is Ok),
{
    if let Ok(checks) = claims {
        lemma_first(checks@, |check: ClaimCheck| check.1 is Err);
    }
}

/// The claims that lists of volumes name are exactly those that a volume at any
/// place of any list is backed by.
pub proof fn law_claims_named(lists: Seq<Option<&Vec<Volume>>>, name: Seq<char>)
    ensures
        claimed_in(lists, name) <==> exists|i: int, k: int|
            0 <= i < lists.len() && lists[i] is Some && 0 <= k < (lists[i]->0)@.len() && ((
            #[trigger] (lists[i]->0)@[k]).persistent_volume_claim matches Some(source)
                && source.claim_name@ == name),
{
    if claimed_in(lists, name) {
        let i = choose|i: int|
            0 <= i < lists.len() && claimed(volumes_in(#[trigger] lists[i]), name);
        let volumes = volumes_in(lists[i]);
        let k = choose|k: int|
            0 <= k < volumes.len() && claim_of(#[trigger] volumes[k]) == Some(name);
        assert((lists[i]->0)@[k].persistent_volume_claim is Some);
    }
    assert forall|i: int, k: int|
        0 <= i < lists.len() && lists[i] is Some && 0 <= k < (lists[i]->0)@.len() && ((
        #[trigger] (lists[i]->0)@[k]).persistent_volume_claim matches Some(source)
            && source.claim_name@ == name) implies claimed_in(lists, name) by {
        assert(claim_of(volumes_in(lists[i])[k]) == Some(name));
        assert(claimed(volumes_in(lists[i]), name));
    }
}

/// A pod that mounts a claim through any of its volumes uses it.
proof fn lemma_pod_volumes(spec: Option<PodSpec>, name: Seq<char>)
    ensures
        claimed(pod_volumes(spec), name) <==> spec is Some && spec->0.volumes is Some && exists|
            k: int,
        |
            0 <= k < spec->0.volumes->0@.len() && ((
            #[trigger] spec->0.volumes->0@[k]).persistent_volume_claim matches Some(source)
                && source.claim_name@ == name),
{
    let volumes = pod_volumes(spec);
    if claimed(volumes, name) {
        let k = choose|k: int|
            0 <= k < volumes.len() && claim_of(#[trigger] volumes[k]) == Some(name);
        assert(spec->0.volumes->0@[k].persistent_volume_claim is Some);
    }
    if spec is Some && spec->0.volumes is Some {
        assert forall|k: int|
            0 <= k < spec->0.volumes->0@.len() && ((
            #[trigger] spec->0.volumes->0@[k]).persistent_volume_claim matches Some(source)
                && source.claim_name@ == name) implies claimed(volumes, name) by {
            assert(claim_of(volumes[k]) == Some(name));
        }
    }
}

/// A claim is used by pods exactly where any volume of any pod names it.
pub proof fn law_used_by_pods(pods: Seq<Pod>, name: Seq<char>)
    ensures
        used_by_pods(pods, name) <==> exists|i: int, k: int|
            0 <= i < pods.len() && pods[i].spec is Some && pods[i].spec->0.volumes is Some && 0 <= k
                < pods[i].spec->0.volumes->0@.len() && ((
            #[trigger] pods[i].spec->0.volumes->0@[k]).persistent_volume_claim matches Some(source)
                && source.claim_name@ == name),
{
    if used_by_pods(pods, name) {
        let i = choose|i: int|
            0 <= i < pods.len() && claimed(pod_volumes((#[trigger] pods[i]).spec), name);
        lemma_pod_volumes(pods[i].spec, name);
    }
    assert forall|i: int, k: int|
        0 <= i < pods.len() && pods[i].spec is Some && pods[i].spec->0.volumes is Some && 0 <= k
            < pods[i].spec->0.volumes->0@.len() && ((
        #[trigger] pods[i].spec->0.volumes->0@[k]).persistent_volume_claim matches Some(source)
            && source.claim_name@ == name) implies used_by_pods(pods, name) by {
        lemma_pod_volumes(pods[i].spec, name);
        assert(claimed(pod_volumes(pods[i].spec), name));
    }
}

/// A claim is used by deployments exactly where any volume of the template of
/// any deployment names it.
pub proof fn law_used_by_deployments(deployments: Seq<Deployment>, name: Seq<char>)
    ensures
        used_by_deployments(deployments, name) <==> exists|i: int, k: int|
            0 <= i < deployments.len() && deployments[i].spec is Some
                && deployments[i].spec->0.template.spec is Some
                && deployments[i].spec->0.template.spec->0.volumes is Some && 0 <= k
                < deployments[i].spec->0.template.spec->0.volumes->0@.len() && ((
            #[trigger] deployments[i].spec->0.template.spec->0.volumes->0@[k]).persistent_volume_claim
                matches Some(source) && source.claim_name@ == name),
{
    if used_by_deployments(deployments, name) {
        let i = choose|i: int|
            0 <= i < deployments.len() && claimed(
                pod_volumes(deployment_pod_spec(#[trigger] deployments[i])),
                name,
            );
        lemma_pod_volumes(deployments[i].spec->0.template.spec, name);
    }
    assert forall|i: int, k: int|
        0 <= i < deployments.len() && deployments[i].spec is Some
            && deployments[i].spec->0.template.spec is Some
            && deployments[i].spec->0.template.spec->0.volumes is Some && 0 <= k
            < deployments[i].spec->0.template.spec->0.volumes->0@.len() && ((
        #[trigger] deployments[i].spec->0.template.spec->0.volumes->0@[k]).persistent_volume_claim
            matches Some(source) && source.claim_name@ == name) implies used_by_deployments(
        deployments,
        name,
    ) by {
        lemma_pod_volumes(deployments[i].spec->0.template.spec, name);
        assert(claimed(pod_volumes(deployment_pod_spec(deployments[i])), name));
    }
}

/// A claim is used by jobs exactly where any volume of the template of any job
/// names it.
pub proof fn law_used_by_jobs(jobs: Seq<Job>, name: Seq<char>)
    ensures
        used_by_jobs(jobs, name) <==> exists|i: int, k: int|
            0 <= i < jobs.len() && jobs[i].spec is Some && jobs[i].spec->0.template.spec is Some
                && jobs[i].spec->0.template.spec->0.volumes is Some && 0 <= k
                < jobs[i].spec->0.template.spec->0.volumes->0@.len() && ((
            #[trigger] jobs[i].spec->0.template.spec->0.volumes->0@[k]).persistent_volume_claim
                matches Some(source) && source.claim_name@ == name),
{
    if used_by_jobs(jobs, name) {
        let i = choose|i: int|
            0 <= i < jobs.len() && claimed(pod_volumes(job_pod_spec(#[trigger] jobs[i])), name);
        lemma_pod_volumes(jobs[i].spec->0.template.spec, name);
    }
    assert forall|i: int, k: int|
        0 <= i < jobs.len() && jobs[i].spec is Some && jobs[i].spec->0.template.spec is Some
            && jobs[i].spec->0.template.spec->0.volumes is Some && 0 <= k
            < jobs[i].spec->0.template.spec->0.volumes->0@.len() && ((
        #[trigger] jobs[i].spec->0.template.spec->0.volumes->0@[k]).persistent_volume_claim
            matches Some(source) && source.claim_name@ == name) implies used_by_jobs(
        jobs,
        name,
    ) by {
        lemma_pod_volumes(jobs[i].spec->0.template.spec, name);
        assert(claimed(pod_volumes(job_pod_spec(jobs[i])), name));
    }
}

/// A claim is used by stateful sets exactly where any claim template of any set
/// has its name.
pub proof fn law_used_by_sets(sets: Seq<StatefulSet>, name: Seq<char>)
    ensures
        used_by_sets(sets, name) <==> exists|i: int, k: int|
            0 <= i < sets.len() && sets[i].spec is Some
                && sets[i].spec->0.volume_claim_templates is Some && 0 <= k
                < sets[i].spec->0.volume_claim_templates->0@.len() && ((
            #[trigger] sets[i].spec->0.volume_claim_templates->0@[k]).metadata.name matches Some(
                given,
            ) && given@ == name),
{
    if used_by_sets(sets, name) {
        let i = choose|i: int|
            0 <= i < sets.len() && template_named(claim_templates(#[trigger] sets[i]), name);
        let templates = claim_templates(sets[i]);
        let k = choose|k: int|
            0 <= k < templates.len() && ((#[trigger] templates[k]).metadata.name matches Some(given)
                && given@ == name);
        assert(sets[i].spec->0.volume_claim_templates->0@[k].metadata.name is Some);
    }
    assert forall|i: int, k: int|
        0 <= i < sets.len() && sets[i].spec is Some
            && sets[i].spec->0.volume_claim_templates is Some && 0 <= k
            < sets[i].spec->0.volume_claim_templates->0@.len() && ((
        #[trigger] sets[i].spec->0.volume_claim_templates->0@[k]).metadata.name matches Some(given)
            && given@ == name) implies used_by_sets(sets, name) by {
        let templates = claim_templates(sets[i]);
        assert(templates[k].metadata.name is Some);
        assert(template_named(templates, name));
    }
}

/// A claim is in use exactly where the pods, the stateful sets, the deployments
/// or the jobs of its namespace use it; where these are not known, it is not
/// known whether the claim is in use.
pub proof fn law_in_use(workloads: Workloads, name: Seq<char>, error: LornError)
    ensures
        use_outcome(Ok(workloads), name) == Ok::<bool, LornError>(
            used_by_pods(workloads.pods@, name) || used_by_sets(workloads.stateful_sets@, name)
                || used_by_deployments(workloads.deployments@, name) || used_by_jobs(
                workloads.jobs@,
                name,
            ),
        ),
        use_outcome(Err(error), name) == Err::<bool, LornError>(error),
{
}

/// A claim is described by the names that it has; `default`, `<unnamed>` and
/// `<unbound>` stand for those that it lacks.
pub proof fn law_claim_names(pvc: PersistentVolumeClaim)
    ensures
        claim_text(pvc).0 == match pvc.metadata.namespace {
            Some(namespace) => namespace@,
            None => "default"@,
        },
        claim_text(pvc).1 == match pvc.metadata.name {
            Some(name) => name@,
            None => "<unnamed>"@,
        },
        pvc.spec is None ==> claim_text(pvc).2 == "<unbound>"@,
        pvc.spec is Some ==> claim_text(pvc).2 == match pvc.spec->0.volume_name {
            Some(volume) => volume@,
            None => "<unbound>"@,
        },
{
}

/// One more claim is reported behind the others exactly where nothing in its
/// namespace uses it, whatever the other claims are; and one claim whose
/// workloads are not known fails the whole.
pub proof fn law_orphans_in_turn(
    shorter: Vec<ClaimCheck>,
    longer: Vec<ClaimCheck>,
    pvc: PersistentVolumeClaim,
    workloads: Result<Workloads, LornError>,
    error: KubeError,
)
    requires
        longer@ == shorter@.push((pvc, workloads)),
    ensures
        shorter@.len() == 0 ==> orphans_outcome(Ok(shorter)) == Ok::<
            Seq<(Seq<char>, Seq<char>, Seq<char>)>,
            LornError,
        >(Seq::empty()),
        orphans_outcome(Ok(longer)) == match (orphans_outcome(Ok(shorter)), workloads) {
            (Ok(before), Ok(workloads)) => if claim_in_use(workloads, claim_text(pvc).1) {
                Ok(before)
            } else {
                Ok(before.push(claim_text(pvc)))
            },
            (Err(error), _) => Err(error),
            (Ok(_), Err(error)) => Err(error),
        },
        orphans_outcome(Err(error)) == Err::<Seq<(Seq<char>, Seq<char>, Seq<char>)>, LornError>(
            LornError::Kube(error),
        ),
{
    let failed = |check: ClaimCheck| check.1 is Err;
    let lost = |check: ClaimCheck| orphaned(check);
    let check: ClaimCheck = (pvc, workloads);
    if shorter@.len() == 0 {
        lemma_first_none(shorter@, failed);
        reveal(Seq::filter);
        assert(unused(shorter@) =~= Seq::empty());
    }
    assert(longer@ =~= shorter@ + seq![check]);
    lemma_first_concat(shorter@, seq![check], failed);
    lemma_first(shorter@, failed);
    if workloads is Err {
        lemma_first_at(seq![check], failed, 0);
    } else {
        lemma_first_none(seq![check], failed);
    }
    shorter@.lemma_filter_push(check, lost);
    assert(unused(longer@) =~= if orphaned(check) {
        unused(shorter@).push(claim_text(pvc))
    } else {
        unused(shorter@)
    });
}


} // verus!
