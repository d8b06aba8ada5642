//! Containers that run images of the Bitnami catalogue.
use crate::error::LornError;
use crate::objects::{
    copy_name_or, Container, Deployment, Job, ObjectMeta, Pod, PodSpec, StatefulSet, Workloads,
};
#[allow(unused_imports)]
use crate::objects::{deployment_pod_spec, job_pod_spec, listed, name_or, set_pod_spec};
use crate::outcome::join;
#[allow(unused_imports)]
use crate::outcome::{both, joined, law_all_or_nothing, law_joined, viewed};
#[allow(unused_imports)]
use crate::search::{lemma_concat_contains, lemma_flat_map_contains};
#[allow(unused_imports)]
use crate::text::decimal;
use crate::text::{decimal_text, starts_with};
use vstd::prelude::*;
#[allow(unused_imports)]
use vstd::string::*;

verus! {

/// Whether an image comes from the Bitnami catalogue of the default registry.
pub open spec fn from_bitnami(image: Seq<char>) -> bool {
    "docker.io/bitnami/"@.is_prefix_of(image) || "bitnami/"@.is_prefix_of(image)
}

/// Whether an image comes from the Bitnami catalogue of the default registry.
pub fn is_bitnami_image(image: &str) -> (bitnami: bool)
    ensures
        bitnami == from_bitnami(image@),
{
    starts_with(image, "docker.io/bitnami/") || starts_with(image, "bitnami/")
}

/// Where a container stands in a pod spec, such as `spec.containers[0]`.
pub open spec fn container_path(list: Seq<char>, index: nat) -> Seq<char> {
    list + "["@ + decimal(index) + "]"@
}

/// The path and the image of a container, if its image is a Bitnami image.
pub open spec fn image_hit(
    container: Container,
    list: Seq<char>,
    index: nat,
) -> Option<(Seq<char>, Seq<char>)> {
    match container.image {
        Some(image) => if from_bitnami(image@) {
            Some((container_path(list, index), image@))
        } else {
            None
        },
        None => None,
    }
}

/// The paths and images of the containers of a list that run Bitnami images.
pub open spec fn list_hits(containers: Seq<Container>, list: Seq<char>) -> Seq<
    (Seq<char>, Seq<char>),
>
    decreases containers.len(),
{
    if containers.len() == 0 {
        Seq::empty()
    } else {
        let before = list_hits(containers.drop_last(), list);
        match image_hit(containers.last(), list, (containers.len() - 1) as nat) {
            Some(hit) => before.push(hit),
            None => before,
        }
    }
}

/// The paths and images of the containers of a pod that run Bitnami images:
/// regular containers, before init containers.
pub open spec fn pod_spec_hits(spec: PodSpec) -> Seq<(Seq<char>, Seq<char>)> {
    list_hits(spec.containers@, "spec.containers"@) + list_hits(
        listed(spec.init_containers),
        "spec.initContainers"@,
    )
}

/// The containers of a list that run Bitnami images.
fn bitnami_images_in_list(containers: &Vec<Container>, list: &str) -> (hits: Vec<(String, String)>)
    ensures
        hits.deep_view() == list_hits(containers@, list@),
{
    let mut hits: Vec<(String, String)> = Vec::new();
    let mut i: usize = 0;
    assert(hits.deep_view() =~= list_hits(containers@.take(0), list@));
    while i < containers.len()
        invariant
            i <= containers.len(),
            hits.deep_view() == list_hits(containers@.take(i as int), list@),
        decreases containers.len() - i,
    {
        let ghost before = hits.deep_view();
        assert(containers@.take(i + 1).drop_last() =~= containers@.take(i as int));
        if let Some(image) = &containers[i].image {
            if is_bitnami_image(image.as_str()) {
                let path = list.to_owned().concat("[").concat(
                    decimal_text(i as u64).as_str(),
                ).concat("]");
                hits.push((path, image.clone()));
                assert(hits.deep_view() =~= before.push((path@, image@)));
            }
        }
        i += 1;
    }
    assert(containers@.take(containers.len() as int) =~= containers@);
    hits
}

/// The path and the image of every container of a pod that runs a Bitnami
/// image.
pub fn bitnami_images_in_pod_spec(spec: &PodSpec) -> (hits: Vec<(String, String)>)
    ensures
        hits.deep_view() == pod_spec_hits(*spec),
{
    let mut hits = bitnami_images_in_list(&spec.containers, "spec.containers");
    let ghost regular = hits.deep_view();
    if let Some(init) = &spec.init_containers {
        let mut more = bitnami_images_in_list(init, "spec.initContainers");
        let ghost from_init = more.deep_view();
        hits.append(&mut more);
        assert(hits.deep_view() =~= regular + from_init);
    } else {
        assert(regular =~= pod_spec_hits(*spec));
    }
    hits
}

/// A container that runs a Bitnami image.
#[derive(Debug)]
pub struct BitnamiHit {
    /// The kind of the resource that runs it.
    pub kind: &'static str,
    /// The resource, as `namespace/name`.
    pub name: String,
    /// Where the container stands, such as `spec.initContainers[1]`.
    pub container_path: String,
    pub image: String,
}

/// A container that runs a Bitnami image, as text.
pub ghost struct BitnamiHitView {
    pub kind: Seq<char>,
    pub name: Seq<char>,
    pub container_path: Seq<char>,
    pub image: Seq<char>,
}

impl DeepView for BitnamiHit {
    type V = BitnamiHitView;

    open spec fn deep_view(&self) -> BitnamiHitView {
        BitnamiHitView {
            kind: self.kind@,
            name: self.name@,
            container_path: self.container_path@,
            image: self.image@,
        }
    }
}

/// A resource as `namespace/name`.
pub open spec fn resource_name(ns: Seq<char>, metadata: ObjectMeta) -> Seq<char> {
    ns + "/"@ + name_or(metadata.name, "<unnamed>"@)
}

/// The hits in one resource of the given kind, whose pods run `spec`.
pub open spec fn resource_hits(
    kind: Seq<char>,
    ns: Seq<char>,
    metadata: ObjectMeta,
    spec: Option<PodSpec>,
) -> Seq<BitnamiHitView> {
    match spec {
        Some(spec) => pod_spec_hits(spec).map_values(
            |hit: (Seq<char>, Seq<char>)|
                BitnamiHitView {
                    kind,
                    name: resource_name(ns, metadata),
                    container_path: hit.0,
                    image: hit.1,
                },
        ),
        None => Seq::empty(),
    }
}

/// The hits in one resource of the given kind, whose pods run `spec`.
fn bitnami_images_in_resource(
    kind: &'static str,
    ns: &str,
    metadata: &ObjectMeta,
    spec: &Option<PodSpec>,
) -> (hits: Vec<BitnamiHit>)
    ensures
        hits.deep_view() == resource_hits(kind@, ns@, *metadata, *spec),
{
    let mut hits: Vec<BitnamiHit> = Vec::new();
    let ghost expected = resource_hits(kind@, ns@, *metadata, *spec);
    if let Some(spec) = spec {
        let images = bitnami_images_in_pod_spec(spec);
        let name = ns.to_owned().concat("/").concat(
            copy_name_or(&metadata.name, "<unnamed>").as_str(),
        );
        let mut i: usize = 0;
        while i < images.len()
            invariant
                i <= images.len(),
                images.deep_view() == pod_spec_hits(*spec),
                expected == resource_hits(kind@, ns@, *metadata, Some(*spec)),
                name@ == resource_name(ns@, *metadata),
                hits.deep_view() == expected.take(i as int),
            decreases images.len() - i,
        {
            let ghost before = hits.deep_view();
            assert(images.deep_view()[i as int] == (images@[i as int].0@, images@[i as int].1@));
            let hit = BitnamiHit {
                kind,
                name: name.clone(),
                container_path: images[i].0.clone(),
                image: images[i].1.clone(),
            };
            hits.push(hit);
            assert(hits.deep_view() =~= before.push(hit.deep_view()));
            assert(expected.take(i + 1) =~= expected.take(i as int).push(expected[i as int]));
            i += 1;
        }
        assert(expected.take(images.len() as int) =~= expected);
    } else {
        assert(hits.deep_view() =~= expected);
    }
    hits
}

/// The hits in one pod.
pub open spec fn pod_hits(ns: Seq<char>) -> spec_fn(Pod) -> Seq<BitnamiHitView> {
    |pod: Pod| resource_hits("pod"@, ns, pod.metadata, pod.spec)
}

/// Every container of the given pods that runs a Bitnami image.
fn bitnami_images_in_pods(ns: &str, pods: &Vec<Pod>) -> (hits: Vec<BitnamiHit>)
    ensures
        hits.deep_view() == pods@.flat_map(pod_hits(ns@)),
{
    let mut hits: Vec<BitnamiHit> = Vec::new();
    let mut i: usize = 0;
    assert(hits.deep_view() =~= pods@.take(0).flat_map(pod_hits(ns@)));
    while i < pods.len()
        invariant
            i <= pods.len(),
            hits.deep_view() == pods@.take(i as int).flat_map(pod_hits(ns@)),
        decreases pods.len() - i,
    {
        let ghost before = hits.deep_view();
        let mut more = bitnami_images_in_resource(
            "pod",
            ns,
            &pods[i].metadata,
            &pods[i].spec,
        );
        let ghost added = more.deep_view();
        assert(added =~= pod_hits(ns@)(pods@[i as int]));
        hits.append(&mut more);
        proof {
            assert(hits.deep_view() =~= before + added);
            pods@.lemma_flat_map_take_append(pod_hits(ns@), i as int);
        }
        i += 1;
    }
    assert(pods@.take(pods.len() as int) =~= pods@);
    hits
}

/// The hits in one stateful set.
pub open spec fn set_hits(ns: Seq<char>) -> spec_fn(StatefulSet) -> Seq<BitnamiHitView> {
    |set: StatefulSet| resource_hits("statefulset"@, ns, set.metadata, set_pod_spec(set))
}

/// Every container of the given stateful sets that runs a Bitnami image.
fn bitnami_images_in_stateful_sets(ns: &str, stateful_sets: &Vec<StatefulSet>) -> (hits: Vec<
    BitnamiHit,
>)
    ensures
        hits.deep_view() == stateful_sets@.flat_map(set_hits(ns@)),
{
    let mut hits: Vec<BitnamiHit> = Vec::new();
    let mut i: usize = 0;
    assert(hits.deep_view() =~= stateful_sets@.take(0).flat_map(set_hits(ns@)));
    while i < stateful_sets.len()
        invariant
            i <= stateful_sets.len(),
            hits.deep_view() == stateful_sets@.take(i as int).flat_map(set_hits(ns@)),
        decreases stateful_sets.len() - i,
    {
        let ghost before = hits.deep_view();
        let mut more = match &stateful_sets[i].spec {
            Some(spec) => bitnami_images_in_resource(
                "statefulset",
                ns,
                &stateful_sets[i].metadata,
                &spec.template.spec,
            ),
            None => Vec::new(),
        };
        let ghost added = more.deep_view();
        assert(added =~= set_hits(ns@)(stateful_sets@[i as int]));
        hits.append(&mut more);
        proof {
            assert(hits.deep_view() =~= before + added);
            stateful_sets@.lemma_flat_map_take_append(set_hits(ns@), i as int);
        }
        i += 1;
    }
    assert(stateful_sets@.take(stateful_sets.len() as int) =~= stateful_sets@);
    hits
}

/// The hits in one deployment.
pub open spec fn deployment_hits(ns: Seq<char>) -> spec_fn(Deployment) -> Seq<BitnamiHitView> {
    |deployment: Deployment|
        resource_hits(
            "deployment"@,
            ns,
            deployment.metadata,
            deployment_pod_spec(deployment),
        )
}

/// Every container of the given deployments that runs a Bitnami image.
fn bitnami_images_in_deployments(ns: &str, deployments: &Vec<Deployment>) -> (hits: Vec<
    BitnamiHit,
>)
    ensures
        hits.deep_view() == deployments@.flat_map(deployment_hits(ns@)),
{
    let mut hits: Vec<BitnamiHit> = Vec::new();
    let mut i: usize = 0;
    assert(hits.deep_view() =~= deployments@.take(0).flat_map(deployment_hits(ns@)));
    while i < deployments.len()
        invariant
            i <= deployments.len(),
            hits.deep_view() == deployments@.take(i as int).flat_map(deployment_hits(ns@)),
        decreases deployments.len() - i,
    {
        let ghost before = hits.deep_view();
        let mut more = match &deployments[i].spec {
            Some(spec) => bitnami_images_in_resource(
                "deployment",
                ns,
                &deployments[i].metadata,
                &spec.template.spec,
            ),
            None => Vec::new(),
        };
        let ghost added = more.deep_view();
        assert(added =~= deployment_hits(ns@)(deployments@[i as int]));
        hits.append(&mut more);
        proof {
            assert(hits.deep_view() =~= before + added);
            deployments@.lemma_flat_map_take_append(deployment_hits(ns@), i as int);
        }
        i += 1;
    }
    assert(deployments@.take(deployments.len() as int) =~= deployments@);
    hits
}

/// The hits in one job.
pub open spec fn job_hits(ns: Seq<char>) -> spec_fn(Job) -> Seq<BitnamiHitView> {
    |job: Job| resource_hits("job"@, ns, job.metadata, job_pod_spec(job))
}

/// Every container of the given jobs that runs a Bitnami image.
fn bitnami_images_in_jobs(ns: &str, jobs: &Vec<Job>) -> (hits: Vec<BitnamiHit>)
    ensures
        hits.deep_view() == jobs@.flat_map(job_hits(ns@)),
{
    let mut hits: Vec<BitnamiHit> = Vec::new();
    let mut i: usize = 0;
    assert(hits.deep_view() =~= jobs@.take(0).flat_map(job_hits(ns@)));
    while i < jobs.len()
        invariant
            i <= jobs.len(),
            hits.deep_view() == jobs@.take(i as int).flat_map(job_hits(ns@)),
        decreases jobs.len() - i,
    {
        let ghost before = hits.deep_view();
        let mut more = match &jobs[i].spec {
            Some(spec) => bitnami_images_in_resource(
                "job",
                ns,
                &jobs[i].metadata,
                &spec.template.spec,
            ),
            None => Vec::new(),
        };
        let ghost added = more.deep_view();
        assert(added =~= job_hits(ns@)(jobs@[i as int]));
        hits.append(&mut more);
        proof {
            assert(hits.deep_view() =~= before + added);
            jobs@.lemma_flat_map_take_append(job_hits(ns@), i as int);
        }
        i += 1;
    }
    assert(jobs@.take(jobs.len() as int) =~= jobs@);
    hits
}

/// The hits in one namespace: pods, stateful sets, deployments, jobs.
pub open spec fn namespace_hits(ns: Seq<char>, workloads: Workloads) -> Seq<BitnamiHitView> {
    workloads.pods@.flat_map(pod_hits(ns)) + workloads.stateful_sets@.flat_map(set_hits(ns))
        + workloads.deployments@.flat_map(deployment_hits(ns)) + workloads.jobs@.flat_map(
        job_hits(ns),
    )
}

/// Every container of the given workloads that runs a Bitnami image.
fn bitnami_images_in_workloads(ns: &str, workloads: &Workloads) -> (hits: Vec<BitnamiHit>)
    ensures
        hits.deep_view() == namespace_hits(ns@, *workloads),
{
    let mut hits = bitnami_images_in_pods(ns, &workloads.pods);
    let ghost first = hits.deep_view();
    let mut in_sets = bitnami_images_in_stateful_sets(ns, &workloads.stateful_sets);
    let ghost second = in_sets.deep_view();
    hits.append(&mut in_sets);
    assert(hits.deep_view() =~= first + second);
    let mut in_deployments = bitnami_images_in_deployments(ns, &workloads.deployments);
    let ghost third = in_deployments.deep_view();
    hits.append(&mut in_deployments);
    assert(hits.deep_view() =~= first + second + third);
    let mut in_jobs = bitnami_images_in_jobs(ns, &workloads.jobs);
    let ghost fourth = in_jobs.deep_view();
    hits.append(&mut in_jobs);
    assert(hits.deep_view() =~= first + second + third + fourth);
    hits
}

/// The hits in one namespace, or the error that its workloads could not be
/// listed for.
pub open spec fn namespace_outcome(
    ns: Seq<char>,
    workloads: Result<Workloads, LornError>,
) -> Result<Seq<BitnamiHitView>, LornError> {
    match workloads {
        Ok(workloads) => Ok(namespace_hits(ns, workloads)),
        Err(error) => Err(error),
    }
}

/// Every container in one namespace that runs a Bitnami image.
pub fn find_bitnami_images_in_ns(ns: &str, workloads: Result<Workloads, LornError>) -> (hits:
    Result<Vec<BitnamiHit>, LornError>)
    ensures
        viewed(hits) == namespace_outcome(ns@, workloads),
{
    match workloads {
        Ok(workloads) => Ok(bitnami_images_in_workloads(ns, &workloads)),
        Err(error) => Err(error),
    }
}

/// The outcomes of namespaces, each given with its name.
pub open spec fn namespace_outcomes(
    namespaces: Seq<(String, Result<Workloads, LornError>)>,
) -> Seq<Result<Seq<BitnamiHitView>, LornError>> {
    namespaces.map_values(
        |namespace: (String, Result<Workloads, LornError>)|
            namespace_outcome(namespace.0@, namespace.1),
    )
}

/// The hits of all namespaces, namespace by namespace; one that fails fails
/// the whole.
pub open spec fn images_outcome(namespaces: Seq<(String, Result<Workloads, LornError>)>) -> Result<
    Seq<BitnamiHitView>,
    LornError,
> {
    joined(namespace_outcomes(namespaces))
}

/// Every container that runs a Bitnami image, namespace by namespace, where
/// the workloads of all namespaces could be listed.
pub fn find_bitnami_images(namespaces: Vec<(String, Result<Workloads, LornError>)>) -> (hits:
    Result<Vec<BitnamiHit>, LornError>)
    ensures
        viewed(hits) == images_outcome(namespaces@),
{
    let ghost all = namespace_outcomes(namespaces@);
    let mut outcomes: Vec<Result<Vec<BitnamiHit>, LornError>> = Vec::new();
    for namespace in it: namespaces
        invariant
            it.seq() == namespaces@,
            all == namespace_outcomes(namespaces@),
            outcomes.len() == it.index(),
            forall|j: int| 0 <= j < it.index() ==> viewed(#[trigger] outcomes@[j]) == all[j],
    {
        let (ns, workloads) = namespace;
        outcomes.push(find_bitnami_images_in_ns(ns.as_str(), workloads));
    }
    assert(outcomes@.map_values(
        |outcome: Result<Vec<BitnamiHit>, LornError>| viewed(outcome),
    ) =~= all);
    join(outcomes)
}

/// No namespaces give no hits, one namespace gives its own outcome, and two
/// lists of namespaces give what each of them gives, one behind the other, or
/// a failure where either fails. So a namespace that is listed twice is
/// reported twice.
pub proof fn law_images_joined(
    left: Seq<(String, Result<Workloads, LornError>)>,
    right: Seq<(String, Result<Workloads, LornError>)>,
    one: (String, Result<Workloads, LornError>),
)
    ensures
        images_outcome(Seq::empty()) == Ok::<Seq<BitnamiHitView>, LornError>(Seq::empty()),
        images_outcome(seq![one]) == namespace_outcome(one.0@, one.1),
        images_outcome(left + right) == both(images_outcome(left), images_outcome(right)),
{
    law_joined(
        namespace_outcomes(left),
        namespace_outcomes(right),
        namespace_outcome(one.0@, one.1),
    );
    assert(namespace_outcomes(Seq::empty()) =~= Seq::empty());
    assert(namespace_outcomes(seq![one]) =~= seq![namespace_outcome(one.0@, one.1)]);
    assert(namespace_outcomes(left + right) =~= namespace_outcomes(left) + namespace_outcomes(
        right,
    ));
}

/// The hits come out exactly where the workloads of every namespace could be
/// listed; otherwise the error is that of a namespace.
pub proof fn law_images_all_or_nothing(namespaces: Seq<(String, Result<Workloads, LornError>)>)
    ensures
        images_outcome(namespaces) is Ok <==> forall|i: int|
            0 <= i < namespaces.len() ==> (#[trigger] namespaces[i]).1 is Ok,
        images_outcome(namespaces) matches Err(error) ==> exists|i: int|
            0 <= i < namespaces.len() && (#[trigger] namespaces[i]).1 == Err::<
                Workloads,
                LornError,
            >(error),
{
    let outcomes = namespace_outcomes(namespaces);
    law_all_or_nothing(outcomes);
    if images_outcome(namespaces) is Ok {
        assert forall|i: int| 0 <= i < namespaces.len() implies (
        #[trigger] namespaces[i]).1 is Ok by {
            assert(outcomes[i] is Ok);
        }
    } else {
        let error = images_outcome(namespaces)->Err_0;
        let i = choose|i: int|
            0 <= i < outcomes.len() && #[trigger] outcomes[i] == Err::<
                Seq<BitnamiHitView>,
                LornError,
            >(error);
        assert(namespaces[i].1 == Err::<Workloads, LornError>(error));
    }
}

/// Whether a container of the list, at the place that `path` names, runs the
/// Bitnami image `image`.
pub open spec fn listed_at(
    containers: Seq<Container>,
    list: Seq<char>,
    path: Seq<char>,
    image: Seq<char>,
) -> bool {
    exists|i: int|
        0 <= i < containers.len() && image_hit(#[trigger] containers[i], list, i as nat) == Some(
            (path, image),
        )
}

/// Whether a container of a pod, at the place that `path` names, runs the
/// Bitnami image `image`.
pub open spec fn runs_bitnami(spec: PodSpec, path: Seq<char>, image: Seq<char>) -> bool {
    listed_at(spec.containers@, "spec.containers"@, path, image) || listed_at(
        listed(spec.init_containers),
        "spec.initContainers"@,
        path,
        image,
    )
}

/// The hits of a list are its containers that run Bitnami images.
proof fn lemma_list_hits(
    containers: Seq<Container>,
    list: Seq<char>,
    path: Seq<char>,
    image: Seq<char>,
)
    ensures
        list_hits(containers, list).contains((path, image)) <==> listed_at(
            containers,
            list,
            path,
            image,
        ),
    decreases containers.len(),
{
    if containers.len() > 0 {
        let rest = containers.drop_last();
        let at = containers.len() - 1;
        lemma_list_hits(rest, list, path, image);
        assert(containers[at] == containers.last());
        if let Some(hit) = image_hit(containers.last(), list, at as nat) {
            let before = list_hits(rest, list);
            assert(before.push(hit) =~= before + seq![hit]);
            lemma_concat_contains(before, seq![hit], (path, image));
            assert(seq![hit][0] == hit);
        }
        if listed_at(rest, list, path, image) {
            let i = choose|i: int|
                0 <= i < rest.len() && image_hit(#[trigger] rest[i], list, i as nat) == Some(
                    (path, image),
                );
            assert(containers[i] == rest[i]);
        }
        if listed_at(containers, list, path, image) {
            let i = choose|i: int|
                0 <= i < containers.len() && image_hit(#[trigger] containers[i], list, i as nat)
                    == Some((path, image));
            if i < rest.len() {
                assert(rest[i] == containers[i]);
            }
        }
    }
}

/// The hits of a pod are exactly its containers that run Bitnami images, each
/// with the place where it stands.
pub proof fn law_pod_spec_hits(spec: PodSpec, path: Seq<char>, image: Seq<char>)
    ensures
        pod_spec_hits(spec).contains((path, image)) <==> runs_bitnami(spec, path, image),
        runs_bitnami(spec, path, image) ==> from_bitnami(image),
{
    lemma_list_hits(spec.containers@, "spec.containers"@, path, image);
    lemma_list_hits(listed(spec.init_containers), "spec.initContainers"@, path, image);
    lemma_concat_contains(
        list_hits(spec.containers@, "spec.containers"@),
        list_hits(listed(spec.init_containers), "spec.initContainers"@),
        (path, image),
    );
}

/// Whether `hit` is a container of the given resource that runs a Bitnami
/// image.
pub open spec fn is_hit_of(
    kind: Seq<char>,
    ns: Seq<char>,
    metadata: ObjectMeta,
    spec: Option<PodSpec>,
    hit: BitnamiHitView,
) -> bool {
    &&& spec matches Some(spec)
    &&& hit.kind == kind
    &&& hit.name == resource_name(ns, metadata)
    &&& runs_bitnami(spec, hit.container_path, hit.image)
}

/// The hits of a resource are exactly its containers that run Bitnami images.
proof fn lemma_resource_hits(
    kind: Seq<char>,
    ns: Seq<char>,
    metadata: ObjectMeta,
    spec: Option<PodSpec>,
    hit: BitnamiHitView,
)
    ensures
        resource_hits(kind, ns, metadata, spec).contains(hit) <==> is_hit_of(
            kind,
            ns,
            metadata,
            spec,
            hit,
        ),
{
    if let Some(pod_spec) = spec {
        let pairs = pod_spec_hits(pod_spec);
        let hits = resource_hits(kind, ns, metadata, spec);
        law_pod_spec_hits(pod_spec, hit.container_path, hit.image);
        if hits.contains(hit) {
            let i = choose|i: int| 0 <= i < hits.len() && hits[i] == hit;
            assert(pairs[i] == (hit.container_path, hit.image));
            assert(pairs.contains(pairs[i]));
        }
        if is_hit_of(kind, ns, metadata, spec, hit) {
            let i = choose|i: int|
                0 <= i < pairs.len() && pairs[i] == (hit.container_path, hit.image);
            assert(hits[i] == hit);
        }
    }
}

/// The hits of a namespace are exactly the containers of its pods, stateful
/// sets, deployments and jobs that run Bitnami images.
pub proof fn law_namespace_hits(ns: Seq<char>, workloads: Workloads, hit: BitnamiHitView)
    ensures
        namespace_hits(ns, workloads).contains(hit) <==> {
            ||| exists|i: int|
                0 <= i < workloads.pods@.len() && is_hit_of(
                    "pod"@,
                    ns,
                    (#[trigger] workloads.pods@[i]).metadata,
                    workloads.pods@[i].spec,
                    hit,
                )
            ||| exists|i: int|
                0 <= i < workloads.stateful_sets@.len() && is_hit_of(
                    "statefulset"@,
                    ns,
                    (#[trigger] workloads.stateful_sets@[i]).metadata,
                    set_pod_spec(workloads.stateful_sets@[i]),
                    hit,
                )
            ||| exists|i: int|
                0 <= i < workloads.deployments@.len() && is_hit_of(
                    "deployment"@,
                    ns,
                    (#[trigger] workloads.deployments@[i]).metadata,
                    deployment_pod_spec(workloads.deployments@[i]),
                    hit,
                )
            ||| exists|i: int|
                0 <= i < workloads.jobs@.len() && is_hit_of(
                    "job"@,
                    ns,
                    (#[trigger] workloads.jobs@[i]).metadata,
                    job_pod_spec(workloads.jobs@[i]),
                    hit,
                )
        },
{
    let pods = workloads.pods@.flat_map(pod_hits(ns));
    let sets = workloads.stateful_sets@.flat_map(set_hits(ns));
    let deployments = workloads.deployments@.flat_map(deployment_hits(ns));
    let jobs = workloads.jobs@.flat_map(job_hits(ns));
    lemma_concat_contains(pods, sets, hit);
    lemma_concat_contains(pods + sets, deployments, hit);
    lemma_concat_contains(pods + sets + deployments, jobs, hit);
    lemma_flat_map_contains(workloads.pods@, pod_hits(ns), hit);
    lemma_flat_map_contains(workloads.stateful_sets@, set_hits(ns), hit);
    lemma_flat_map_contains(workloads.deployments@, deployment_hits(ns), hit);
    lemma_flat_map_contains(workloads.jobs@, job_hits(ns), hit);
    assert forall|i: int| 0 <= i < workloads.pods@.len() implies pod_hits(ns)(
        #[trigger] workloads.pods@[i],
    ).contains(hit) == is_hit_of(
        "pod"@,
        ns,
        workloads.pods@[i].metadata,
        workloads.pods@[i].spec,
        hit,
    ) by {
        let pod = workloads.pods@[i];
        lemma_resource_hits("pod"@, ns, pod.metadata, pod.spec, hit);
    }
    assert forall|i: int| 0 <= i < workloads.stateful_sets@.len() implies set_hits(ns)(
        #[trigger] workloads.stateful_sets@[i],
    ).contains(hit) == is_hit_of(
        "statefulset"@,
        ns,
        workloads.stateful_sets@[i].metadata,
        set_pod_spec(workloads.stateful_sets@[i]),
        hit,
    ) by {
        let set = workloads.stateful_sets@[i];
        lemma_resource_hits("statefulset"@, ns, set.metadata, set_pod_spec(set), hit);
    }
    assert forall|i: int| 0 <= i < workloads.deployments@.len() implies deployment_hits(ns)(
        #[trigger] workloads.deployments@[i],
    ).contains(hit) == is_hit_of(
        "deployment"@,
        ns,
        workloads.deployments@[i].metadata,
        deployment_pod_spec(workloads.deployments@[i]),
        hit,
    ) by {
        let deployment = workloads.deployments@[i];
        lemma_resource_hits(
            "deployment"@,
            ns,
            deployment.metadata,
            deployment_pod_spec(deployment),
            hit,
        );
    }
    assert forall|i: int| 0 <= i < workloads.jobs@.len() implies job_hits(ns)(
        #[trigger] workloads.jobs@[i],
    ).contains(hit) == is_hit_of(
        "job"@,
        ns,
        workloads.jobs@[i].metadata,
        job_pod_spec(workloads.jobs@[i]),
        hit,
    ) by {
        let job = workloads.jobs@[i];
        lemma_resource_hits("job"@, ns, job.metadata, job_pod_spec(job), hit);
    }
}

/// An image is a Bitnami image exactly where, behind `docker.io/` or without
/// it, its first segment is `bitnami` and a slash ends that segment.
pub proof fn law_bitnami_segment(image: Seq<char>)
    ensures
        from_bitnami(image) <==> {
            ||| image.len() >= 8 && image.take(8) == seq!['b', 'i', 't', 'n', 'a', 'm', 'i', '/']
            ||| image.len() >= 18 && image.take(10) == seq![
                'd',
                'o',
                'c',
                'k',
                'e',
                'r',
                '.',
                'i',
                'o',
                '/',
            ] && image.subrange(10, 18) == seq!['b', 'i', 't', 'n', 'a', 'm', 'i', '/']
        },
{
    reveal_strlit("docker.io/bitnami/");
    reveal_strlit("bitnami/");
    let registry = seq!['d', 'o', 'c', 'k', 'e', 'r', '.', 'i', 'o', '/'];
    let catalogue = seq!['b', 'i', 't', 'n', 'a', 'm', 'i', '/'];
    assert("bitnami/"@ =~= catalogue);
    assert("docker.io/bitnami/"@ =~= registry + catalogue);
    if image.len() >= 8 {
        assert(image.take(8) =~= image.subrange(0, 8));
    }
    if image.len() >= 18 {
        assert(image.subrange(0, 18) =~= image.take(10) + image.subrange(10, 18));
        assert((registry + catalogue).take(10) =~= registry);
        assert((registry + catalogue).subrange(10, 18) =~= catalogue);
        assert(image.subrange(0, 18).take(10) =~= image.take(10));
        assert(image.subrange(0, 18).subrange(10, 18) =~= image.subrange(10, 18));
    }
}

/// The default registry makes no difference: an image that does not name it and
/// the same image with `docker.io/` in front are both Bitnami images or neither.
pub proof fn law_default_registry(image: Seq<char>)
    requires
        !"docker.io/"@.is_prefix_of(image),
    ensures
        from_bitnami("docker.io/"@ + image) == from_bitnami(image),
{
    reveal_strlit("docker.io/");
    let registry = seq!['d', 'o', 'c', 'k', 'e', 'r', '.', 'i', 'o', '/'];
    assert("docker.io/"@ =~= registry);
    let longer = registry + image;
    law_bitnami_segment(image);
    law_bitnami_segment(longer);
    assert(longer.take(10) =~= registry);
    if image.len() >= 10 {
        assert(image.take(10) =~= image.subrange(0, 10));
    }
    if image.len() >= 8 {
        assert(longer.subrange(10, 18) =~= image.take(8));
        assert(longer.take(8)[0] == 'd');
    } else if longer.len() >= 8 {
        assert(longer.take(8)[0] == longer[0]);
        assert(longer[0] == 'd');
    }
}

/// A pod without containers has no hits, whether it lists init containers or
/// not.
pub proof fn law_no_containers_no_hits(spec: PodSpec)
    requires
        spec.containers@.len() == 0,
        spec.init_containers matches Some(init) ==> init@.len() == 0,
    ensures
        pod_spec_hits(spec).len() == 0,
{
}

/// One more regular container adds a hit behind those of the containers before
/// it exactly where it runs a Bitnami image, under its place in the list.
pub proof fn law_regular_container(shorter: PodSpec, longer: PodSpec, container: Container)
    requires
        longer.containers@ == shorter.containers@.push(container),
        shorter.init_containers is None,
        longer.init_containers is None,
    ensures
        pod_spec_hits(longer) == pod_spec_hits(shorter) + match container.image {
            Some(image) => if from_bitnami(image@) {
                seq![("spec.containers["@ + decimal(shorter.containers@.len()) + "]"@, image@)]
            } else {
                Seq::empty()
            },
            None => Seq::empty(),
        },
{
    reveal_strlit("spec.containers");
    reveal_strlit("spec.containers[");
    reveal_strlit("[");
    assert("spec.containers["@ =~= "spec.containers"@ + "["@);
    assert(longer.containers@.drop_last() =~= shorter.containers@);
    assert(pod_spec_hits(longer) =~= pod_spec_hits(shorter) + match image_hit(
        container,
        "spec.containers"@,
        shorter.containers@.len(),
    ) {
        Some(hit) => seq![hit],
        None => Seq::empty(),
    });
}

/// One more init container adds a hit behind all others exactly where it runs a
/// Bitnami image, under its place in the list of init containers.
pub proof fn law_init_container(shorter: PodSpec, longer: PodSpec, container: Container)
    requires
        longer.containers@ == shorter.containers@,
        longer.init_containers is Some,
        longer.init_containers->0@ == (match shorter.init_containers {
            Some(init) => init@,
            None => Seq::empty(),
        }).push(container),
    ensures
        pod_spec_hits(longer) == pod_spec_hits(shorter) + match container.image {
            Some(image) => if from_bitnami(image@) {
                seq![
                    (
                        "spec.initContainers["@ + decimal(
                            (longer.init_containers->0@.len() - 1) as nat,
                        ) + "]"@,
                        image@,
                    ),
                ]
            } else {
                Seq::empty()
            },
            None => Seq::empty(),
        },
{
    reveal_strlit("spec.initContainers");
    reveal_strlit("spec.initContainers[");
    reveal_strlit("[");
    assert("spec.initContainers["@ =~= "spec.initContainers"@ + "["@);
    let before = match shorter.init_containers {
        Some(init) => init@,
        None => Seq::empty(),
    };
    assert(longer.init_containers->0@.drop_last() =~= before);
    assert(pod_spec_hits(longer) =~= pod_spec_hits(shorter) + match image_hit(
        container,
        "spec.initContainers"@,
        before.len(),
    ) {
        Some(hit) => seq![hit],
        None => Seq::empty(),
    });
}

/// Where there are no workloads of a kind the kind has no hits.
proof fn lemma_absent_kinds(ns: Seq<char>, workloads: Workloads)
    ensures
        workloads.pods@.len() == 0 ==> workloads.pods@.flat_map(pod_hits(ns)) == Seq::<
            BitnamiHitView,
        >::empty(),
        workloads.stateful_sets@.len() == 0 ==> workloads.stateful_sets@.flat_map(set_hits(ns))
            == Seq::<BitnamiHitView>::empty(),
        workloads.deployments@.len() == 0 ==> workloads.deployments@.flat_map(deployment_hits(ns))
            == Seq::<BitnamiHitView>::empty(),
        workloads.jobs@.len() == 0 ==> workloads.jobs@.flat_map(job_hits(ns)) == Seq::<
            BitnamiHitView,
        >::empty(),
{
}

/// One more pod adds its hits behind those of the pods before it, each with the
/// kind and the name of the pod.
pub proof fn law_one_more_pod(
    ns: Seq<char>,
    shorter: Workloads,
    longer: Workloads,
    pod: Pod,
)
    requires
        longer.pods@ == shorter.pods@.push(pod),
        shorter.stateful_sets@.len() == 0,
        longer.stateful_sets@.len() == 0,
        shorter.deployments@.len() == 0,
        longer.deployments@.len() == 0,
        shorter.jobs@.len() == 0,
        longer.jobs@.len() == 0,
    ensures
        namespace_hits(ns, longer) == namespace_hits(ns, shorter) + match pod.spec {
            Some(spec) => pod_spec_hits(spec).map_values(
                |hit: (Seq<char>, Seq<char>)|
                    (BitnamiHitView {
                        kind: "pod"@,
                        name: ns + "/"@ + match pod.metadata.name {
                            Some(name) => name@,
                            None => "<unnamed>"@,
                        },
                        container_path: hit.0,
                        image: hit.1,
                    }),
            ),
            None => Seq::empty(),
        },
{
    lemma_absent_kinds(ns, shorter);
    lemma_absent_kinds(ns, longer);
    shorter.pods@.lemma_flat_map_push(pod_hits(ns), pod);
    let added = pod_hits(ns)(pod);
    assert(namespace_hits(ns, longer) =~= namespace_hits(ns, shorter) + added);
    assert(added =~= match pod.spec {
        Some(spec) => pod_spec_hits(spec).map_values(
            |hit: (Seq<char>, Seq<char>)|
                (BitnamiHitView {
                    kind: "pod"@,
                    name: ns + "/"@ + match pod.metadata.name {
                        Some(name) => name@,
                        None => "<unnamed>"@,
                    },
                    container_path: hit.0,
                    image: hit.1,
                }),
        ),
        None => Seq::empty(),
    });
}

/// One more stateful set adds the hits of its template behind those of the sets
/// before it, each with the kind and the name of the set.
pub proof fn law_one_more_stateful_set(
    ns: Seq<char>,
    shorter: Workloads,
    longer: Workloads,
    set: StatefulSet,
)
    requires
        longer.stateful_sets@ == shorter.stateful_sets@.push(set),
        shorter.pods@.len() == 0,
        longer.pods@.len() == 0,
        shorter.deployments@.len() == 0,
        longer.deployments@.len() == 0,
        shorter.jobs@.len() == 0,
        longer.jobs@.len() == 0,
    ensures
        namespace_hits(ns, longer) == namespace_hits(ns, shorter) + match (match set.spec {
            Some(spec) => spec.template.spec,
            None => None,
        }) {
            Some(spec) => pod_spec_hits(spec).map_values(
                |hit: (Seq<char>, Seq<char>)|
                    (BitnamiHitView {
                        kind: "statefulset"@,
                        name: ns + "/"@ + match set.metadata.name {
                            Some(name) => name@,
                            None => "<unnamed>"@,
                        },
                        container_path: hit.0,
                        image: hit.1,
                    }),
            ),
            None => Seq::empty(),
        },
{
    lemma_absent_kinds(ns, shorter);
    lemma_absent_kinds(ns, longer);
    shorter.stateful_sets@.lemma_flat_map_push(set_hits(ns), set);
    let added = set_hits(ns)(set);
    assert(namespace_hits(ns, longer) =~= namespace_hits(ns, shorter) + added);
    assert(added =~= match (match set.spec {
            Some(spec) => spec.template.spec,
            None => None,
        }) {
        Some(spec) => pod_spec_hits(spec).map_values(
            |hit: (Seq<char>, Seq<char>)|
                (BitnamiHitView {
                    kind: "statefulset"@,
                    name: ns + "/"@ + match set.metadata.name {
                        Some(name) => name@,
                        None => "<unnamed>"@,
                    },
                    container_path: hit.0,
                    image: hit.1,
                }),
        ),
        None => Seq::empty(),
    });
}

/// One more deployment adds the hits of its template behind those of the
/// deployments before it, each with the kind and the name of the deployment.
pub proof fn law_one_more_deployment(
    ns: Seq<char>,
    shorter: Workloads,
    longer: Workloads,
    deployment: Deployment,
)
    requires
        longer.deployments@ == shorter.deployments@.push(deployment),
        shorter.pods@.len() == 0,
        longer.pods@.len() == 0,
        shorter.stateful_sets@.len() == 0,
        longer.stateful_sets@.len() == 0,
        shorter.jobs@.len() == 0,
        longer.jobs@.len() == 0,
    ensures
        namespace_hits(ns, longer) == namespace_hits(ns, shorter) + match (match deployment.spec {
            Some(spec) => spec.template.spec,
            None => None,
        }) {
            Some(spec) => pod_spec_hits(spec).map_values(
                |hit: (Seq<char>, Seq<char>)|
                    (BitnamiHitView {
                        kind: "deployment"@,
                        name: ns + "/"@ + match deployment.metadata.name {
                            Some(name) => name@,
                            None => "<unnamed>"@,
                        },
                        container_path: hit.0,
                        image: hit.1,
                    }),
            ),
            None => Seq::empty(),
        },
{
    lemma_absent_kinds(ns, shorter);
    lemma_absent_kinds(ns, longer);
    shorter.deployments@.lemma_flat_map_push(deployment_hits(ns), deployment);
    let added = deployment_hits(ns)(deployment);
    assert(namespace_hits(ns, longer) =~= namespace_hits(ns, shorter) + added);
    assert(added =~= match (match deployment.spec {
            Some(spec) => spec.template.spec,
            None => None,
        }) {
        Some(spec) => pod_spec_hits(spec).map_values(
            |hit: (Seq<char>, Seq<char>)|
                (BitnamiHitView {
                    kind: "deployment"@,
                    name: ns + "/"@ + match deployment.metadata.name {
                        Some(name) => name@,
                        None => "<unnamed>"@,
                    },
                    container_path: hit.0,
                    image: hit.1,
                }),
        ),
        None => Seq::empty(),
    });
}

/// One more job adds the hits of its template behind those of the jobs before
/// it, each with the kind and the name of the job.
pub proof fn law_one_more_job(
    ns: Seq<char>,
    shorter: Workloads,
    longer: Workloads,
    job: Job,
)
    requires
        longer.jobs@ == shorter.jobs@.push(job),
        shorter.pods@.len() == 0,
        longer.pods@.len() == 0,
        shorter.stateful_sets@.len() == 0,
        longer.stateful_sets@.len() == 0,
        shorter.deployments@.len() == 0,
        longer.deployments@.len() == 0,
    ensures
        namespace_hits(ns, longer) == namespace_hits(ns, shorter) + match (match job.spec {
            Some(spec) => spec.template.spec,
            None => None,
        }) {
            Some(spec) => pod_spec_hits(spec).map_values(
                |hit: (Seq<char>, Seq<char>)|
                    (BitnamiHitView {
                        kind: "job"@,
                        name: ns + "/"@ + match job.metadata.name {
                            Some(name) => name@,
                            None => "<unnamed>"@,
                        },
                        container_path: hit.0,
                        image: hit.1,
                    }),
            ),
            None => Seq::empty(),
        },
{
    lemma_absent_kinds(ns, shorter);
    lemma_absent_kinds(ns, longer);
    shorter.jobs@.lemma_flat_map_push(job_hits(ns), job);
    let added = job_hits(ns)(job);
    assert(namespace_hits(ns, longer) =~= namespace_hits(ns, shorter) + added);
    assert(added =~= match (match job.spec {
            Some(spec) => spec.template.spec,
            None => None,
        }) {
        Some(spec) => pod_spec_hits(spec).map_values(
            |hit: (Seq<char>, Seq<char>)|
                (BitnamiHitView {
                    kind: "job"@,
                    name: ns + "/"@ + match job.metadata.name {
                        Some(name) => name@,
                        None => "<unnamed>"@,
                    },
                    container_path: hit.0,
                    image: hit.1,
                }),
        ),
        None => Seq::empty(),
    });
}

/// The hits of a namespace are those of its pods, of its stateful sets, of its
/// deployments and of its jobs, in this order, each kind taken by itself, and a
/// namespace without workloads has none.
pub proof fn law_kinds_in_turn(
    ns: Seq<char>,
    workloads: Workloads,
    pods: Workloads,
    sets: Workloads,
    deployments: Workloads,
    jobs: Workloads,
)
    requires
        pods.pods@ == workloads.pods@,
        pods.stateful_sets@.len() + pods.deployments@.len() + pods.jobs@.len() == 0,
        sets.stateful_sets@ == workloads.stateful_sets@,
        sets.pods@.len() + sets.deployments@.len() + sets.jobs@.len() == 0,
        deployments.deployments@ == workloads.deployments@,
        deployments.pods@.len() + deployments.stateful_sets@.len() + deployments.jobs@.len() == 0,
        jobs.jobs@ == workloads.jobs@,
        jobs.pods@.len() + jobs.stateful_sets@.len() + jobs.deployments@.len() == 0,
    ensures
        namespace_hits(ns, workloads) == namespace_hits(ns, pods) + namespace_hits(ns, sets)
            + namespace_hits(ns, deployments) + namespace_hits(ns, jobs),
        workloads.pods@.len() + workloads.stateful_sets@.len() + workloads.deployments@.len()
            + workloads.jobs@.len() == 0 ==> namespace_hits(ns, workloads).len() == 0,
{
    lemma_absent_kinds(ns, pods);
    lemma_absent_kinds(ns, sets);
    lemma_absent_kinds(ns, deployments);
    lemma_absent_kinds(ns, jobs);
    lemma_absent_kinds(ns, workloads);
    assert(namespace_hits(ns, workloads) =~= namespace_hits(ns, pods) + namespace_hits(ns, sets)
        + namespace_hits(ns, deployments) + namespace_hits(ns, jobs));
}

/// The hits of a namespace whose workloads are known come out as they are; a
/// namespace whose workloads are not known fails with its own error. Behind
/// namespaces that succeeded one more namespace adds its hits, or fails the
/// whole; behind one that failed nothing changes.
pub proof fn law_images_in_turn(
    namespaces: Seq<(String, Result<Workloads, LornError>)>,
    ns: String,
    workloads: Workloads,
    error: LornError,
    one: (String, Result<Workloads, LornError>),
)
    ensures
        namespace_outcome(ns@, Ok(workloads)) == Ok::<Seq<BitnamiHitView>, LornError>(
            namespace_hits(ns@, workloads),
        ),
        namespace_outcome(ns@, Err(error)) == Err::<Seq<BitnamiHitView>, LornError>(error),
        images_outcome(namespaces) matches Ok(before) ==> {
            &&& images_outcome(namespaces.push((ns, Ok(workloads)))) == Ok::<
                Seq<BitnamiHitView>,
                LornError,
            >(before + namespace_hits(ns@, workloads))
            &&& images_outcome(namespaces.push((ns, Err(error)))) == Err::<
                Seq<BitnamiHitView>,
                LornError,
            >(error)
        },
        images_outcome(namespaces) matches Err(earlier) ==> images_outcome(namespaces.push(one))
            == Err::<Seq<BitnamiHitView>, LornError>(earlier),
        images_outcome(Seq::empty()) == Ok::<Seq<BitnamiHitView>, LornError>(Seq::empty()),
{
    let good: (String, Result<Workloads, LornError>) = (ns, Ok(workloads));
    let bad: (String, Result<Workloads, LornError>) = (ns, Err(error));
    assert(namespaces.push(good) =~= namespaces + seq![good]);
    assert(namespaces.push(bad) =~= namespaces + seq![bad]);
    assert(namespaces.push(one) =~= namespaces + seq![one]);
    law_images_joined(namespaces, seq![good], good);
    law_images_joined(namespaces, seq![bad], bad);
    law_images_joined(namespaces, seq![one], one);
}

/// A hit is seen in contracts with the fields that it has.
pub proof fn law_hit_fields(hit: BitnamiHit)
    ensures
        hit.deep_view().kind == hit.kind@,
        hit.deep_view().name == hit.name@,
        hit.deep_view().container_path == hit.container_path@,
        hit.deep_view().image == hit.image@,
{
}


} // verus!
