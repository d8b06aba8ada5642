//! Kubernetes objects, each with the fields that the checks read.
use crate::string_map::StringMap;
use vstd::prelude::*;

verus! {

/// A reference from an object to an object that owns it.
#[derive(Debug)]
pub struct OwnerReference {
    pub kind: String,
    pub name: String,
    /// Set on the one owner that manages the object.
    pub controller: Option<bool>,
}

/// What every object carries.
#[derive(Debug)]
pub struct ObjectMeta {
    pub name: Option<String>,
    pub namespace: Option<String>,
    pub labels: Option<StringMap<String>>,
    pub owner_references: Option<Vec<OwnerReference>>,
}

/// The claim that a volume is backed by.
#[derive(Debug)]
pub struct PersistentVolumeClaimVolumeSource {
    pub claim_name: String,
}

/// A volume of a pod.
#[derive(Debug)]
pub struct Volume {
    pub persistent_volume_claim: Option<PersistentVolumeClaimVolumeSource>,
}

/// A port that a container declares.
#[derive(Debug)]
pub struct ContainerPort {
    pub container_port: i32,
    pub name: Option<String>,
}

/// Kernel capabilities that a container changes.
#[derive(Debug)]
pub struct Capabilities {
    pub add: Option<Vec<String>>,
}

/// The security settings of a container.
#[derive(Debug)]
pub struct SecurityContext {
    pub privileged: Option<bool>,
    pub capabilities: Option<Capabilities>,
    pub run_as_user: Option<i64>,
}

/// A kernel parameter that a pod sets.
#[derive(Debug)]
pub struct Sysctl {
    pub name: String,
    pub value: String,
}

/// The security settings that all containers of a pod share.
#[derive(Debug)]
pub struct PodSecurityContext {
    pub run_as_user: Option<i64>,
    pub sysctls: Option<Vec<Sysctl>>,
}

/// A container of a pod.
#[derive(Debug)]
pub struct Container {
    pub image: Option<String>,
    pub ports: Option<Vec<ContainerPort>>,
    pub security_context: Option<SecurityContext>,
}

/// What a pod runs.
#[derive(Debug)]
pub struct PodSpec {
    pub containers: Vec<Container>,
    pub init_containers: Option<Vec<Container>>,
    pub volumes: Option<Vec<Volume>>,
    pub security_context: Option<PodSecurityContext>,
}

/// A pod.
#[derive(Debug)]
pub struct Pod {
    pub metadata: ObjectMeta,
    pub spec: Option<PodSpec>,
}

/// What the pods of a workload are made from.
#[derive(Debug)]
pub struct PodTemplateSpec {
    pub spec: Option<PodSpec>,
}

/// What a persistent volume claim asks for.
#[derive(Debug)]
pub struct PersistentVolumeClaimSpec {
    pub volume_name: Option<String>,
}

/// A persistent volume claim.
#[derive(Debug)]
pub struct PersistentVolumeClaim {
    pub metadata: ObjectMeta,
    pub spec: Option<PersistentVolumeClaimSpec>,
}

/// What a stateful set runs.
#[derive(Debug)]
pub struct StatefulSetSpec {
    pub template: PodTemplateSpec,
    pub volume_claim_templates: Option<Vec<PersistentVolumeClaim>>,
}

/// A stateful set.
#[derive(Debug)]
pub struct StatefulSet {
    pub metadata: ObjectMeta,
    pub spec: Option<StatefulSetSpec>,
}

/// What a deployment runs.
#[derive(Debug)]
pub struct DeploymentSpec {
    pub template: PodTemplateSpec,
}

/// A deployment.
#[derive(Debug)]
pub struct Deployment {
    pub metadata: ObjectMeta,
    pub spec: Option<DeploymentSpec>,
}

/// What a job runs.
#[derive(Debug)]
pub struct JobSpec {
    pub template: PodTemplateSpec,
}

/// A job.
#[derive(Debug)]
pub struct Job {
    pub metadata: ObjectMeta,
    pub spec: Option<JobSpec>,
}

/// A replica set.
#[derive(Debug)]
pub struct ReplicaSet {
    pub metadata: ObjectMeta,
}

/// A namespace.
#[derive(Debug)]
pub struct Namespace {
    pub metadata: ObjectMeta,
}

/// The driver that serves a volume through the container storage interface.
#[derive(Debug)]
pub struct CsiPersistentVolumeSource {
    pub driver: String,
}

/// Where the storage of a persistent volume comes from.
#[derive(Debug)]
pub struct PersistentVolumeSpec {
    pub csi: Option<CsiPersistentVolumeSource>,
}

/// A persistent volume.
#[derive(Debug)]
pub struct PersistentVolume {
    pub metadata: ObjectMeta,
    pub spec: Option<PersistentVolumeSpec>,
}

/// A field of an object without a fixed schema.
#[derive(Debug)]
pub enum FieldValue {
    Text(String),
    Other,
}

/// The contents of an object without a fixed schema.
#[derive(Debug)]
pub enum DynamicData {
    Object(StringMap<FieldValue>),
    Other,
}

/// An object without a fixed schema.
#[derive(Debug)]
pub struct DynamicObject {
    pub data: DynamicData,
}

/// The port that a service sends to: a number, or the name of a container port.
#[derive(Debug)]
pub enum IntOrString {
    Int(i32),
    Name(String),
}

/// A port of a service.
#[derive(Debug)]
pub struct ServicePort {
    pub port: i32,
    pub target_port: Option<IntOrString>,
    pub protocol: Option<String>,
}

/// Which pods a service sends to, and on which ports.
#[derive(Debug)]
pub struct ServiceSpec {
    pub selector: Option<StringMap<String>>,
    pub ports: Option<Vec<ServicePort>>,
}

/// A service.
#[derive(Debug)]
pub struct Service {
    pub metadata: ObjectMeta,
    pub spec: Option<ServiceSpec>,
}

/// The workloads of one namespace.
#[derive(Debug)]
pub struct Workloads {
    pub pods: Vec<Pod>,
    pub stateful_sets: Vec<StatefulSet>,
    pub deployments: Vec<Deployment>,
    pub jobs: Vec<Job>,
}

/// The elements of a list that may be absent.
pub open spec fn listed<T>(list: Option<Vec<T>>) -> Seq<T> {
    match list {
        Some(items) => items@,
        None => Seq::empty(),
    }
}

/// A name, or what stands for it where there is none.
pub open spec fn name_or(name: Option<String>, other: Seq<char>) -> Seq<char> {
    match name {
        Some(name) => name@,
        None => other,
    }
}

/// A copy of a name, or of what stands for it where there is none.
pub fn copy_name_or(name: &Option<String>, other: &str) -> (copy: String)
    ensures
        copy@ == name_or(*name, other@),
{
    match name {
        Some(name) => name.clone(),
        None => other.to_owned(),
    }
}

/// All containers of a pod: the regular ones, before the init containers.
pub open spec fn all_containers(spec: PodSpec) -> Seq<Container> {
    spec.containers@ + listed(spec.init_containers)
}

/// The pod spec that a stateful set runs, if it has one.
pub open spec fn set_pod_spec(set: StatefulSet) -> Option<PodSpec> {
    match set.spec {
        Some(spec) => spec.template.spec,
        None => None,
    }
}

/// The pod spec that a deployment runs, if it has one.
pub open spec fn deployment_pod_spec(deployment: Deployment) -> Option<PodSpec> {
    match deployment.spec {
        Some(spec) => spec.template.spec,
        None => None,
    }
}

/// The pod spec that a job runs, if it has one.
pub open spec fn job_pod_spec(job: Job) -> Option<PodSpec> {
    match job.spec {
        Some(spec) => spec.template.spec,
        None => None,
    }
}

} // verus!
