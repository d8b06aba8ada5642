//! Rules for auditing a Kubernetes cluster: claims that nothing uses, images of
//! the Bitnami catalogue, storage drivers without snapshots, and services that
//! send to ports which their pods may not bind. The rules work on plain values;
//! fetching the objects and probing the ports is left to the caller.

pub mod claims;
pub mod error;
pub mod images;
pub mod objects;
pub mod outcome;
pub mod privileges;
pub mod probes;
pub mod report;
pub mod retry;
pub mod search;
pub mod snapshots;
pub mod sorted;
pub mod string_map;
pub mod text;
