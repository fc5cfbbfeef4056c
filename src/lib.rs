//! Propagates the labels of Kubernetes storage claims onto the cloud disks
//! that back them.
pub mod config;
pub mod error;
pub mod gcp;
pub mod labels;
pub mod mock;
pub mod reconciler;
pub mod resource;
pub mod text;
pub mod version;
