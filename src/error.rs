//! The errors of a reconciliation, by coarse category.
use vstd::prelude::*;

verus! {

/// Why a reconciliation failed. Each variant carries a description.
#[derive(Debug)]
pub enum Error {
    /// The Kubernetes API failed.
    Kube(String),
    /// The cloud API rejected the call, or the input or its answer was bad.
    CloudApi(String),
    /// The configuration is wrong.
    Config(String),
    /// An HTTP transport failure.
    Reqwest(String),
    /// Credentials could not be had.
    Gcp(String),
}

/// The metric label of each category.
pub open spec fn metric_label_spec(e: Error) -> Seq<char> {
    match e {
        Error::Kube(_) => "kube"@,
        Error::CloudApi(_) => "cloud_api"@,
        Error::Config(_) => "config"@,
        Error::Gcp(_) => "gcp"@,
        Error::Reqwest(_) => "http"@,
    }
}

impl Error {
    /// A label for metrics: one fixed word per category, never the
    /// description.
    pub fn metric_label(&self) -> (r: &'static str)
        ensures
            r@ == metric_label_spec(*self),
    {
        match self {
            Error::Kube(_) => "kube",
            Error::CloudApi(_) => "cloud_api",
            Error::Config(_) => "config",
            Error::Gcp(_) => "gcp",
            Error::Reqwest(_) => "http",
        }
    }

    /// The description.
    pub fn message(&self) -> (r: &String)
        ensures
            r == match self {
                Error::Kube(m) => m,
                Error::CloudApi(m) => m,
                Error::Config(m) => m,
                Error::Gcp(m) => m,
                Error::Reqwest(m) => m,
            },
    {
        match self {
            Error::Kube(m) => m,
            Error::CloudApi(m) => m,
            Error::Config(m) => m,
            Error::Gcp(m) => m,
            Error::Reqwest(m) => m,
        }
    }
}

} // verus!
