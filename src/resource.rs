//! A cloud resource resolved from a Kubernetes object, and the providers.
use vstd::prelude::*;
use crate::labels::Labels;
use crate::text::concat;

verus! {

/// Supported cloud providers.
#[derive(Debug, Clone, Copy, PartialEq, Eq, Structural)]
pub enum CloudProvider {
    /// For testing: every call to the cloud succeeds.
    Mock,
    Gcp,
}

/// A resolved cloud resource ready for tagging: the cloud-side sibling of a
/// Kubernetes object.
#[derive(Debug)]
pub struct CloudResource {
    /// The cloud provider that owns the resource.
    pub provider: CloudProvider,
    /// The provider's identifier of the resource.
    pub resource_id: String,
    /// The labels to propagate to it.
    pub labels: Labels,
}

/// The uppercase of a string, as `str::to_uppercase` gives it.
pub uninterp spec fn upper_of(s: Seq<char>) -> Seq<char>;

/// Relies on `str::to_uppercase`: the uppercase of `s`.
#[verifier::external_body]
fn to_uppercase(s: &str) -> (r: String)
    ensures
        r@ == upper_of(s@),
{
    s.to_uppercase()
}

/// The provider that an uppercase name stands for.
pub open spec fn provider_of_upper(u: Seq<char>) -> Option<CloudProvider> {
    if u == "MOCK"@ {
        Some(CloudProvider::Mock)
    } else if u == "GCP"@ {
        Some(CloudProvider::Gcp)
    } else {
        None
    }
}

fn str_eq(a: &str, b: &str) -> (r: bool)
    ensures
        r == (a@ == b@),
{
    let x = crate::text::chars_of(a);
    let y = crate::text::chars_of(b);
    crate::labels::compare_keys(&x, &y) == 0
}

impl CloudProvider {
    /// The provider's display name.
    pub fn name(&self) -> (r: &'static str)
        ensures
            r@ == match self {
                CloudProvider::Mock => "Mock"@,
                CloudProvider::Gcp => "GCP"@,
            },
    {
        match self {
            CloudProvider::Mock => "Mock",
            CloudProvider::Gcp => "GCP",
        }
    }

    /// The provider named by `upper`, a name already in uppercase.
    pub fn from_uppercase_name(upper: &str) -> (r: Option<CloudProvider>)
        ensures
            r == provider_of_upper(upper@),
    {
        if str_eq(upper, "MOCK") {
            Some(CloudProvider::Mock)
        } else if str_eq(upper, "GCP") {
            Some(CloudProvider::Gcp)
        } else {
            None
        }
    }

    /// Parses a provider name, in any case: `mock` or `gcp`.
    pub fn parse_name(s: &str) -> (r: Result<CloudProvider, String>)
        ensures
            match provider_of_upper(upper_of(s@)) {
                Some(p) => r == Ok::<CloudProvider, String>(p),
                None => r is Err && r->Err_0@ == "invalid cloud provider: "@ + s@,
            },
    {
        let upper = to_uppercase(s);
        match CloudProvider::from_uppercase_name(upper.as_str()) {
            Some(p) => Ok(p),
            None => Err(concat("invalid cloud provider: ", s)),
        }
    }
}

impl std::str::FromStr for CloudProvider {
    type Err = String;

    fn from_str(s: &str) -> Result<CloudProvider, String> {
        CloudProvider::parse_name(s)
    }
}

} // verus!
