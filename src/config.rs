//! The controller's configuration: requeue intervals and cloud provider,
//! and the parsing of their textual forms.
use vstd::prelude::*;
use crate::resource::{upper_of, provider_of_upper, CloudProvider};
use crate::text::{chars_of, concat, numeral, parse_u64, string_of};
use vstd::string::*;

verus! {

/// The requeue intervals, in seconds, and the cloud provider in use.
pub struct Config {
    /// After a resource was tagged.
    pub requeue_success: u64,
    /// After the resolver found nothing yet.
    pub requeue_not_ready: u64,
    /// After a failed pass.
    pub requeue_error: u64,
    pub cloud_provider: CloudProvider,
}

impl Default for Config {
    fn default() -> (r: Config)
        ensures
            r.requeue_success == 300,
            r.requeue_not_ready == 30,
            r.requeue_error == 60,
            r.cloud_provider == CloudProvider::Mock,
    {
        Config {
            requeue_success: 300,
            requeue_not_ready: 30,
            requeue_error: 60,
            cloud_provider: CloudProvider::Mock,
        }
    }
}

/// The seconds that a duration such as `5m` or `30s` stands for: a numeral
/// followed by `m` (minutes) or `s` (seconds).
pub open spec fn duration_secs(s: Seq<char>) -> Option<nat> {
    if s.len() > 0 && s.last() == 'm' {
        match numeral(s.drop_last()) {
            Some(n) => Some(n * 60),
            None => None,
        }
    } else if s.len() > 0 && s.last() == 's' {
        numeral(s.drop_last())
    } else {
        None
    }
}

/// Parses a duration such as `5m` or `30s` into seconds. A string that ends
/// in neither unit, a numeral that does not parse and a duration too long
/// for a `u64` of seconds are errors.
pub fn parse_duration_str(s: &str) -> (r: Result<u64, String>)
    ensures
        r is Ok <==> (duration_secs(s@) is Some && duration_secs(s@)->0 <= u64::MAX),
        r is Ok ==> r->Ok_0 == duration_secs(s@)->0,
        !(s@.len() > 0 && (s@.last() == 'm' || s@.last() == 's')) ==> r is Err && r->Err_0@
            == "unrecognised duration format: '"@ + s@ + "' (expected e.g. '5m' or '30s')"@,
{
    let cs = chars_of(s);
    if cs.len() > 0 && (cs[cs.len() - 1] == 'm' || cs[cs.len() - 1] == 's') {
        let unit = cs[cs.len() - 1];
        let digits = string_of(&cs, 0, cs.len() - 1);
        assert(digits@ =~= s@.drop_last());
        let n = parse_u64(digits.as_str())?;
        if unit == 'm' {
            if n > u64::MAX / 60 {
                Err(String::from_str("duration too large"))
            } else {
                Ok(n * 60)
            }
        } else {
            Ok(n)
        }
    } else {
        let mut e = concat("unrecognised duration format: '", s);
        e.append("' (expected e.g. '5m' or '30s')");
        Err(e)
    }
}

impl Config {
    /// A configuration from its textual values, as a configuration file
    /// holds them: the provider's name and the three durations. Fails with
    /// the first value that does not parse.
    pub fn from_values(cloud_provider: &str, success: &str, not_ready: &str, error: &str) -> (r: Result<Config, String>)
        ensures
            r is Ok <==> (duration_secs(success@) is Some && duration_secs(success@)->0 <= u64::MAX
                && duration_secs(not_ready@) is Some && duration_secs(not_ready@)->0 <= u64::MAX
                && duration_secs(error@) is Some && duration_secs(error@)->0 <= u64::MAX
                && provider_of_upper(upper_of(cloud_provider@)) is Some),
            r is Ok ==> r->Ok_0.requeue_success == duration_secs(success@)->0
                && r->Ok_0.requeue_not_ready == duration_secs(not_ready@)->0
                && r->Ok_0.requeue_error == duration_secs(error@)->0
                && r->Ok_0.cloud_provider == provider_of_upper(upper_of(cloud_provider@))->0,
    {
        let requeue_success = parse_duration_str(success)?;
        let requeue_not_ready = parse_duration_str(not_ready)?;
        let requeue_error = parse_duration_str(error)?;
        let cloud_provider = CloudProvider::parse_name(cloud_provider)?;
        Ok(Config { requeue_success, requeue_not_ready, requeue_error, cloud_provider })
    }
}

/// Seconds from an optional numeral, falling back to `default` where the
/// value is absent or not a `u64`.
pub fn seconds_or(value: Option<&str>, default: u64) -> (r: u64)
    ensures
        r == match value {
            Some(v) => if numeral(v@) is Some && numeral(v@)->0 <= u64::MAX {
                numeral(v@)->0 as u64
            } else {
                default
            },
            None => default,
        },
{
    match value {
        Some(v) => match parse_u64(v) {
            Ok(n) => n,
            Err(_) => default,
        },
        None => default,
    }
}

/// A provider from an optional name, falling back to `default` where the
/// name is absent or names no provider.
pub fn provider_or(value: Option<&str>, default: CloudProvider) -> (r: CloudProvider)
    ensures
        r == match value {
            Some(v) => match provider_of_upper(upper_of(v@)) {
                Some(p) => p,
                None => default,
            },
            None => default,
        },
{
    match value {
        Some(v) => match CloudProvider::parse_name(v) {
            Ok(p) => p,
            Err(_) => default,
        },
        None => default,
    }
}

} // verus!
