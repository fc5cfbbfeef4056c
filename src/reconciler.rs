//! The decisions of one reconciliation pass, and of the resolver from a
//! storage claim to the disk behind it.
//!
//! A pass is a short sequence of steps. The caller performs each step (a
//! resolver lookup, a cloud call, an event) and hands its outcome back; the
//! functions here decide what comes next.
use vstd::prelude::*;
use crate::config::Config;
use crate::error::Error;
use crate::labels::Labels;
use crate::resource::{CloudProvider, CloudResource};
use crate::text::{concat, decimal, decimal_string, lower_of, to_lowercase};

verus! {

/// What the controller does with an object after a pass.
#[derive(Debug, Clone, Copy, PartialEq, Eq, Structural)]
pub enum Action {
    /// Nothing until the object changes again.
    AwaitChange,
    /// Reconcile again after this many seconds.
    RequeueAfter(u64),
}

/// The next thing a pass does.
pub enum Step {
    /// Ask the resolver for the object's cloud resource.
    Resolve,
    /// Set the labels of this resource in the cloud, once.
    SetTags(CloudResource),
    /// Publish the best-effort "Tagged" event.
    PublishTagged,
    /// The pass is over, with this result.
    Finish(Result<Action, Error>),
}

pub open spec fn start_spec(deleted: bool) -> Step {
    if deleted {
        Step::Finish(Ok(Action::AwaitChange))
    } else {
        Step::Resolve
    }
}

pub open spec fn after_resolve_spec(config: Config, resolved: Result<Option<CloudResource>, Error>) -> Step {
    match resolved {
        Err(e) => Step::Finish(Err(e)),
        Ok(None) => Step::Finish(Ok(Action::RequeueAfter(config.requeue_not_ready))),
        Ok(Some(cr)) => Step::SetTags(cr),
    }
}

pub open spec fn after_set_tags_spec(tagged: Result<(), Error>) -> Step {
    match tagged {
        Err(e) => Step::Finish(Err(e)),
        Ok(_) => Step::PublishTagged,
    }
}

pub open spec fn after_publish_spec(config: Config) -> Step {
    Step::Finish(Ok(Action::RequeueAfter(config.requeue_success)))
}

/// The first step of a pass: an object that is being deleted needs no
/// tagging, and is left alone until it changes.
pub fn start_pass(deleted: bool) -> (r: Step)
    ensures
        r == start_spec(deleted),
{
    if deleted {
        Step::Finish(Ok(Action::AwaitChange))
    } else {
        Step::Resolve
    }
}

/// The step after the resolver answered: its error ends the pass unchanged;
/// nothing found yet requeues after the not-ready interval; a resource is
/// tagged.
pub fn after_resolve(config: &Config, resolved: Result<Option<CloudResource>, Error>) -> (r: Step)
    ensures
        r == after_resolve_spec(*config, resolved),
{
    match resolved {
        Err(e) => Step::Finish(Err(e)),
        Ok(None) => Step::Finish(Ok(Action::RequeueAfter(config.requeue_not_ready))),
        Ok(Some(cr)) => Step::SetTags(cr),
    }
}

/// The step after the cloud call: its error ends the pass unchanged, with
/// no second attempt; success goes on to the event.
pub fn after_set_tags(tagged: Result<(), Error>) -> (r: Step)
    ensures
        r == after_set_tags_spec(tagged),
{
    match tagged {
        Err(e) => Step::Finish(Err(e)),
        Ok(_) => Step::PublishTagged,
    }
}

/// The step after the event, whether or not publishing it worked: requeue
/// after the success interval.
pub fn after_publish(config: &Config) -> (r: Step)
    ensures
        r == after_publish_spec(*config),
{
    Step::Finish(Ok(Action::RequeueAfter(config.requeue_success)))
}

/// The steps of a whole pass, given whether the object is being deleted,
/// what the resolver answers and what the cloud call answers.
pub open spec fn pass_steps(
    config: Config,
    deleted: bool,
    resolved: Result<Option<CloudResource>, Error>,
    tagged: Result<(), Error>,
) -> Seq<Step> {
    let s0 = start_spec(deleted);
    if deleted {
        seq![s0]
    } else {
        let s1 = after_resolve_spec(config, resolved);
        if s1 is SetTags {
            let s2 = after_set_tags_spec(tagged);
            if s2 is PublishTagged {
                seq![s0, s1, s2, after_publish_spec(config)]
            } else {
                seq![s0, s1, s2]
            }
        } else {
            seq![s0, s1]
        }
    }
}

/// How many steps of `steps` are cloud calls.
pub open spec fn set_tags_count(steps: Seq<Step>) -> nat
    decreases steps.len(),
{
    if steps.len() == 0 {
        0
    } else {
        set_tags_count(steps.drop_last()) + if steps.last() is SetTags { 1nat } else { 0nat }
    }
}

/// How a pass ends.
pub open spec fn pass_result(
    config: Config,
    deleted: bool,
    resolved: Result<Option<CloudResource>, Error>,
    tagged: Result<(), Error>,
) -> Result<Action, Error> {
    if deleted {
        Ok(Action::AwaitChange)
    } else {
        match resolved {
            Err(e) => Err(e),
            Ok(None) => Ok(Action::RequeueAfter(config.requeue_not_ready)),
            Ok(Some(_)) => match tagged {
                Err(e) => Err(e),
                Ok(_) => Ok(Action::RequeueAfter(config.requeue_success)),
            },
        }
    }
}

/// Every pass ends in one `Finish`. It makes exactly one cloud call when the
/// resolver returns a resource, to that resource, and none otherwise; an
/// object being deleted never reaches the resolver. Errors of the resolver
/// and of the cloud call end the pass unchanged.
pub proof fn lemma_pass(
    config: Config,
    deleted: bool,
    resolved: Result<Option<CloudResource>, Error>,
    tagged: Result<(), Error>,
)
    ensures
        ({
            let steps = pass_steps(config, deleted, resolved, tagged);
            &&& steps.last() == Step::Finish(pass_result(config, deleted, resolved, tagged))
            &&& forall|i: int| 0 <= i < steps.len() - 1 ==> !(#[trigger] steps[i] is Finish)
            &&& set_tags_count(steps) == if !deleted && resolved matches Ok(Some(_)) { 1nat } else { 0nat }
            &&& forall|i: int| 0 <= i < steps.len() && #[trigger] steps[i] is SetTags
                ==> resolved == Ok::<Option<CloudResource>, Error>(Some(steps[i]->SetTags_0))
            &&& deleted ==> steps == seq![Step::Finish(Ok(Action::AwaitChange))]
        }),
{
    let steps = pass_steps(config, deleted, resolved, tagged);
    reveal_with_fuel(set_tags_count, 5);
}

/// The backoff after any failed pass, whatever the error: the error
/// interval, with no growth and no ceiling.
pub fn error_policy(config: &Config, error: &Error) -> (r: Action)
    ensures
        r == Action::RequeueAfter(config.requeue_error),
{
    Action::RequeueAfter(config.requeue_error)
}

/// The outcome label of a pass for the metrics.
pub fn outcome_label(result: &Result<Action, Error>) -> (r: &'static str)
    ensures
        r@ == if result is Ok { "success"@ } else { "error"@ },
{
    match result {
        Ok(_) => "success",
        Err(_) => "error",
    }
}

/// The note of the "Tagged" event.
pub open spec fn tagged_note_spec(resource_id: Seq<char>, label_count: nat) -> Seq<char> {
    "Tagged "@ + resource_id + " with "@ + decimal(label_count) + " label(s)"@
}

/// `Tagged <resource id> with <n> label(s)`.
pub fn tagged_note(resource_id: &str, label_count: usize) -> (r: String)
    ensures
        r@ == tagged_note_spec(resource_id@, label_count as nat),
{
    let mut s = concat("Tagged ", resource_id);
    s.append(" with ");
    let n = decimal_string(label_count);
    s.append(n.as_str());
    s.append(" label(s)");
    s
}

/// How an object is named in logs and metrics: its kind in lowercase, its
/// namespace (`<cluster>` for a cluster-scoped object) and its name.
pub fn resource_ref(kind: &str, namespace: Option<String>, name: String) -> (r: (String, String, String))
    ensures
        r.0@ == lower_of(kind@),
        r.1@ == match namespace {
            Some(ns) => ns@,
            None => "<cluster>"@,
        },
        r.2@ == name@,
{
    let ns = match namespace {
        Some(ns) => ns,
        None => String::from_str("<cluster>"),
    };
    (to_lowercase(kind), ns, name)
}

/// What the resolver reads of a storage claim.
pub struct Claim {
    /// The volume that the claim is bound to; none while it is not bound.
    pub volume_name: Option<String>,
    /// The claim's own labels.
    pub labels: Labels,
}

/// The sources that a persistent volume may declare, each with the string
/// that identifies its disk.
pub struct VolumeSources {
    /// A CSI volume's handle.
    pub csi_volume_handle: Option<String>,
    /// A GCE persistent disk's name.
    pub gce_pd_name: Option<String>,
    /// A host path (test and development clusters).
    pub host_path: Option<String>,
}

/// The disk's identifier: the first source present, in the order CSI, GCE
/// persistent disk, host path.
pub open spec fn resource_id_spec(v: VolumeSources) -> Option<Seq<char>> {
    match v.csi_volume_handle {
        Some(h) => Some(h@),
        None => match v.gce_pd_name {
            Some(p) => Some(p@),
            None => match v.host_path {
                Some(p) => Some(p@),
                None => None,
            },
        },
    }
}

/// The identifier of the disk behind a volume; `None` for a volume of a
/// kind that is not supported.
pub fn extract_resource_id(v: &VolumeSources) -> (r: Option<String>)
    ensures
        match resource_id_spec(*v) {
            Some(id) => r is Some && r->0@ == id,
            None => r is None,
        },
{
    if let Some(h) = &v.csi_volume_handle {
        return Some(h.clone());
    }
    if let Some(p) = &v.gce_pd_name {
        return Some(p.clone());
    }
    if let Some(p) = &v.host_path {
        return Some(p.clone());
    }
    None
}

/// The volume the resolver must read for a claim; `None` while the claim is
/// not bound, which resolves to no resource.
pub fn volume_to_read(claim: &Claim) -> (r: Option<String>)
    ensures
        match claim.volume_name {
            Some(n) => r is Some && r->0@ == n@,
            None => r is None,
        },
{
    match &claim.volume_name {
        Some(n) => Some(n.clone()),
        None => None,
    }
}

/// The resolver's answer once the bound volume was read: a failed read is
/// an error, passed on unchanged; an unsupported volume gives no resource;
/// otherwise the disk, with the claim's labels as they are. The provider is
/// the one the controller is configured with, whichever source matched.
pub fn resolve_with_volume(provider: CloudProvider, claim: Claim, volume: Result<VolumeSources, Error>) -> (r: Result<
    Option<CloudResource>,
    Error,
>)
    ensures
        match volume {
            Err(e) => r == Err::<Option<CloudResource>, Error>(e),
            Ok(v) => match resource_id_spec(v) {
                None => r == Ok::<Option<CloudResource>, Error>(None),
                Some(id) => r is Ok && r->Ok_0 is Some && r->Ok_0->0.resource_id@ == id
                    && r->Ok_0->0.provider == provider && r->Ok_0->0.labels == claim.labels,
            },
        },
{
    match volume {
        Err(e) => Err(e),
        Ok(v) => match extract_resource_id(&v) {
            None => Ok(None),
            Some(resource_id) => Ok(Some(CloudResource { provider, resource_id, labels: claim.labels })),
        },
    }
}

} // verus!
