use k8s_cloud_tagger::config::Config;
use k8s_cloud_tagger::error::Error;
use k8s_cloud_tagger::labels::Labels;
use k8s_cloud_tagger::reconciler::{
    after_publish, after_resolve, after_set_tags, error_policy, extract_resource_id, outcome_label,
    resolve_with_volume, resource_ref, start_pass, tagged_note, volume_to_read, Action, Claim, Step,
    VolumeSources,
};
use k8s_cloud_tagger::resource::{CloudProvider, CloudResource};

/// What a stand-in cloud saw during a pass.
struct Calls {
    tag_calls: usize,
    last_resource_id: String,
    last_labels: Option<Labels>,
    events: usize,
}

fn one_label() -> Labels {
    let mut l = Labels::new();
    l.insert("upgrades.dev/app".to_string(), "k8s-cloud-tagger".to_string());
    l
}

fn sample_cloud_resource() -> CloudResource {
    CloudResource { provider: CloudProvider::Mock, resource_id: "vol-abc123".to_string(), labels: one_label() }
}

/// Runs one pass the way the controller does, with a resolver that answers
/// `resolved` (or fails) and a cloud that fails when `cloud_fails`.
fn run_pass(
    deleted: bool,
    resolved: Option<CloudResource>,
    resolve_error: bool,
    cloud_fails: bool,
) -> (Result<Action, Error>, Calls) {
    let config = Config::default();
    let mut calls = Calls { tag_calls: 0, last_resource_id: String::new(), last_labels: None, events: 0 };
    let mut resolved = Some(resolved);
    let mut step = start_pass(deleted);
    loop {
        step = match step {
            Step::Resolve => {
                let answer = if resolve_error {
                    Err(Error::CloudApi("resolve failed".to_string()))
                } else {
                    Ok(resolved.take().unwrap())
                };
                after_resolve(&config, answer)
            }
            Step::SetTags(cr) => {
                calls.tag_calls += 1;
                calls.last_resource_id = cr.resource_id.clone();
                calls.last_labels = Some(cr.labels);
                let result = if cloud_fails { Err(Error::CloudApi("mock failure".to_string())) } else { Ok(()) };
                after_set_tags(result)
            }
            Step::PublishTagged => {
                calls.events += 1;
                after_publish(&config)
            }
            Step::Finish(result) => return (result, calls),
        };
    }
}

#[test]
fn tags_cloud_resource_on_match() {
    let (result, calls) = run_pass(false, Some(sample_cloud_resource()), false, false);
    assert!(result.is_ok(), "reconcile should succeed");
    assert_eq!(calls.tag_calls, 1, "cloud API should be called once");
    assert_eq!(calls.last_resource_id, "vol-abc123");
    assert_eq!(calls.last_labels.unwrap(), one_label());
    assert_eq!(calls.events, 1);
    assert_eq!(result.unwrap(), Action::RequeueAfter(300));
}

#[test]
fn skips_tagging_when_not_ready() {
    let (result, calls) = run_pass(false, None, false, false);
    assert!(result.is_ok(), "reconcile should succeed (requeue)");
    assert_eq!(calls.tag_calls, 0, "cloud API should not be called");
    assert_eq!(result.unwrap(), Action::RequeueAfter(30));
}

#[test]
fn propagates_cloud_api_error() {
    let (result, calls) = run_pass(false, Some(sample_cloud_resource()), false, true);
    assert!(result.is_err(), "reconcile should return error");
    assert_eq!(calls.tag_calls, 1, "cloud API should be attempted");
    assert_eq!(calls.events, 0);
    match result {
        Err(Error::CloudApi(m)) => assert_eq!(m, "mock failure"),
        _ => panic!("the cloud error should come back unchanged"),
    }
}

#[test]
fn propagates_resolve_error() {
    let (result, calls) = run_pass(false, None, true, false);
    assert!(result.is_err(), "resolve error should propagate");
    assert_eq!(calls.tag_calls, 0, "cloud API should not be called");
    let e = result.unwrap_err();
    assert_eq!(error_policy(&Config::default(), &e), Action::RequeueAfter(60));
}

#[test]
fn error_policy_will_requeue() {
    let error = Error::CloudApi("error from cloud provider".to_string());
    let action = error_policy(&Config::default(), &error);
    assert_eq!(action, Action::RequeueAfter(60));
    let other = Error::Kube("not found".to_string());
    assert_eq!(error_policy(&Config::default(), &other), Action::RequeueAfter(60));
}

#[test]
fn skips_deleted_resource() {
    let (result, calls) = run_pass(true, Some(sample_cloud_resource()), false, false);
    assert!(result.is_ok(), "reconcile should succeed");
    assert_eq!(calls.tag_calls, 0, "cloud API should not be called for deleted resource");
    assert_eq!(result.unwrap(), Action::AwaitChange);
    let (result, _) = run_pass(true, None, true, true);
    assert_eq!(result.unwrap(), Action::AwaitChange);
}

#[test]
fn outcome_and_error_labels() {
    assert_eq!(outcome_label(&Ok(Action::AwaitChange)), "success");
    assert_eq!(outcome_label(&Err(Error::Config("x".to_string()))), "error");
    assert_eq!(Error::Kube("x".to_string()).metric_label(), "kube");
    assert_eq!(Error::CloudApi("x".to_string()).metric_label(), "cloud_api");
    assert_eq!(Error::Config("x".to_string()).metric_label(), "config");
    assert_eq!(Error::Reqwest("x".to_string()).metric_label(), "http");
    assert_eq!(Error::Gcp("x".to_string()).metric_label(), "gcp");
}

#[test]
fn tagged_event_note() {
    assert_eq!(tagged_note("vol-abc123", 1), "Tagged vol-abc123 with 1 label(s)");
    assert_eq!(tagged_note("d", 0), "Tagged d with 0 label(s)");
    assert_eq!(tagged_note("d", 1234), "Tagged d with 1234 label(s)");
}

#[test]
fn resource_ref_names() {
    let (kind, ns, name) = resource_ref("PersistentVolumeClaim", None, "data".to_string());
    assert_eq!(kind, "persistentvolumeclaim");
    assert_eq!(ns, "<cluster>");
    assert_eq!(name, "data");
    let (_, ns, _) = resource_ref("MockResource", Some("default".to_string()), "my-pvc".to_string());
    assert_eq!(ns, "default");
}

fn claim(volume: Option<&str>) -> Claim {
    Claim { volume_name: volume.map(|v| v.to_string()), labels: one_label() }
}

fn no_sources() -> VolumeSources {
    VolumeSources { csi_volume_handle: None, gce_pd_name: None, host_path: None }
}

#[test]
fn pvc_not_bound_returns_none() {
    assert_eq!(volume_to_read(&claim(None)), None);
}

#[test]
fn pvc_test_not_bound_returns_none() {
    let c = claim(None);
    assert!(volume_to_read(&c).is_none());
}

#[test]
fn pv_found_but_not_understood() {
    let c = claim(Some("test-pv"));
    assert_eq!(volume_to_read(&c).unwrap(), "test-pv");
    let result = resolve_with_volume(CloudProvider::Mock, c, Ok(no_sources())).unwrap();
    assert!(result.is_none());
}

#[test]
fn pvc_bound_returns_resource() {
    let c = claim(Some("test-pv"));
    assert_eq!(volume_to_read(&c).unwrap(), "test-pv");
    let sources = VolumeSources {
        csi_volume_handle: Some("arn:aws:ebs:us-east-1:123456789012:volume/vol-0123456789abcdef0".to_string()),
        ..no_sources()
    };
    let result = resolve_with_volume(CloudProvider::Mock, c, Ok(sources)).unwrap();
    let cr = result.expect("expected CloudResource");
    assert_eq!(cr.resource_id, "arn:aws:ebs:us-east-1:123456789012:volume/vol-0123456789abcdef0");
    assert_eq!(cr.labels, one_label());
}

#[test]
fn pvc_test_bound_returns_resource() {
    let sources = VolumeSources {
        csi_volume_handle: Some("arn:aws:ebs:us-east-1:123456789012:volume/vol-0123456789abcdef0".to_string()),
        ..no_sources()
    };
    let cr = resolve_with_volume(CloudProvider::Gcp, claim(Some("test-pv")), Ok(sources)).unwrap().unwrap();
    assert_eq!(cr.resource_id, "arn:aws:ebs:us-east-1:123456789012:volume/vol-0123456789abcdef0");
    assert_eq!(cr.provider, CloudProvider::Gcp);
}

#[test]
fn pv_not_found_returns_error() {
    let result = resolve_with_volume(
        CloudProvider::Mock,
        claim(Some("test-pv")),
        Err(Error::Kube("persistentvolumes \"test-pv\" not found".to_string())),
    );
    assert!(result.is_err());
}

#[test]
fn volume_source_priority() {
    let all = VolumeSources {
        csi_volume_handle: Some("csi".to_string()),
        gce_pd_name: Some("pd".to_string()),
        host_path: Some("/tmp/x".to_string()),
    };
    assert_eq!(extract_resource_id(&all), Some("csi".to_string()));
    let pd = VolumeSources { gce_pd_name: Some("pd".to_string()), host_path: Some("/tmp/x".to_string()), ..no_sources() };
    assert_eq!(extract_resource_id(&pd), Some("pd".to_string()));
    let host = VolumeSources { host_path: Some("/tmp/x".to_string()), ..no_sources() };
    assert_eq!(extract_resource_id(&host), Some("/tmp/x".to_string()));
    assert_eq!(extract_resource_id(&no_sources()), None);
}
