use k8s_cloud_tagger::error::Error;
use k8s_cloud_tagger::gcp::{
    after_read, after_write, label_from_lowercase, merge_labels, sanitise_gcp_label, sanitise_gcp_label_key, sanitise_labels,
    start_tagging, DiskLabels, GcpDisk, TagStep,
};
use k8s_cloud_tagger::labels::Labels;

fn labels_of(pairs: &[(&str, &str)]) -> Labels {
    let mut l = Labels::new();
    for (k, v) in pairs {
        l.insert(k.to_string(), v.to_string());
    }
    l
}

struct Case {
    name: &'static str,
    input: &'static [(&'static str, &'static str)],
    expected: &'static [(&'static str, &'static str)],
}

#[test]
fn parse_zonal() {
    let d = GcpDisk::parse("projects/my-proj/zones/europe-west2-b/disks/pvc-abc").unwrap();
    assert_eq!(d.project, "my-proj");
    assert_eq!(d.location, "europe-west2-b");
    assert!(!d.regional);
    assert_eq!(d.name, "pvc-abc");
    assert_eq!(
        d.api_path(),
        "https://compute.googleapis.com/compute/v1/projects/my-proj/zones/europe-west2-b/disks/pvc-abc"
    );
}

#[test]
fn parse_regional() {
    let d = GcpDisk::parse("projects/my-proj/regions/europe-west2/disks/pvc-abc").unwrap();
    assert_eq!(d.project, "my-proj");
    assert_eq!(d.location, "europe-west2");
    assert!(d.regional);
    assert_eq!(d.name, "pvc-abc");
    assert_eq!(
        d.api_path(),
        "https://compute.googleapis.com/compute/v1/projects/my-proj/regions/europe-west2/disks/pvc-abc"
    );
}

#[test]
fn parse_invalid() {
    assert!(GcpDisk::parse("not-a-handle").is_none());
    assert!(GcpDisk::parse("projects/p/something/z/disks/d").is_none());
    assert!(GcpDisk::parse("").is_none());
}

#[test]
fn parse_us_east_examples() {
    let d = GcpDisk::parse("projects/my-proj/zones/us-east1-b/disks/pvc-abc").unwrap();
    assert_eq!(d.project, "my-proj");
    assert_eq!(d.location, "us-east1-b");
    assert!(!d.regional);
    assert_eq!(d.name, "pvc-abc");
    let r = GcpDisk::parse("projects/my-proj/regions/us-east1/disks/pvc-abc").unwrap();
    assert!(r.regional);
    assert_eq!(r.location, "us-east1");
}

#[test]
fn parse_rejects_wrong_segment_counts_and_words() {
    assert!(GcpDisk::parse("projects/p/zones/z/disks/d/extra").is_none());
    assert!(GcpDisk::parse("projects/p/zones/z/disks").is_none());
    assert!(GcpDisk::parse("project/p/zones/z/disks/d").is_none());
    assert!(GcpDisk::parse("projects/p/zones/z/disk/d").is_none());
    assert!(GcpDisk::parse("/projects/p/zones/z/disks/d").is_none());
}

#[test]
fn set_labels_url_appends_method() {
    let d = GcpDisk::parse("projects/p/zones/z/disks/d").unwrap();
    assert_eq!(
        d.set_labels_url(),
        "https://compute.googleapis.com/compute/v1/projects/p/zones/z/disks/d/setLabels"
    );
}

#[test]
fn sanitise_labels_documented_examples() {
    let cases = [
        Case {
            name: "dots and slashes in key and value passthrough",
            input: &[("app.kubernetes.io/name", "frontend")],
            expected: &[("app-kubernetes-io-name", "frontend")],
        },
        Case {
            name: "dots in value replaced",
            input: &[("helm.sh/chart", "myapp-1.2.0")],
            expected: &[("helm-sh-chart", "myapp-1-2-0")],
        },
        Case {
            name: "already valid passthrough",
            input: &[("env", "production")],
            expected: &[("env", "production")],
        },
        Case {
            name: "slashes and dots in key",
            input: &[("upgrades.dev/managed-by", "k8s-cloud-tagger")],
            expected: &[("upgrades-dev-managed-by", "k8s-cloud-tagger")],
        },
        Case {
            name: "uppercase lowercased",
            input: &[("Team", "Platform")],
            expected: &[("team", "platform")],
        },
        Case {
            name: "key starting with non-letter after sanitisation is dropped",
            input: &[("123-team", "value")],
            expected: &[],
        },
    ];

    for c in &cases {
        let input = labels_of(c.input);
        let expected = labels_of(c.expected);
        let result = sanitise_labels(&input);
        assert_eq!(result, expected, "failed case: {}", c.name);
    }
}

#[test]
fn sanitise_label_truncates_to_63() {
    let long = "a".repeat(70);
    assert_eq!(sanitise_gcp_label(&long), "a".repeat(63));
    assert_eq!(sanitise_gcp_label("Hello World!"), "hello-world-");
    assert_eq!(sanitise_gcp_label(""), "");
}

#[test]
fn sanitise_label_lowercases_non_ascii() {
    assert_eq!(sanitise_gcp_label("ÄB"), "-b");
}

#[test]
fn sanitise_key_drop_rule() {
    assert_eq!(sanitise_gcp_label_key("123-team"), None);
    assert_eq!(sanitise_gcp_label_key("-x"), None);
    assert_eq!(sanitise_gcp_label_key(""), None);
    assert_eq!(sanitise_gcp_label_key("Team"), Some("team".to_string()));
    assert_eq!(sanitise_gcp_label_key("env"), Some("env".to_string()));
}

#[test]
fn sanitise_labels_keeps_valid_pairs_and_drops_bad_keys() {
    let input = labels_of(&[("env", "production"), ("123-team", "value"), ("Tier", "Gold")]);
    let result = sanitise_labels(&input);
    assert_eq!(result, labels_of(&[("env", "production"), ("tier", "gold")]));
}

#[test]
fn merge_keeps_cloud_only_and_overwrites_incoming() {
    let current = labels_of(&[("a", "1"), ("b", "2")]);
    let incoming = labels_of(&[("b", "20"), ("c", "30")]);
    let merged = merge_labels(current, &incoming);
    assert_eq!(merged, labels_of(&[("a", "1"), ("b", "20"), ("c", "30")]));
}

#[test]
fn merge_with_empty_sets() {
    let merged = merge_labels(Labels::new(), &labels_of(&[("x", "y")]));
    assert_eq!(merged, labels_of(&[("x", "y")]));
    let merged = merge_labels(labels_of(&[("x", "y")]), &Labels::new());
    assert_eq!(merged, labels_of(&[("x", "y")]));
}

#[test]
fn tagging_rejects_invalid_resource_id_without_calls() {
    match start_tagging("vol-abc123") {
        TagStep::Done(Err(Error::CloudApi(m))) => assert_eq!(m, "Invalid resource ID"),
        _ => panic!("expected an invalid-input error"),
    }
}

#[test]
fn tagging_reads_then_writes_merged_labels_with_fingerprint() {
    let disk = match start_tagging("projects/p/zones/z/disks/d") {
        TagStep::ReadDisk(d) => d,
        _ => panic!("expected a read"),
    };
    assert_eq!(disk.name, "d");
    let incoming = labels_of(&[("app.kubernetes.io/name", "Frontend")]);
    let read = DiskLabels { labels: labels_of(&[("owner", "ops")]), label_fingerprint: "fp-1".to_string() };
    match after_read(disk, &incoming, Ok(read)) {
        TagStep::WriteLabels(d, update) => {
            assert_eq!(d.project, "p");
            assert_eq!(update.label_fingerprint, "fp-1");
            assert_eq!(
                update.labels,
                labels_of(&[("app-kubernetes-io-name", "frontend"), ("owner", "ops")])
            );
        }
        _ => panic!("expected a write"),
    }
}

#[test]
fn tagging_read_failure_is_reported() {
    let disk = GcpDisk::parse("projects/p/zones/z/disks/d").unwrap();
    match after_read(disk, &Labels::new(), Err(Error::Reqwest("503".to_string()))) {
        TagStep::Done(Err(Error::Reqwest(m))) => assert_eq!(m, "503"),
        _ => panic!("expected the read error"),
    }
}

#[test]
fn stale_fingerprint_write_is_reported_without_retry() {
    let refused = Err(Error::Reqwest("412 Precondition Failed".to_string()));
    match after_write(refused) {
        TagStep::Done(Err(Error::Reqwest(m))) => assert_eq!(m, "412 Precondition Failed"),
        _ => panic!("expected the write error, and no further step"),
    }
    assert!(matches!(after_write(Ok(())), TagStep::Done(Ok(()))));
}

#[test]
fn label_text_from_lowercase() {
    assert_eq!(label_from_lowercase("app.kubernetes.io/name"), "app-kubernetes-io-name");
    assert_eq!(label_from_lowercase("Team"), "-eam");
    assert_eq!(label_from_lowercase(&"b".repeat(64)), "b".repeat(63));
}
