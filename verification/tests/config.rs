//! Durations, policies and descriptors.

use git_relay::config::{
    is_descriptor_file, sort_repository_descriptors, AuthorityModel, FreshnessPolicy,
    HumanDuration, ParseHumanDurationError, PushAckPolicy, ReconcilePolicy, RepositoryDescriptor,
    RepositoryLifecycle, RepositoryMode, TrackingRefPlacement,
};

#[test]
fn parses_duration_round_trip() {
    let duration = HumanDuration::from_str("5m").expect("parse duration");
    assert_eq!(duration.as_duration().as_secs(), 300);
    assert_eq!(duration.to_string(), "5m");
}

#[test]
fn parses_ttl_freshness_policy() {
    let policy = FreshnessPolicy::from_str("ttl:60s").expect("parse ttl policy");
    assert_eq!(policy.to_string(), "ttl:1m");
}

#[test]
fn parses_on_push_manual_reconcile_policy() {
    let policy = ReconcilePolicy::from_str("on-push+manual").expect("parse policy");
    assert_eq!(policy.to_string(), "on-push+manual");
}

fn cache_only(repo_id: &str) -> RepositoryDescriptor {
    RepositoryDescriptor {
        repo_id: repo_id.to_owned(),
        canonical_identity: format!("github.com/example/{repo_id}.git"),
        repo_path: format!("/tmp/bare-{repo_id}.git"),
        mode: RepositoryMode::CacheOnly,
        lifecycle: RepositoryLifecycle::Ready,
        authority_model: AuthorityModel::UpstreamSource,
        tracking_refs: TrackingRefPlacement::SameRepoHidden,
        refresh: FreshnessPolicy::from_str("ttl:60s").expect("freshness"),
        push_ack: PushAckPolicy::LocalCommit,
        reconcile_policy: ReconcilePolicy::OnPushManual,
        exported_refs: vec!["refs/heads/*".to_owned()],
        read_upstreams: Vec::new(),
        write_upstreams: Vec::new(),
    }
}

#[test]
fn loads_repository_descriptors_in_sorted_order() {
    let files = ["b.toml", "a.toml", "notes.txt"];
    let descriptors = files
        .iter()
        .filter(|file| is_descriptor_file(file))
        .map(|file| cache_only(file.trim_end_matches(".toml")))
        .collect::<Vec<_>>();
    let repo_ids = sort_repository_descriptors(descriptors)
        .into_iter()
        .map(|descriptor| descriptor.repo_id)
        .collect::<Vec<_>>();
    assert_eq!(repo_ids, vec!["a".to_owned(), "b".to_owned()]);
}

#[test]
fn durations_are_written_in_their_largest_unit() {
    for (text, seconds, written) in [
        ("0s", 0, "0s"),
        ("45s", 45, "45s"),
        ("120s", 120, "2m"),
        ("2h", 7_200, "2h"),
        ("24h", 86_400, "24h"),
        ("90m", 5_400, "90m"),
    ] {
        let duration = HumanDuration::from_str(text).expect(text);
        assert_eq!(duration.as_duration().as_secs(), seconds, "{text}");
        assert_eq!(duration.to_string(), written, "{text}");
    }
}

#[test]
fn durations_that_are_wrong_are_told_apart() {
    assert!(matches!(
        HumanDuration::from_str("60"),
        Err(ParseHumanDurationError::MissingSuffix)
    ));
    assert!(matches!(
        HumanDuration::from_str("s"),
        Err(ParseHumanDurationError::InvalidNumber(_))
    ));
    assert!(matches!(
        HumanDuration::from_str("5y"),
        Err(ParseHumanDurationError::UnsupportedSuffix(_))
    ));
}

#[test]
fn policies_that_are_wrong_are_reported() {
    let error = FreshnessPolicy::from_str("sometimes").expect_err("freshness");
    assert_eq!(
        error.message(),
        "invalid freshness policy sometimes; expected one of: authoritative-local, always-refresh, manual-only, stale-if-error, ttl:<duration>"
    );
    assert!(PushAckPolicy::from_str("remote").is_err());
    assert!(ReconcilePolicy::from_str("manual").is_err());
}
