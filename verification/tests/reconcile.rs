//! Reconciling upstreams with the relay.

use std::collections::BTreeMap;

use git_relay::classification::{RepositorySafetyState, UpstreamConvergenceState};
use git_relay::config::{
    AuthorityModel, FreshnessPolicy, PushAckPolicy, ReconcilePolicy, RepositoryDescriptor,
    RepositoryLifecycle, RepositoryMode, TrackingRefPlacement, WriteUpstream,
};
use git_relay::git::{GitProcessOutput, GitReply};
use git_relay::locking::{LockEvent, LockStage};
use git_relay::reconcile::{
    absorb_run, build_push_refspecs, classify_repository_safety, delete_internal_ref,
    detect_divergence, divergence_ref_name, enqueue_reconcile_request, in_progress_marker_path,
    latest_run,
    list_local_exported_refs, load_divergence_markers, load_pending_reconcile_requests,
    lock_is_stale, lock_metadata_path, observed_ref_prefix, parse_internal_observed_snapshot,
    parse_ref_targets, pending_request_file_path, persist_divergence_markers,
    process_pending_reconcile_requests, reconcile_lock_path, reconcile_repository,
    replication_status_for_repo, run_record_files, run_record_path, supersede_stale_run,
    InProgressMarker, LockMetadata, PendingAction, ReconcileError, ReconcileRunRecord,
    ReconcileRunStatus, ReconcileUpstreamResult,
};
use git_relay::refs::RefSnapshotEntry;
use git_relay::run::{RunAction, RunEvent, RunStage};

const MAIN: &str = "aaaaaaaaaaaaaaaaaaaaaaaaaaaaaaaaaaaaaaaa";
const OTHER: &str = "bbbbbbbbbbbbbbbbbbbbbbbbbbbbbbbbbbbbbbbb";

/// The references of a repository and of the upstreams that it can reach.
#[derive(Default)]
struct World {
    local: BTreeMap<String, String>,
    remotes: BTreeMap<String, BTreeMap<String, String>>,
    pushes: usize,
    /// The files of the relay: the lock's record, the marker, the records of runs, the marks of
    /// divergence.
    locked: bool,
    lock: Option<LockMetadata>,
    marker: Option<InProgressMarker>,
    records: BTreeMap<String, ReconcileRunRecord>,
    marks: BTreeMap<String, String>,
    request: bool,
    written: usize,
}

impl World {
    fn run(&mut self, args: &[String]) -> GitReply {
        let args = args.to_vec();
        let words = args.iter().map(String::as_str).collect::<Vec<_>>();
        match words.as_slice() {
            ["for-each-ref", "--format=%(objectname) %(refname)", roots @ ..] => {
                let listed = self
                    .local
                    .iter()
                    .filter(|(name, _)| {
                        roots
                            .iter()
                            .any(|root| name.starts_with(&format!("{root}/")))
                    })
                    .map(|(name, oid)| format!("{oid} {name}\n"))
                    .collect::<String>();
                ran(true, &listed, "", args.clone())
            }
            ["fetch", "--prune", "--no-tags", url, specs @ ..] => {
                let Some(remote) = self.remotes.get(*url).cloned() else {
                    let detail = format!("fatal: '{url}' does not appear to be a git repository");
                    return ran(false, "", &detail, args.clone());
                };
                for spec in specs {
                    let (from, to) = spec
                        .trim_start_matches('+')
                        .split_once(':')
                        .expect("refspec");
                    let from = from.trim_end_matches('*');
                    let to = to.trim_end_matches('*').to_owned();
                    self.local.retain(|name, _| !name.starts_with(&to));
                    for (name, oid) in &remote {
                        if let Some(rest) = name.strip_prefix(from) {
                            self.local.insert(format!("{to}{rest}"), oid.clone());
                        }
                    }
                }
                ran(true, "", "", args.clone())
            }
            ["push", "--porcelain", rest @ ..] => {
                let rest = if rest[0] == "--atomic" { &rest[1..] } else { rest };
                self.pushes += 1;
                for spec in &rest[1..] {
                    let (source, target) = spec
                        .trim_start_matches('+')
                        .split_once(':')
                        .expect("refspec");
                    let oid = self
                        .local
                        .get(source)
                        .cloned()
                        .unwrap_or_else(|| source.to_owned());
                    let remote = self.remotes.get_mut(rest[0]).expect("remote");
                    remote.insert(target.to_owned(), oid);
                }
                ran(true, "", "", args.clone())
            }
            ["for-each-ref", "--format=%(refname) %(objectname)", _] => {
                let listed = self
                    .marks
                    .keys()
                    .map(|name| format!("{name} {MAIN}\n"))
                    .collect::<String>();
                ran(true, &listed, "", args.clone())
            }
            ["update-ref", "-d", name] => {
                self.marks.remove(*name);
                ran(true, "", "", args.clone())
            }
            _ => panic!("unexpected command {words:?}"),
        }
    }
}

fn output(success: bool, stdout: &str, stderr: &str, args: Vec<String>) -> GitProcessOutput {
    GitProcessOutput {
        success,
        status: Some(if success { 0 } else { 1 }),
        stdout: stdout.to_owned(),
        stderr: stderr.to_owned(),
        args,
    }
}

fn ran(success: bool, stdout: &str, stderr: &str, args: Vec<String>) -> GitReply {
    GitReply::Ran(output(success, stdout, stderr, args))
}

/// Runs a reconciliation to its end; a process that holds a lock is alive where it is the first.
fn try_reconcile(
    world: &mut World,
    descriptor: &RepositoryDescriptor,
    run_id: &str,
) -> Result<ReconcileRunRecord, ReconcileError> {
    let mut session = reconcile_repository(descriptor.clone(), run_id.to_owned(), 10)?;
    loop {
        let now_ms = 1_000_000;
        let done = RunEvent::Done { now_ms };
        let event = match session.action() {
            RunAction::CreateLock => {
                if world.locked {
                    RunEvent::Lock(LockEvent::Exists)
                } else {
                    world.locked = true;
                    RunEvent::Lock(LockEvent::Created { pid: 7, now_ms })
                }
            }
            RunAction::ReadLock => RunEvent::Lock(LockEvent::Holder {
                acquired_at_ms: world.lock.as_ref().map(|lock| lock.acquired_at_ms),
                now_ms,
                pid_alive: world.lock.as_ref().is_some_and(|lock| lock.pid == 1),
            }),
            RunAction::RemoveLock => {
                world.locked = false;
                world.lock = None;
                match session.stage {
                    RunStage::Lock(_) => RunEvent::Lock(LockEvent::Removed),
                    _ => done,
                }
            }
            RunAction::WriteLock(metadata) => {
                world.lock = Some(metadata);
                RunEvent::Lock(LockEvent::Recorded { now_ms })
            }
            RunAction::Git { args } => RunEvent::Git {
                reply: world.run(&args),
                now_ms,
            },
            RunAction::ReadMarker => RunEvent::Marker(world.marker.clone()),
            RunAction::ReadRecord { run_id } => RunEvent::Record {
                record: world.records.get(run_id).cloned(),
                now_ms,
            },
            RunAction::WriteRecord(record) => {
                world.written += 1;
                world.records.insert(record.run_id.clone(), record.clone());
                done
            }
            RunAction::WriteMarker(marker) => {
                world.marker = Some(marker.clone());
                done
            }
            RunAction::RemoveMarker => {
                world.marker = None;
                done
            }
            RunAction::StoreMark { ref_name, marker } => {
                world.marks.insert(ref_name.clone(), marker.upstream_id.clone());
                done
            }
            RunAction::RemoveRequest => {
                world.request = false;
                done
            }
            RunAction::Finish => match session.stage {
                RunStage::Finished(outcome) => return outcome,
                _ => panic!("not finished"),
            },
        };
        session = session.advance(event);
    }
}

fn reconcile(world: &mut World, descriptor: &RepositoryDescriptor, run_id: &str) -> ReconcileRunRecord {
    try_reconcile(world, descriptor, run_id).expect("reconcile")
}

fn descriptor(repo_path: &str, upstreams: Vec<WriteUpstream>) -> RepositoryDescriptor {
    RepositoryDescriptor {
        repo_id: "github.com/example/repo.git".to_owned(),
        canonical_identity: "github.com/example/repo.git".to_owned(),
        repo_path: repo_path.to_owned(),
        mode: RepositoryMode::Authoritative,
        lifecycle: RepositoryLifecycle::Ready,
        authority_model: AuthorityModel::RelayAuthoritative,
        tracking_refs: TrackingRefPlacement::SameRepoHidden,
        refresh: FreshnessPolicy::AuthoritativeLocal,
        push_ack: PushAckPolicy::LocalCommit,
        reconcile_policy: ReconcilePolicy::OnPushManual,
        exported_refs: vec!["refs/heads/*".to_owned(), "refs/tags/*".to_owned()],
        read_upstreams: Vec::new(),
        write_upstreams: upstreams,
    }
}

fn upstream(name: &str, url: &str) -> WriteUpstream {
    WriteUpstream {
        name: name.to_owned(),
        url: url.to_owned(),
        auth_profile: Some("github-write".to_owned()),
        require_atomic: false,
    }
}

fn entry(ref_name: &str, oid: &str) -> RefSnapshotEntry {
    RefSnapshotEntry {
        ref_name: ref_name.to_owned(),
        oid: oid.to_owned(),
    }
}

fn pushed_world(urls: &[&str]) -> World {
    let mut world = World::default();
    world
        .local
        .insert("refs/heads/main".to_owned(), MAIN.to_owned());
    for url in urls {
        world.remotes.insert((*url).to_owned(), BTreeMap::new());
    }
    world
}

#[test]
fn reconcile_records_mixed_outcomes_under_one_run() {
    let mut world = pushed_world(&["/srv/upstream-ok.git"]);
    let descriptor = descriptor(
        "/srv/repos/repo.git",
        vec![
            upstream("alpha", "/srv/upstream-ok.git"),
            upstream("beta", "/srv/missing-upstream.git"),
        ],
    );

    let run = reconcile(&mut world, &descriptor, "run-1");

    assert_eq!(
        run.captured_upstreams,
        vec!["alpha".to_owned(), "beta".to_owned()]
    );
    assert_eq!(run.status, ReconcileRunStatus::Completed);
    assert_eq!(run.repo_safety, RepositorySafetyState::Degraded);
    assert_eq!(run.upstream_results.len(), 2);
    assert_eq!(
        run.upstream_results[0].state,
        UpstreamConvergenceState::InSync
    );
    assert_eq!(
        run.upstream_results[1].state,
        UpstreamConvergenceState::Stalled
    );

    let listed = world
        .local
        .iter()
        .filter(|(name, _)| name.starts_with(&observed_ref_prefix("alpha")))
        .map(|(name, oid)| format!("{oid} {name}\n"))
        .collect::<String>();
    let observed = parse_internal_observed_snapshot("alpha", &listed).expect("observed refs");
    assert_eq!(
        observed,
        vec![RefSnapshotEntry {
            ref_name: "refs/heads/main".to_owned(),
            oid: run.desired_snapshot[0].oid.clone(),
        }]
    );
}

#[test]
fn reconcile_detects_direct_upstream_divergence_from_fresh_observation() {
    let mut world = pushed_world(&["/srv/upstream.git"]);
    let descriptor = descriptor(
        "/srv/repos/repo.git",
        vec![upstream("alpha", "/srv/upstream.git")],
    );

    let first = reconcile(&mut world, &descriptor, "run-1");
    assert_eq!(first.repo_safety, RepositorySafetyState::Healthy);

    world
        .remotes
        .get_mut("/srv/upstream.git")
        .expect("upstream")
        .insert("refs/heads/main".to_owned(), OTHER.to_owned());
    let pushes = world.pushes;

    let second = reconcile(&mut world, &descriptor, "run-2");
    assert_eq!(second.repo_safety, RepositorySafetyState::Divergent);
    assert!(second.upstream_results[0].divergent);
    assert_eq!(
        second.upstream_results[0].state,
        UpstreamConvergenceState::OutOfSync
    );
    assert_eq!(world.pushes, pushes);
}

#[test]
fn reconcile_breaks_stale_lock_and_supersedes_stale_run_marker() {
    let mut world = pushed_world(&["/srv/upstream.git"]);
    let descriptor = descriptor(
        "/srv/repos/repo.git",
        vec![upstream("alpha", "/srv/upstream.git")],
    );

    let old_run_id = "reconcile-stale-run";
    let stale_record = ReconcileRunRecord {
        run_id: old_run_id.to_owned(),
        repo_id: descriptor.repo_id.clone(),
        repo_path: descriptor.repo_path.clone(),
        started_at_ms: 1,
        completed_at_ms: None,
        desired_snapshot: Vec::new(),
        captured_upstreams: vec!["alpha".to_owned()],
        repo_safety: RepositorySafetyState::Degraded,
        status: ReconcileRunStatus::InProgress,
        superseded_by: None,
        upstream_results: Vec::new(),
    };
    world.records.insert(old_run_id.to_owned(), stale_record);
    world.marker = Some(InProgressMarker {
        repo_id: descriptor.repo_id.clone(),
        run_id: old_run_id.to_owned(),
        pid: 999_999,
        started_at_ms: 1,
    });
    world.locked = true;
    world.lock = Some(LockMetadata {
        repo_id: descriptor.repo_id.clone(),
        run_id: old_run_id.to_owned(),
        pid: 999_999,
        acquired_at_ms: 1,
    });

    let run = reconcile(&mut world, &descriptor, "run-1");
    assert_eq!(run.status, ReconcileRunStatus::Completed);

    let stale = &world.records[old_run_id];
    assert_eq!(stale.status, ReconcileRunStatus::Superseded);
    assert_eq!(stale.superseded_by.as_deref(), Some(run.run_id.as_str()));
    assert!(world.marker.is_none());
    assert!(!world.locked);
}

#[test]
fn enqueue_reconcile_request_coalesces_by_repo_path() {
    let descriptor = descriptor(
        "/srv/repos/repo.git",
        vec![upstream("alpha", "/tmp/upstream.git")],
    );

    let pending = enqueue_reconcile_request(&descriptor, Some("push-1"), Some("req-1"), 7);
    assert_eq!(pending.last_push_id.as_deref(), Some("push-1"));
    assert_eq!(pending.last_request_id.as_deref(), Some("req-1"));
    assert_eq!(pending.requested_at_ms, 7);
    assert_eq!(
        pending_request_file_path("/srv", &pending.repo_id),
        pending_request_file_path("/srv", &descriptor.repo_id)
    );
}

#[test]
fn observed_ref_prefix_stays_under_internal_namespace() {
    assert_eq!(
        observed_ref_prefix("github-write"),
        "refs/git-relay/upstreams/github-write"
    );
}

#[test]
fn divergence_markers_stay_under_the_internal_namespace() {
    assert_eq!(
        divergence_ref_name("a b"),
        "refs/git-relay/safety/divergent/a_b"
    );
}

#[test]
fn only_exported_references_are_pushed() {
    let listed = format!("{MAIN} refs/heads/main\n{OTHER} refs/git-relay/upstreams/a/heads/x\n");
    let snapshot = list_local_exported_refs(&listed, &vec!["refs/heads/*".to_owned()]).expect("refs");
    assert_eq!(snapshot, vec![entry("refs/heads/main", MAIN)]);
    let refspecs = build_push_refspecs(&snapshot);
    assert_eq!(refspecs.len(), 1);
    assert!(refspecs[0].ends_with(":refs/heads/main"));
    assert!(matches!(
        list_local_exported_refs("garbage", &vec![]),
        Err(ReconcileError::Git { .. })
    ));
}

#[test]
fn divergence_needs_a_change_that_the_relay_did_not_make() {
    let seen = vec![entry("refs/heads/main", MAIN)];
    let moved = vec![entry("refs/heads/main", OTHER)];
    let model = AuthorityModel::RelayAuthoritative;
    assert!(detect_divergence(model, &seen, &moved, &seen));
    assert!(!detect_divergence(model, &seen, &seen, &moved));
    assert!(!detect_divergence(model, &seen, &moved, &moved));
}

#[test]
fn a_live_lock_is_kept() {
    let metadata = LockMetadata {
        repo_id: "r".to_owned(),
        run_id: "x".to_owned(),
        pid: 4,
        acquired_at_ms: 100,
    };
    assert!(!lock_is_stale(Some(&metadata), 105, 10, true));
    assert!(lock_is_stale(None, 105, 10, false));
}

#[test]
fn a_repository_without_upstreams_is_healthy() {
    let mut world = pushed_world(&[]);
    let run = reconcile(&mut world, &descriptor("/srv/repos/repo.git", vec![]), "run-1");
    assert_eq!(run.repo_safety, RepositorySafetyState::Healthy);
    assert_eq!(
        classify_repository_safety(&vec![]),
        RepositorySafetyState::Healthy
    );
}

#[test]
fn only_ready_authoritative_repositories_are_reconciled() {
    let mut cache = descriptor("/srv/repos/repo.git", vec![]);
    cache.mode = RepositoryMode::CacheOnly;
    let error = reconcile_repository(cache, "run".to_owned(), 1).expect_err("cache");
    assert_eq!(
        error.message(),
        "repository github.com/example/repo.git is CacheOnly; manual reconcile is supported only for authoritative repositories"
    );
    let mut provisioning = descriptor("/srv/repos/repo.git", vec![]);
    provisioning.lifecycle = RepositoryLifecycle::Provisioning;
    assert!(matches!(
        reconcile_repository(provisioning, "run".to_owned(), 1),
        Err(ReconcileError::RepositoryNotReady { .. })
    ));
}

#[test]
fn markers_follow_the_latest_results() {
    let result = |name: &str, divergent: bool| ReconcileUpstreamResult {
        upstream_id: name.to_owned(),
        require_atomic: false,
        state: UpstreamConvergenceState::OutOfSync,
        divergent,
        apply_attempted: false,
        detail: None,
        atomic_capability: None,
        observed_before: vec![],
        observed_after: vec![],
    };
    let existing = parse_ref_targets(&format!(
        "{} {MAIN}\n{} {MAIN}\n",
        divergence_ref_name("alpha"),
        divergence_ref_name("gone")
    ))
    .expect("targets");
    let plan = persist_divergence_markers(
        "repo",
        "run-3",
        &vec![result("alpha", true), result("beta", false)],
        &existing,
        9,
    );
    assert_eq!(plan.write.len(), 1);
    assert_eq!(plan.write[0].0, divergence_ref_name("alpha"));
    assert_eq!(plan.write[0].1.run_id, "run-3");
    assert_eq!(plan.delete, vec![divergence_ref_name("gone")]);
    let markers = load_divergence_markers(plan.write.into_iter().map(|(_, m)| m).collect());
    assert_eq!(markers[0].upstream_id, "alpha");
}

#[test]
fn deleting_a_reference_that_is_not_there_succeeds() {
    let args = vec!["update-ref".to_owned()];
    assert!(delete_internal_ref(output(true, "", "", args.clone())).is_ok());
    assert!(delete_internal_ref(output(false, "", "error: not a valid ref", args.clone())).is_ok());
    assert!(matches!(
        delete_internal_ref(output(false, "", "denied", args)),
        Err(ReconcileError::Git { .. })
    ));
}

#[test]
fn pending_requests_are_worked_off_in_order() {
    let known = descriptor("/srv/repos/repo.git", vec![]);
    let mut unknown = descriptor("/srv/repos/other.git", vec![]);
    unknown.repo_id = "a/unknown.git".to_owned();
    let requests = load_pending_reconcile_requests(vec![
        enqueue_reconcile_request(&known, None, None, 2),
        enqueue_reconcile_request(&unknown, None, None, 1),
    ]);
    assert_eq!(requests[0].repo_id, "a/unknown.git");
    let actions = process_pending_reconcile_requests(&requests, &vec![known.clone()]);
    assert!(matches!(actions[0], PendingAction::Clear));
    assert!(matches!(actions[1], PendingAction::Reconcile(0)));
    let status = replication_status_for_repo(&known, Some(requests[1].clone()), vec![]);
    assert_eq!(status.repo_id, known.repo_id);
    assert!(status.latest_run.is_none());
}

#[test]
fn records_are_kept_in_json_files() {
    assert_eq!(
        run_record_files(vec![
            "1.json".to_owned(),
            "3.json".to_owned(),
            "2.tmp".to_owned(),
        ]),
        vec!["3.json".to_owned(), "1.json".to_owned()]
    );
}

#[test]
fn state_is_kept_under_the_state_root() {
    assert_eq!(
        reconcile_lock_path("/srv", "github.com/a/b.git"),
        "/srv/reconcile/locks/github.com_a_b.git.lock"
    );
    assert_eq!(lock_metadata_path("/l"), "/l/metadata.json");
    assert_eq!(
        in_progress_marker_path("/srv", "r"),
        "/srv/reconcile/in-progress/r.json"
    );
    assert_eq!(
        run_record_path("/srv", "r", "run-1"),
        "/srv/reconcile/runs/r/run-1.json"
    );
}

#[test]
fn a_live_run_keeps_others_out() {
    let mut world = pushed_world(&["/srv/upstream.git"]);
    world.locked = true;
    world.lock = Some(LockMetadata {
        repo_id: "r".to_owned(),
        run_id: "x".to_owned(),
        pid: 1,
        acquired_at_ms: 1,
    });
    let descriptor = descriptor(
        "/srv/repos/repo.git",
        vec![upstream("alpha", "/srv/upstream.git")],
    );
    let outcome = try_reconcile(&mut world, &descriptor, "run-1");
    assert!(matches!(outcome, Err(ReconcileError::RunInProgress { .. })));
    assert!(world.locked && world.records.is_empty());
    assert!(absorb_run(vec![], outcome).expect("passed over").is_empty());
}

#[test]
fn a_failed_run_gives_its_lock_back() {
    let descriptor = descriptor("/srv/repos/repo.git", vec![]);
    let session = reconcile_repository(descriptor, "run-1".to_owned(), 10).expect("session");
    let session = session.advance(RunEvent::Lock(LockEvent::Created { pid: 7, now_ms: 1 }));
    let session = session.advance(RunEvent::Lock(LockEvent::Recorded { now_ms: 2 }));
    let session = session.advance(RunEvent::Git {
        reply: GitReply::NotStarted {
            error: "no git".to_owned(),
        },
        now_ms: 3,
    });
    assert!(matches!(session.action(), RunAction::RemoveLock));
    let session = session.advance(RunEvent::Done { now_ms: 4 });
    match session.stage {
        RunStage::Finished(Err(ReconcileError::SpawnGit { error, .. })) => {
            assert_eq!(error, "no git")
        }
        other => panic!("{other:?}"),
    }
}

#[test]
fn a_run_records_each_result_and_marks_divergence() {
    let mut world = pushed_world(&["/srv/a.git", "/srv/b.git"]);
    world.request = true;
    let descriptor = descriptor(
        "/srv/repos/repo.git",
        vec![upstream("b", "/srv/b.git"), upstream("a", "/srv/a.git")],
    );
    let run = reconcile(&mut world, &descriptor, "run-1");
    assert_eq!(run.captured_upstreams, vec!["a".to_owned(), "b".to_owned()]);
    assert_eq!(world.written, 4);
    assert!(!world.request);

    let remote = world.remotes.get_mut("/srv/b.git").expect("remote");
    remote.insert("refs/heads/main".to_owned(), OTHER.to_owned());
    reconcile(&mut world, &descriptor, "run-2");
    assert_eq!(
        world.marks.keys().cloned().collect::<Vec<_>>(),
        vec![divergence_ref_name("b")]
    );

    let remote = world.remotes.get_mut("/srv/b.git").expect("remote");
    remote.insert("refs/heads/main".to_owned(), MAIN.to_owned());
    reconcile(&mut world, &descriptor, "run-3");
    assert!(world.marks.is_empty());
}

#[test]
fn a_lock_is_taken_step_by_step() {
    let stage = LockStage::Create.advance(10, LockEvent::Exists);
    assert!(matches!(stage, LockStage::Inspect));
    let fresh = LockEvent::Holder {
        acquired_at_ms: Some(95),
        now_ms: 100,
        pid_alive: false,
    };
    assert!(matches!(stage.advance(10, fresh), LockStage::Busy));
    let nameless = LockEvent::Holder {
        acquired_at_ms: None,
        now_ms: 100,
        pid_alive: false,
    };
    let stage = stage.advance(10, nameless);
    assert!(matches!(stage, LockStage::Break));
    assert!(matches!(stage.advance(10, LockEvent::Removed), LockStage::Create));
}

#[test]
fn an_ended_run_is_not_superseded() {
    let mut world = pushed_world(&[]);
    let run = reconcile(&mut world, &descriptor("/srv/repos/repo.git", vec![]), "run-1");
    assert!(supersede_stale_run(run, "run-2", 5).is_none());
}

fn stored_run(run_id: &str, started_at_ms: u128) -> ReconcileRunRecord {
    ReconcileRunRecord {
        run_id: run_id.to_owned(),
        repo_id: "github.com/example/repo.git".to_owned(),
        repo_path: "/srv/repos/repo.git".to_owned(),
        started_at_ms,
        completed_at_ms: Some(started_at_ms + 1),
        desired_snapshot: Vec::new(),
        captured_upstreams: Vec::new(),
        repo_safety: RepositorySafetyState::Healthy,
        status: ReconcileRunStatus::Completed,
        superseded_by: None,
        upstream_results: Vec::new(),
    }
}

#[test]
fn the_status_shows_the_run_that_started_last() {
    let runs = vec![
        stored_run("reconcile-9-1000", 1000),
        stored_run("reconcile-10-2000", 2000),
    ];
    let known = descriptor("/srv/repos/repo.git", vec![]);
    for runs in [runs.clone(), runs.into_iter().rev().collect()] {
        let status = replication_status_for_repo(&known, None, runs);
        assert_eq!(status.repo_id, known.repo_id);
        assert_eq!(
            status.latest_run.expect("latest run").run_id,
            "reconcile-10-2000"
        );
    }
    let together = vec![stored_run("a", 5), stored_run("b", 5), stored_run("c", 4)];
    assert_eq!(latest_run(together).expect("latest run").run_id, "a");
    assert!(latest_run(vec![]).is_none());
}

#[test]
fn a_later_request_takes_the_place_of_the_earlier_alone() {
    let known = descriptor("/srv/repos/repo.git", vec![]);
    let mut other = descriptor("/srv/repos/other.git", vec![]);
    other.repo_id = "github.com/example/other.git".to_owned();
    let mut files = BTreeMap::new();
    let mut enqueue = |descriptor: &RepositoryDescriptor, push: &str, request: Option<&str>, at| {
        let request = enqueue_reconcile_request(descriptor, Some(push), request, at);
        files.insert(pending_request_file_path("/srv", &request.repo_id), request);
    };
    enqueue(&other, "push-0", None, 1);
    enqueue(&known, "push-1", Some("req-1"), 2);
    enqueue(&known, "push-2", None, 3);
    assert_eq!(files.len(), 2);
    let stored = &files["/srv/reconcile/pending/github.com_example_repo.git.json"];
    assert_eq!(stored.last_push_id.as_deref(), Some("push-2"));
    assert!(stored.last_request_id.is_none());
    let kept = &files[&pending_request_file_path("/srv", &other.repo_id)];
    assert_eq!(kept.last_push_id.as_deref(), Some("push-0"));
}
